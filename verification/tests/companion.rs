use bridgething::companion::{
    download_progress, sorted_auto_resume, sorted_ids, DeviceAutoResume, fan_out_delivered, idle_auth, project_active, project_auth, project_slots, provider_infos,
    time_info, webapp_id, AuthKind, CompanionError, HostClock, LinkTable, LogStream, ProgressReport,
    ProviderAuthState, ProviderBook, ProviderEntry,
};
use bridgething::gateway_msgs::{WebappActive, WebappSlots};
use bridgething::keyed::KeyedTable;

fn entry(id: &str, name: &str) -> ProviderEntry {
    ProviderEntry { id: id.to_string(), display_name: name.to_string() }
}

#[test]
fn catalog_entries_come_first_then_unlisted_registered_providers() {
    let catalog = vec![entry("spotify", "Spotify"), entry("apple", "Apple Music")];
    let registered = vec![entry("local", "Local files"), entry("spotify", "Spotify (live)")];
    let connected = vec!["spotify".to_string()];
    let infos = provider_infos(&catalog, &registered, &connected, &[], &[]);
    assert_eq!(infos.len(), 3);
    assert_eq!(infos[0].id, "spotify");
    assert_eq!(infos[0].display_name, "Spotify");
    assert!(infos[0].connected);
    assert_eq!(infos[1].id, "apple");
    assert!(!infos[1].connected);
    assert_eq!(infos[2].id, "local");
    assert_eq!(infos[2].display_name, "Local files");
    assert!(infos.iter().all(|i| i.available));
}

#[test]
fn a_provider_not_registered_shows_idle_even_with_a_recorded_sign_in() {
    let catalog = vec![entry("apple", "Apple Music")];
    let auth = vec![("apple".to_string(), ProviderAuthState::Authenticated)];
    let connected = vec!["apple".to_string()];
    let infos = provider_infos(&catalog, &[], &connected, &[], &auth);
    assert_eq!(infos[0].auth_state.kind, AuthKind::Idle);
    assert!(!infos[0].connected);
}

#[test]
fn a_registered_provider_shows_its_pending_sign_in() {
    let registered = vec![entry("spotify", "Spotify")];
    let auth = vec![(
        "spotify".to_string(),
        ProviderAuthState::Pending {
            user_code: Some("ABCD".to_string()),
            verification_url: Some("https://example.test/device".to_string()),
            verification_url_complete: None,
        },
    )];
    let attached = vec!["spotify".to_string()];
    let infos = provider_infos(&[], &registered, &[], &attached, &auth);
    assert_eq!(infos.len(), 1);
    assert!(infos[0].connected);
    assert_eq!(infos[0].auth_state.kind, AuthKind::Pending);
    assert_eq!(infos[0].auth_state.user_code.as_deref(), Some("ABCD"));
    assert_eq!(infos[0].auth_state.message, None);
}

#[test]
fn a_failed_sign_in_carries_its_reason() {
    let a = project_auth(&ProviderAuthState::Failed { reason: "denied".to_string() });
    assert_eq!(a.kind, AuthKind::Failed);
    assert_eq!(a.message.as_deref(), Some("denied"));
    assert_eq!(a.user_code, None);
    assert_eq!(idle_auth().kind, AuthKind::Idle);
}

#[test]
fn companion_errors_read_as_their_text() {
    assert_eq!(CompanionError::Cancelled.message(), "cancelled");
    assert_eq!(CompanionError::Runtime("boom".to_string()).message(), "runtime: boom");
    assert_eq!(CompanionError::NotConnected.message(), "no link to this device");
    assert_eq!(CompanionError::Device("busy".to_string()).message(), "busy");
    assert_eq!(CompanionError::ResourceNotAvailable.message(), "resource not available");
}

#[test]
fn a_log_token_is_kept_only_while_streaming() {
    let mut logs = LogStream::new();
    assert!(!logs.is_streaming());
    assert!(!logs.wants_subscription(&"dev".to_string()));
    assert_eq!(logs.adopt("dev".to_string(), "t0".to_string()), Some("t0".to_string()));
    assert_eq!(logs.set_enabled(true).map(|v| v.len()), Some(0));
    assert!(logs.wants_subscription(&"dev".to_string()));
    assert_eq!(logs.adopt("dev".to_string(), "t1".to_string()), None);
    assert!(!logs.wants_subscription(&"dev".to_string()));
    assert_eq!(logs.adopt("dev".to_string(), "t2".to_string()), Some("t2".to_string()));
    assert!(logs.set_enabled(true).is_none());
    let released = logs.set_enabled(false).expect("a change releases the tokens");
    assert_eq!(released, vec![("dev".to_string(), "t1".to_string())]);
    assert!(!logs.is_streaming());
}

#[test]
fn a_forgotten_device_is_subscribed_again() {
    let mut logs = LogStream::new();
    let _ = logs.set_enabled(true);
    assert_eq!(logs.adopt("dev".to_string(), "t1".to_string()), None);
    logs.forget(&"dev".to_string());
    assert!(logs.wants_subscription(&"dev".to_string()));
}

#[test]
fn a_stale_link_dying_leaves_the_newer_link() {
    let mut links = LinkTable::new();
    assert_eq!(links.adopt("dev".to_string(), 1), None);
    assert_eq!(links.adopt("dev".to_string(), 2), Some(1));
    assert!(!links.link_died(&"dev".to_string(), 1));
    assert!(links.link_died(&"dev".to_string(), 2));
    assert!(!links.teardown(&"dev".to_string()));
    assert_eq!(links.adopt("dev".to_string(), 3), None);
    assert!(links.teardown(&"dev".to_string()));
}

#[test]
fn a_fan_out_counts_when_any_device_took_the_frame() {
    assert_eq!(fan_out_delivered(&[]), None);
    assert_eq!(fan_out_delivered(&[false, true, false]), Some(true));
    assert_eq!(fan_out_delivered(&[false, false]), Some(false));
}

#[test]
fn the_wall_clock_saturates_at_32_bits() {
    let clock = HostClock {
        tz_iana: "Europe/Berlin".to_string(),
        locale: "de-DE".to_string(),
        unix_seconds: 1_700_000_000,
        utc_offset_minutes: 60,
        dst_offset_minutes: 0,
    };
    let t = time_info(clock.clone());
    assert_eq!(t.wall_clock_unix_s, Some(1_700_000_000));
    assert_eq!(t.tz_iana.as_deref(), Some("Europe/Berlin"));
    assert_eq!(t.utc_offset_minutes, Some(60));
    let late = HostClock { unix_seconds: 5_000_000_000, ..clock };
    assert_eq!(time_info(late).wall_clock_unix_s, Some(u32::MAX));
}

#[test]
fn a_keyed_table_replaces_and_removes_by_key() {
    let mut t: KeyedTable<u32> = KeyedTable::new();
    assert_eq!(t.insert("a".to_string(), 1), None);
    assert_eq!(t.insert("b".to_string(), 2), None);
    assert_eq!(t.insert("a".to_string(), 3), Some(1));
    assert_eq!(t.len(), 2);
    assert_eq!(t.get(&"a".to_string()), Some(&3));
    assert_eq!(t.remove(&"b".to_string()), Some(2));
    assert!(!t.contains(&"b".to_string()));
    let all = t.take_all();
    assert_eq!(all, vec![("a".to_string(), 3)]);
    assert_eq!(t.len(), 0);
}

#[test]
fn slots_and_the_shown_webapp_are_named_by_uuid() {
    let slots = project_slots(WebappSlots { launcher: Some(0x0197_0000_0000_7000_8000_0000_0000_0002), overlay: None });
    assert_eq!(slots.launcher.as_deref(), Some("01970000-0000-7000-8000-000000000002"));
    assert_eq!(slots.overlay, None);
    let active = project_active(WebappActive { id: Some(0xab), name: Some("clock".to_string()) }).expect("shown");
    assert_eq!(active.id, "00000000-0000-0000-0000-0000000000ab");
    assert_eq!(active.name.as_deref(), Some("clock"));
    assert!(project_active(WebappActive { id: None, name: Some("x".to_string()) }).is_none());
}

#[test]
fn a_webapp_id_is_a_uuid_in_any_form_the_host_writes() {
    assert_eq!(webapp_id("01970000-0000-7000-8000-000000000002"), Ok(0x0197_0000_0000_7000_8000_0000_0000_0002));
    assert_eq!(webapp_id("01970000000070008000000000000002"), Ok(0x0197_0000_0000_7000_8000_0000_0000_0002));
    assert_eq!(webapp_id("launcher"), Err(CompanionError::Device("not a webapp id: launcher".to_string())));
}

#[test]
fn download_progress_is_reported_about_once_per_percent() {
    let first = download_progress(1000, 5, 0, u64::MAX);
    assert_eq!(first.bucket, 0);
    assert_eq!(first.report, Some(ProgressReport { received: 5, total: 1000 }));
    let same = download_progress(1000, 9, 0, first.bucket);
    assert_eq!(same.report, None);
    let next = download_progress(1000, 10, 0, first.bucket);
    assert_eq!(next.bucket, 1);
    let done = download_progress(1000, 1000, 0, next.bucket);
    assert_eq!(done.bucket, u64::MAX - 1);
    assert_eq!(done.report, Some(ProgressReport { received: 1000, total: 1000 }));
    let unknown = download_progress(0, 600_000, 0, 0);
    assert_eq!(unknown.bucket, 1);
    assert_eq!(unknown.report, Some(ProgressReport { received: 600_000, total: 0 }));
    let small = download_progress(50, 7, 0, 0);
    assert_eq!(small.bucket, 7);
}

#[test]
fn a_provider_that_signs_in_is_shown_connected() {
    let catalog = vec![entry("spotify", "Spotify"), entry("apple", "Apple Music")];
    let mut book = ProviderBook::new();
    assert_eq!(book.connect(&catalog, &"spotify".to_string(), false), Ok(true));
    assert_eq!(book.connect(&catalog, &"spotify".to_string(), false), Ok(false));
    let before = book.infos(&catalog, &[]);
    assert!(!before[0].connected);
    assert!(book.auth_changed("spotify".to_string(), ProviderAuthState::Authenticated));
    let after = book.infos(&catalog, &[]);
    assert!(after[0].connected);
    assert_eq!(after[0].auth_state.kind, AuthKind::Authenticated);
    assert!(!after[1].connected);
}

#[test]
fn an_unknown_provider_is_refused() {
    let mut book = ProviderBook::new();
    assert_eq!(
        book.connect(&[entry("spotify", "Spotify")], &"tidal".to_string(), true),
        Err(CompanionError::Device("unknown provider tidal".to_string()))
    );
    assert!(!book.is_registered(&"tidal".to_string()));
}

#[test]
fn a_removed_provider_shows_idle() {
    let catalog = vec![entry("spotify", "Spotify")];
    let mut book = ProviderBook::new();
    let _ = book.connect(&catalog, &"spotify".to_string(), true);
    let _ = book.auth_changed("spotify".to_string(), ProviderAuthState::Failed { reason: "x".to_string() });
    assert!(book.infos(&catalog, &[])[0].connected);
    assert!(book.remove(&"spotify".to_string()));
    assert!(!book.remove(&"spotify".to_string()));
    let infos = book.infos(&catalog, &[]);
    assert!(!infos[0].connected);
    assert_eq!(infos[0].auth_state.kind, AuthKind::Idle);
}

#[test]
fn stored_sign_ins_are_restored_once() {
    let catalog = vec![entry("spotify", "Spotify"), entry("apple", "Apple Music"), entry("local", "Local")];
    let mut book = ProviderBook::new();
    book.add(entry("apple", "Apple Music"));
    let restored = book.restore(&catalog, &[true, true, false]);
    assert_eq!(restored, vec!["spotify".to_string()]);
    assert!(book.is_registered(&"spotify".to_string()));
    assert!(!book.is_registered(&"local".to_string()));
    assert!(book.infos(&catalog, &[])[0].connected);
    assert!(book.restore(&catalog, &[true, true, false]).is_empty());
}

#[test]
fn the_debug_lists_are_sorted_by_id() {
    let ids = vec!["phone".to_string(), "car".to_string(), "desk".to_string()];
    assert_eq!(sorted_ids(&ids), vec!["car".to_string(), "desk".to_string(), "phone".to_string()]);
    let prefs = vec![
        DeviceAutoResume { device_id: "b".to_string(), enabled: true },
        DeviceAutoResume { device_id: "a".to_string(), enabled: false },
        DeviceAutoResume { device_id: "b".to_string(), enabled: false },
    ];
    let sorted = sorted_auto_resume(&prefs);
    assert_eq!(sorted[0].device_id, "a");
    assert_eq!((sorted[1].device_id.as_str(), sorted[1].enabled), ("b", true));
    assert_eq!((sorted[2].device_id.as_str(), sorted[2].enabled), ("b", false));
}
