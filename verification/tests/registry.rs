use bridgething::bundles::{
    admit_entry, assemble_bundle, check_entry_size, check_provenance, check_staged, extension_rejection,
    validate_manifest, ConfigFieldFacts, NumberDefault,
};
use bridgething::companion::{ConfigKind, ExtensionInfo, WebappRole, WebappSource};
use bridgething::pathname::contained;
use bridgething::webapps::{ReservedIds, Uninstall, WebappBundle, WebappError, WebappRegistry};

const STOCK: u128 = 0x0197_0000_0000_7000_8000_0000_0000_0001;
const HUB: u128 = 0x0197_0000_0000_7000_8000_0000_0000_0002;
const BROWSER: u128 = 0x0197_0000_0000_7000_8000_0000_0000_0003;

fn reserved() -> ReservedIds {
    ReservedIds { stock: STOCK, hub: HUB, browser: BROWSER }
}

fn bundle(id: u128, name: &str, source: WebappSource) -> WebappBundle {
    WebappBundle {
        path: format!("/webapps/{id:032x}"),
        source,
        id,
        name: name.to_string(),
        version: "0.1.0".to_string(),
        role: WebappRole::Standard,
        description: None,
        icon_mime: None,
        icon_hash: None,
        settings_hash: None,
        overlay_hash: None,
        has_app_entry: true,
        extension: None,
        provenance: None,
    }
}

fn overlay_only(id: u128) -> WebappBundle {
    let mut b = bundle(id, "overlay-only", WebappSource::Installed);
    b.has_app_entry = false;
    b.overlay_hash = Some("abc".to_string());
    b
}

fn registry_with(builtin: Vec<WebappBundle>, installed: Vec<WebappBundle>) -> WebappRegistry {
    let mut reg = WebappRegistry::new(reserved(), &[]);
    reg.rescan(builtin, installed, &[]);
    reg
}

#[test]
fn an_overlay_only_webapp_installs_but_is_not_listed_to_clients() {
    let reg = registry_with(vec![], vec![bundle(10, "planted", WebappSource::Installed), overlay_only(11)]);
    let all = reg.list();
    assert!(all.contains(&10));
    assert!(all.contains(&11));
    let clients = reg.list_for_clients();
    assert!(clients.contains(&10));
    assert!(!clients.contains(&11));
    assert!(!reg.has_app_entry(11));
    assert!(reg.has_app_entry(10));
}

#[test]
fn an_overlay_only_webapp_is_not_a_spoken_open_target() {
    let reg = registry_with(vec![], vec![bundle(10, "planted", WebappSource::Installed), overlay_only(11)]);
    assert_eq!(reg.resolve_by_name("planted"), Some(10));
    assert_eq!(reg.resolve_by_name("overlay only"), None);
    assert_eq!(reg.resolve_by_name("overlay"), None);
}

#[test]
fn a_spoken_name_that_partly_matches_two_webapps_opens_neither() {
    let reg = registry_with(
        vec![],
        vec![bundle(1, "Spotify Player", WebappSource::Installed), bundle(2, "Music Player", WebappSource::Installed)],
    );
    assert_eq!(reg.resolve_by_name("player"), None);
    assert_eq!(reg.resolve_by_name("the spotify app"), Some(1));
    assert_eq!(reg.resolve_by_name("music"), Some(2));
    assert_eq!(reg.resolve_by_name("the app"), None);
}

#[test]
fn a_listing_is_sorted_by_name_then_id() {
    let reg = registry_with(
        vec![bundle(3, "beta", WebappSource::Builtin)],
        vec![bundle(2, "alpha", WebappSource::Installed), bundle(1, "beta", WebappSource::Installed)],
    );
    assert_eq!(reg.list(), vec![2, 1, 3]);
}

#[test]
fn builtin_uninstall_tombstones_and_hides() {
    let builtin = vec![bundle(42, "builtin-test", WebappSource::Builtin)];
    let mut reg = registry_with(builtin.clone(), vec![]);
    assert!(reg.bundle(42).is_some(), "builtin visible before uninstall");
    let outcome = reg.uninstall(42);
    assert_eq!(outcome, Uninstall::Tombstoned);
    assert!(outcome.removed(), "uninstall reports removal");
    assert!(reg.bundle(42).is_none(), "builtin hidden after uninstall");
    assert!(reg.uninstalled_builtin_ids().contains(&42));
    reg.rescan(builtin, vec![], &[]);
    assert!(reg.bundle(42).is_none(), "tombstoned builtin stays hidden across rescan");
}

#[test]
fn builtin_tombstone_survives_reinit() {
    let builtin = vec![bundle(42, "builtin-test", WebappSource::Builtin)];
    let mut reg = registry_with(builtin.clone(), vec![]);
    assert!(reg.uninstall(42).removed());
    let saved = reg.uninstalled_builtin_ids();
    let mut reg2 = WebappRegistry::new(reserved(), &saved);
    reg2.rescan(builtin, vec![], &[]);
    assert!(reg2.bundle(42).is_none(), "tombstone persists across daemon restarts");
    assert!(reg2.uninstalled_builtin_ids().contains(&42));
}

#[test]
fn restore_builtin_brings_it_back() {
    let builtin = vec![bundle(42, "builtin-test", WebappSource::Builtin)];
    let mut reg = registry_with(builtin.clone(), vec![]);
    assert!(reg.uninstall(42).removed());
    assert!(reg.bundle(42).is_none());
    assert!(reg.restore_builtin(42), "restore reports success");
    reg.rescan(builtin, vec![], &[]);
    assert!(reg.bundle(42).is_some(), "builtin visible again after restore");
    assert!(!reg.restore_builtin(42), "second restore is a no-op");
}

#[test]
fn reserved_builtin_uninstall_is_refused_by_registry() {
    let mut reg = registry_with(vec![bundle(HUB, "hub", WebappSource::Builtin)], vec![]);
    assert!(reg.bundle(HUB).is_some());
    assert_eq!(reg.uninstall(HUB), Uninstall::Refused);
    assert!(reg.bundle(HUB).is_some(), "reserved builtin stays installed");
    assert!(reg.uninstalled_builtin_ids().is_empty());
}

#[test]
fn an_installed_bundle_is_deleted_not_tombstoned() {
    let mut reg = registry_with(vec![], vec![bundle(7, "mine", WebappSource::Installed)]);
    assert_eq!(reg.uninstall(7), Uninstall::DeleteInstalled { path: format!("/webapps/{:032x}", 7u128) });
    assert!(reg.bundle(7).is_some(), "the files go first; a rescan then drops it");
    assert_eq!(reg.uninstall(99), Uninstall::Unknown);
}

#[test]
fn an_installed_bundle_claiming_a_reserved_id_becomes_a_dev_shadow() {
    let mut claimer = bundle(HUB, "dev hub", WebappSource::Installed);
    claimer.role = WebappRole::Launcher;
    let reg = registry_with(vec![bundle(HUB, "hub", WebappSource::Builtin)], vec![claimer]);
    let hub = reg.bundle(HUB).expect("the builtin keeps its id");
    assert_eq!(hub.source, WebappSource::Builtin);
    let shadow = reg.list().into_iter().find(|id| *id != HUB).expect("the shadow is listed");
    let b = reg.bundle(shadow).unwrap();
    assert_eq!(b.role, WebappRole::Standard);
    assert_eq!((shadow >> 76) & 0xf, 5, "a name-based id");
}

#[test]
fn an_installed_bundle_shadows_a_builtin_and_carries_its_provenance() {
    let reg = {
        let mut r = WebappRegistry::new(reserved(), &[]);
        r.rescan(
            vec![bundle(5, "old", WebappSource::Builtin)],
            vec![bundle(5, "new", WebappSource::Installed)],
            &[(5, "store".to_string())],
        );
        r
    };
    let b = reg.bundle(5).unwrap();
    assert_eq!(b.name, "new");
    assert_eq!(b.provenance.as_deref(), Some("store"));
}

#[test]
fn the_default_webapp_prefers_the_hub_then_the_stock_app() {
    let reg = registry_with(vec![bundle(STOCK, "stock", WebappSource::Builtin), bundle(HUB, "hub", WebappSource::Builtin)], vec![]);
    assert_eq!(reg.default_id(), Some(HUB));
    let reg = registry_with(vec![bundle(STOCK, "stock", WebappSource::Builtin)], vec![]);
    assert_eq!(reg.default_id(), Some(STOCK));
    let reg = registry_with(vec![bundle(9, "other", WebappSource::Builtin)], vec![bundle(8, "mine", WebappSource::Installed)]);
    assert_eq!(reg.default_id(), Some(9));
    let reg = registry_with(vec![], vec![bundle(8, "mine", WebappSource::Installed)]);
    assert_eq!(reg.default_id(), None);
}

#[test]
fn a_bundle_with_no_app_entry_and_no_overlay_is_rejected() {
    let made = assemble_bundle(
        "/x".to_string(), WebappSource::Installed, 1, "broken".to_string(), "0.1.0".to_string(),
        WebappRole::Standard, None, None, None, None, false, None,
    );
    assert!(made.is_none());
}

#[test]
fn a_scan_tolerates_an_unusable_extension_by_dropping_it() {
    let info = ExtensionInfo { permissions: vec!["all".to_string()], api: 1 };
    let kept = assemble_bundle(
        "/x".to_string(), WebappSource::Installed, 1, "a".to_string(), "0.1.0".to_string(),
        WebappRole::Standard, None, Some(("image/png".to_string(), "h".to_string())), None, None, true,
        Some((info.clone(), None)),
    )
    .unwrap();
    assert_eq!(kept.extension, Some(info.clone()));
    assert_eq!(kept.icon_mime.as_deref(), Some("image/png"));
    let dropped = assemble_bundle(
        "/x".to_string(), WebappSource::Installed, 1, "a".to_string(), "0.1.0".to_string(),
        WebappRole::Standard, None, None, None, None, true,
        Some((info, Some("declares api 2 (this daemon speaks 1)".to_string()))),
    )
    .unwrap();
    assert_eq!(dropped.extension, None);
}

#[test]
fn extension_problems_are_named_in_order() {
    assert_eq!(
        extension_rejection(2, "extension/desktop.mjs", true, true, true).as_deref(),
        Some("declares api 2 (this daemon speaks 1)")
    );
    assert_eq!(
        extension_rejection(1, "../x.mjs", false, false, false).as_deref(),
        Some("entry '../x.mjs' climbs out of the bundle")
    );
    assert_eq!(
        extension_rejection(1, "e.mjs", true, false, false).as_deref(),
        Some("entry 'e.mjs' is not a file in the bundle")
    );
    assert_eq!(
        extension_rejection(1, "e.mjs", true, true, false).as_deref(),
        Some("entry 'e.mjs' resolves outside the bundle")
    );
    assert_eq!(extension_rejection(1, "e.mjs", true, true, true), None);
}

#[test]
fn an_install_hard_rejects_an_extension_the_bundle_cannot_back() {
    let b = bundle(10, "planted", WebappSource::Installed);
    let err = check_staged(&reserved(), true, &Some(b), false, false, Some("entry 'x' is not a file in the bundle".to_string()));
    assert_eq!(
        err,
        Err(WebappError::InvalidManifest { reason: "declared extension entry 'x' is not a file in the bundle".to_string() })
    );
}

#[test]
fn an_install_keeps_a_bundle_whose_extension_checks_out() {
    let b = bundle(10, "planted", WebappSource::Installed);
    assert_eq!(check_staged(&reserved(), true, &Some(b), false, false, None), Ok(()));
}

#[test]
fn staged_bundles_are_checked_in_order() {
    let b = bundle(10, "planted", WebappSource::Installed);
    assert_eq!(check_staged(&reserved(), false, &Some(b.clone()), true, true, None), Err(WebappError::MissingIndexHtml));
    assert!(matches!(check_staged(&reserved(), true, &None, false, false, None), Err(WebappError::InvalidManifest { .. })));
    let hub = bundle(HUB, "hub", WebappSource::Installed);
    assert_eq!(
        check_staged(&reserved(), true, &Some(hub), false, false, None),
        Err(WebappError::IdReserved { id: "01970000-0000-7000-8000-000000000002".to_string() })
    );
    assert_eq!(
        check_staged(&reserved(), true, &Some(b.clone()), true, false, None),
        Err(WebappError::InvalidManifest { reason: "declared settings page is missing or exceeds 1048576 bytes".to_string() })
    );
    assert_eq!(
        check_staged(&reserved(), true, &Some(b), false, true, None),
        Err(WebappError::InvalidManifest { reason: "declared overlay is missing or exceeds 524288 bytes".to_string() })
    );
}

#[test]
fn archives_may_not_unpack_past_the_cap() {
    assert_eq!(admit_entry(0, 10), Ok(10));
    assert_eq!(admit_entry(1073741820, 4), Ok(1073741824));
    assert_eq!(admit_entry(1073741820, 5), Err(WebappError::ExtractedTooLarge { max_bytes: 1073741824 }));
    assert_eq!(admit_entry(u64::MAX, 1), Err(WebappError::ExtractedTooLarge { max_bytes: 1073741824 }));
    assert_eq!(check_entry_size(3, 10, 10), Ok(()));
    assert_eq!(
        check_entry_size(3, 10, 11),
        Err(WebappError::ZipMalformed { reason: "entry 3 size mismatch: CD says 10, decompressed 11".to_string() })
    );
}

#[test]
fn provenance_notes_are_capped_in_bytes() {
    assert_eq!(check_provenance(&Some("é".repeat(3)), 6), Ok(()));
    assert_eq!(check_provenance(&Some("é".repeat(4)), 6), Err(WebappError::ProvenanceTooLong { max_bytes: 6 }));
    assert_eq!(check_provenance(&None, 0), Ok(()));
}

fn field(kind: ConfigKind, key: &str) -> ConfigFieldFacts {
    ConfigFieldFacts { kind, key: key.to_string(), choices: vec![], enum_default: None, number_default: NumberDefault::Fits }
}

#[test]
fn manifests_are_checked_field_by_field() {
    assert_eq!(validate_manifest(0, "n", "1", &vec![]), Err("manifest id is nil".to_string()));
    assert_eq!(validate_manifest(1, "  ", "1", &vec![]), Err("manifest name is empty".to_string()));
    assert_eq!(validate_manifest(1, "n", "\t", &vec![]), Err("manifest version is empty".to_string()));
    assert_eq!(validate_manifest(1, "n", "1", &vec![field(ConfigKind::String, " ")]), Err("config field key is empty".to_string()));
    assert_eq!(
        validate_manifest(1, "n", "1", &vec![field(ConfigKind::String, "a"), field(ConfigKind::Boolean, "a")]),
        Err("duplicate config key 'a'".to_string())
    );
    let mut low = field(ConfigKind::Number, "volume");
    low.number_default = NumberDefault::BelowMin;
    assert_eq!(validate_manifest(1, "n", "1", &vec![low]), Err("default for 'volume' below min".to_string()));
    assert_eq!(validate_manifest(1, "n", "1", &vec![field(ConfigKind::Enum, "mode")]), Err("enum 'mode' has no choices".to_string()));
    let mut e = field(ConfigKind::Enum, "mode");
    e.choices = vec!["a".to_string(), "b".to_string()];
    e.enum_default = Some("c".to_string());
    assert_eq!(validate_manifest(1, "n", "1", &vec![e.clone()]), Err("default 'c' for 'mode' not in choices".to_string()));
    e.enum_default = Some("b".to_string());
    assert_eq!(validate_manifest(1, "n", "1", &vec![e]), Ok(()));
}

#[test]
fn a_bundle_whose_declared_overlay_is_missing_does_not_load() {
    // The overlay file is missing, so it has no hash; the bundle has no page either.
    let made = assemble_bundle(
        "/x".to_string(), WebappSource::Installed, 1, "overlay-only".to_string(), "0.1.0".to_string(),
        WebappRole::Standard, None, None, None, None, false, None,
    );
    assert!(made.is_none(), "a bundle with no app entry and no loadable overlay is not a webapp");
}

#[test]
fn an_entry_outside_the_bundle_is_not_an_extension_however_real_the_file_is() {
    let climbing = "../0197aaaa00007000800000000000000a/extension/desktop.mjs";
    assert_eq!(contained("/webapps/b", climbing), None);
    assert_eq!(
        extension_rejection(1, climbing, false, true, true).as_deref(),
        Some("entry '../0197aaaa00007000800000000000000a/extension/desktop.mjs' climbs out of the bundle"),
        "a bundle must not borrow another bundle's script under its own permission set"
    );
    let absolute = "/tmp/elsewhere/desktop.mjs";
    assert_eq!(contained("/webapps/b", absolute), None);
    assert!(
        extension_rejection(1, absolute, false, true, true).is_some(),
        "an absolute entry discards the bundle root entirely and must be refused"
    );
}

#[test]
fn an_entry_that_symlinks_out_of_the_bundle_is_not_an_extension() {
    let entry = "extension/desktop.mjs";
    assert_eq!(contained("/webapps/b", entry).as_deref(), Some("/webapps/b/extension/desktop.mjs"));
    assert_eq!(
        extension_rejection(1, entry, true, true, false).as_deref(),
        Some("entry 'extension/desktop.mjs' resolves outside the bundle"),
        "a clean relative entry still has to resolve inside the bundle"
    );
}
