use bridgething::companion::{ConfigKind, WebappRole, WebappSource};
use bridgething::gateway_msgs::{WebappResourceKind, WebappSlot};
use bridgething::webapp_handler::{
    active_payload, after_launcher_change, after_uninstall, check_config_set, check_doc_set, check_slot,
    check_switch, check_uninstall, client_scopes_for, config_delete_value, find_field, grants_permission,
    navigate_url_for_active, resource_delivery, resource_mime, rotation_ws_url, str_eq, switch_drops_tunnels,
    validate_value, AfterUninstall, ClientScope, ConfigFieldRules, ResourceDelivery, KIOSK_HOME_URL,
    RESOURCE_INLINE_MAX,
};
use bridgething::webapps::{ReservedIds, WebappBundle, WebappError, WebappRegistry};

const HUB: u128 = 0x0197_0000_0000_7000_8000_0000_0000_0002;

fn bundle(id: u128, name: &str, source: WebappSource) -> WebappBundle {
    WebappBundle {
        path: format!("/webapps/{id:032x}"),
        source,
        id,
        name: name.to_string(),
        version: "0.1.0".to_string(),
        role: WebappRole::Standard,
        description: None,
        icon_mime: None,
        icon_hash: None,
        settings_hash: None,
        overlay_hash: None,
        has_app_entry: true,
        extension: None,
        provenance: None,
    }
}

fn registry() -> WebappRegistry {
    let mut reg = WebappRegistry::new(ReservedIds { stock: 1, hub: HUB, browser: 3 }, &[]);
    let mut launcher = bundle(20, "launcher", WebappSource::Installed);
    launcher.role = WebappRole::Launcher;
    let mut overlay = bundle(21, "overlay", WebappSource::Installed);
    overlay.has_app_entry = false;
    overlay.overlay_hash = Some("ff".to_string());
    reg.rescan(
        vec![bundle(HUB, "hub", WebappSource::Builtin)],
        vec![bundle(10, "clock", WebappSource::Installed), launcher, overlay],
        &[],
    );
    reg
}

fn field(kind: ConfigKind, key: &str) -> ConfigFieldRules {
    ConfigFieldRules {
        kind,
        key: key.to_string(),
        min_length: None,
        max_length: None,
        choices: vec![],
        default_storage: None,
    }
}

#[test]
fn an_unknown_webapp_is_refused_by_its_uuid() {
    let reg = registry();
    assert_eq!(
        check_switch(&reg, 0x1234),
        Err(WebappError::WebappNotFound { id: "00000000-0000-0000-0000-000000001234".to_string() })
    );
    assert_eq!(check_switch(&reg, 10), Ok(()));
    assert_eq!(check_switch(&reg, 21), Err(WebappError::MissingIndexHtml));
}

#[test]
fn a_reserved_builtin_cannot_be_uninstalled() {
    let reg = registry();
    assert_eq!(
        check_uninstall(&reg, HUB),
        Err(WebappError::CannotUninstallBuiltin { id: "01970000-0000-7000-8000-000000000002".to_string() })
    );
    assert_eq!(check_uninstall(&reg, 10), Ok(()));
}

#[test]
fn slots_take_only_what_fits_them() {
    let reg = registry();
    assert_eq!(check_slot(&reg, WebappSlot::Launcher, None), Ok(()));
    assert_eq!(check_slot(&reg, WebappSlot::Launcher, Some(20)), Ok(()));
    assert!(matches!(check_slot(&reg, WebappSlot::Launcher, Some(10)), Err(WebappError::NotALauncher { .. })));
    assert_eq!(check_slot(&reg, WebappSlot::Overlay, Some(21)), Ok(()));
    assert!(matches!(check_slot(&reg, WebappSlot::Overlay, Some(10)), Err(WebappError::NoOverlay { .. })));
    assert!(matches!(check_slot(&reg, WebappSlot::Overlay, Some(99)), Err(WebappError::WebappNotFound { .. })));
}

#[test]
fn uninstalling_the_shown_webapp_falls_back_to_the_launcher() {
    assert_eq!(after_uninstall(10, false, Some(10), Some(20)), AfterUninstall { show: Some(20), reload: true });
    assert_eq!(after_uninstall(10, false, Some(10), None), AfterUninstall { show: None, reload: false });
    assert_eq!(after_uninstall(10, true, Some(11), Some(20)), AfterUninstall { show: None, reload: true });
    assert_eq!(after_launcher_change(Some(20), Some(20), Some(22)), Some(22));
    assert_eq!(after_launcher_change(Some(10), Some(20), Some(22)), None);
    assert_eq!(after_launcher_change(Some(20), Some(20), None), None);
}

#[test]
fn a_resource_is_inlined_up_to_the_cap_and_streamed_beyond() {
    let h = "abc".to_string();
    assert_eq!(resource_delivery(&Some("abc".to_string()), &h, 1 << 20, false), ResourceDelivery::Unchanged);
    assert_eq!(resource_delivery(&Some("old".to_string()), &h, RESOURCE_INLINE_MAX, false), ResourceDelivery::Inline);
    assert_eq!(resource_delivery(&None, &h, RESOURCE_INLINE_MAX + 1, true), ResourceDelivery::Stream);
    assert_eq!(resource_delivery(&None, &h, RESOURCE_INLINE_MAX + 1, false), ResourceDelivery::NoAddress);
    assert_eq!(resource_mime(WebappResourceKind::Settings, None).as_deref(), Some("text/html"));
    assert_eq!(resource_mime(WebappResourceKind::Overlay, None).as_deref(), Some("text/javascript"));
    assert_eq!(resource_mime(WebappResourceKind::Icon, Some("image/png".to_string())).as_deref(), Some("image/png"));
}

#[test]
fn config_values_are_checked_against_their_field() {
    let mut name = field(ConfigKind::String, "name");
    name.min_length = Some(2);
    name.max_length = Some(4);
    assert_eq!(validate_value(&name, "ab", None), Ok(()));
    assert_eq!(validate_value(&name, "a", None), Err("value shorter than min_length 2".to_string()));
    assert_eq!(validate_value(&name, "abcde", None), Err("value longer than max_length 4".to_string()));
    let flag = field(ConfigKind::Boolean, "flag");
    assert_eq!(validate_value(&flag, "true", None), Ok(()));
    assert_eq!(validate_value(&flag, "yes", None), Err("expected true/false, got yes".to_string()));
    let mut mode = field(ConfigKind::Enum, "mode");
    mode.choices = vec!["a".to_string(), "b".to_string()];
    assert_eq!(validate_value(&mode, "b", None), Ok(()));
    assert_eq!(validate_value(&mode, "c", None), Err("not in choices: c".to_string()));
    let n = field(ConfigKind::Number, "n");
    assert_eq!(validate_value(&n, "x", Some("not a number".to_string())), Err("not a number".to_string()));
    assert_eq!(validate_value(&n, "3", None), Ok(()));
}

#[test]
fn a_config_write_names_a_known_key() {
    let reg = registry();
    let mut with_default = field(ConfigKind::Boolean, "flag");
    with_default.default_storage = Some("true".to_string());
    let fields = vec![field(ConfigKind::String, "name"), with_default];
    assert_eq!(find_field(&fields, &"flag".to_string()), Some(1));
    assert_eq!(find_field(&fields, &"nope".to_string()), None);
    assert_eq!(
        check_config_set(&reg, 10, &fields, &"nope".to_string(), "x", None),
        Err(WebappError::UnknownConfigKey { key: "nope".to_string() })
    );
    assert_eq!(
        check_config_set(&reg, 10, &fields, &"flag".to_string(), "maybe", None),
        Err(WebappError::InvalidConfigValue {
            key: "flag".to_string(),
            reason: "expected true/false, got maybe".to_string()
        })
    );
    assert_eq!(check_config_set(&reg, 10, &fields, &"name".to_string(), "x", None), Ok(()));
    assert_eq!(config_delete_value(&reg, 10, &fields, &"flag".to_string()), Ok(Some("true".to_string())));
    assert_eq!(config_delete_value(&reg, 10, &fields, &"name".to_string()), Ok(None));
}

#[test]
fn a_document_larger_than_the_cap_is_refused() {
    let reg = registry();
    let big = "x".repeat(262_145);
    assert_eq!(
        check_doc_set(&reg, 10, &"doc".to_string(), &big),
        Err(WebappError::InvalidDocValue {
            key: "doc".to_string(),
            reason: "value exceeds 262144 bytes".to_string()
        })
    );
    assert_eq!(check_doc_set(&reg, 10, &"doc".to_string(), &big[1..]), Ok(()));
}

#[test]
fn a_change_is_told_to_the_shown_webapp_and_the_overlay() {
    assert_eq!(client_scopes_for(5, Some(5), Some(5)), vec![ClientScope::ActiveWebapp, ClientScope::Overlay]);
    assert_eq!(client_scopes_for(5, Some(6), Some(5)), vec![ClientScope::Overlay]);
    assert_eq!(client_scopes_for(5, None, None), vec![]);
}

#[test]
fn the_launcher_is_reached_through_the_hub_address() {
    assert_eq!(navigate_url_for_active(Some(20), Some(20), Some("beef".to_string())), "http://127.0.0.1:8891/_hub/beef/");
    assert_eq!(navigate_url_for_active(Some(10), Some(20), Some("beef".to_string())), KIOSK_HOME_URL);
    assert_eq!(navigate_url_for_active(None, None, None), KIOSK_HOME_URL);
}

#[test]
fn the_active_reply_names_a_known_webapp() {
    let reg = registry();
    let a = active_payload(&reg, Some(10));
    assert_eq!(a.id, Some(10));
    assert_eq!(a.name.as_deref(), Some("clock"));
    assert_eq!(active_payload(&reg, Some(77)).name, None);
    assert_eq!(active_payload(&reg, None).id, None);
}

#[test]
fn small_helpers_compare_and_format() {
    assert_eq!(rotation_ws_url(8891), "ws://127.0.0.1:8891/");
    assert!(grants_permission(&vec!["all".to_string(), "net:example.com".to_string()], "net:example.com"));
    assert!(!grants_permission(&vec!["all".to_string()], "net"));
    assert!(str_eq("é", "é"));
    assert!(!str_eq("a", "ab"));
    assert!(switch_drops_tunnels(Some(1), 2));
    assert!(switch_drops_tunnels(None, 2));
    assert!(!switch_drops_tunnels(Some(2), 2));
}
