use bridgething::chrome::{
    chrome_port, chrome_status_url, dev_host_from, dev_host_of, history_target, is_web_page, looks_stranded,
    pick_kiosk_tab, rotation_metrics, url_matches_current, DevHost, DevHostVerdict, IpLiteral, KioskState,
    MetricsOverride, Orientation, ParsedUrl, StrandedVerdict, UrlHost,
};

#[test]
fn error_pages_are_stranded_whether_or_not_we_serve() {
    assert!(looks_stranded("chrome-error://chromewebdata/", false));
    assert!(looks_stranded("chrome-error://chromewebdata/", true));
}

#[test]
fn blank_is_only_stranded_once_we_can_answer() {
    assert!(!looks_stranded("about:blank", false));
    assert!(looks_stranded("about:blank", true));
}

#[test]
fn a_loaded_page_is_never_stranded() {
    assert!(!looks_stranded("http://127.0.0.1:8891/", false));
    assert!(!looks_stranded("http://127.0.0.1:8891/", true));
}

fn v4(a: u8, b: u8, c: u8, d: u8) -> IpLiteral {
    IpLiteral::V4(u32::from_be_bytes([a, b, c, d]))
}

#[test]
fn only_an_off_device_ip_literal_names_a_dev_host() {
    assert_eq!(
        dev_host_of("http://10.42.1.116:5173/"),
        Some(DevHost { ip: v4(10, 42, 1, 116), port: 5173 })
    );
    assert_eq!(
        dev_host_of("http://10.42.1.116/"),
        Some(DevHost { ip: v4(10, 42, 1, 116), port: 80 })
    );
    assert_eq!(
        dev_host_of("http://[fe80::1]:5173/"),
        Some(DevHost { ip: IpLiteral::V6(0xfe80_0000_0000_0000_0000_0000_0000_0001), port: 5173 })
    );
    assert_eq!(dev_host_of("http://127.0.0.1:8891/"), None);
    assert_eq!(dev_host_of("http://127.0.0.1:8891/_hub/abc/"), None);
    assert_eq!(dev_host_of("http://0.0.0.0:5173/"), None);
    assert_eq!(dev_host_of("http://bridgething.local:5173/"), None);
    assert_eq!(dev_host_of("https://example.com/"), None);
    assert_eq!(dev_host_of("about:blank"), None);
    assert_eq!(dev_host_of("not a url"), None);
}

#[test]
fn browser_internal_targets_are_never_the_kiosk_tab() {
    assert!(!is_web_page("chrome://omnibox-popup.top-chrome/"));
    assert!(!is_web_page("chrome-extension://abc/_generated_background_page.html"));
    assert!(!is_web_page("chrome-untrusted://new-tab-page/"));
    assert!(!is_web_page("devtools://devtools/bundled/inspector.html"));
    assert!(is_web_page("http://127.0.0.1:8891/"));
    assert!(is_web_page("about:blank"));
}

#[test]
fn the_kiosk_tab_is_the_first_web_page() {
    let tabs = vec!["chrome://newtab/".to_string(), "http://a/".to_string(), "http://b/".to_string()];
    assert_eq!(pick_kiosk_tab(&tabs), Some(1));
    assert_eq!(pick_kiosk_tab(&vec!["devtools://x".to_string()]), None);
}

#[test]
fn a_dev_host_needs_an_ip_literal_off_this_device() {
    let parsed = |host, port| Some(ParsedUrl { host, port });
    assert_eq!(dev_host_from(parsed(UrlHost::Ipv4(0x7f00_0002), Some(80))), None);
    assert_eq!(dev_host_from(parsed(UrlHost::Ipv6(1), Some(80))), None);
    assert_eq!(dev_host_from(parsed(UrlHost::Ipv6(0), Some(80))), None);
    assert_eq!(dev_host_from(parsed(UrlHost::Domain, Some(80))), None);
    assert_eq!(dev_host_from(parsed(UrlHost::Ipv4(0x0a00_0001), None)), None);
    assert_eq!(
        dev_host_from(parsed(UrlHost::Ipv4(0x0a00_0001), Some(8080))),
        Some(DevHost { ip: IpLiteral::V4(0x0a00_0001), port: 8080 })
    );
    assert_eq!(dev_host_from(None), None);
}

#[test]
fn trailing_slashes_do_not_tell_pages_apart() {
    assert!(url_matches_current("http://127.0.0.1:8891/", "http://127.0.0.1:8891"));
    assert!(url_matches_current("http://x//", "http://x"));
    assert!(!url_matches_current("http://x/a", "http://x/b"));
}

#[test]
fn the_debug_port_falls_back_on_anything_but_a_port_number() {
    assert_eq!(chrome_port(Some("9333"), 9222), 9333);
    assert_eq!(chrome_port(Some("+9333"), 9222), 9333);
    assert_eq!(chrome_port(Some("70000"), 9222), 9222);
    assert_eq!(chrome_port(Some(" 9333"), 9222), 9222);
    assert_eq!(chrome_port(Some(""), 9222), 9222);
    assert_eq!(chrome_port(None, 9223), 9223);
    assert_eq!(chrome_status_url(9222), "http://127.0.0.1:9222/json/version");
}

#[test]
fn rotation_lays_the_tab_out_at_the_rotated_size() {
    assert_eq!(rotation_metrics(0), MetricsOverride::Clear);
    assert_eq!(
        rotation_metrics(90),
        MetricsOverride::Layout { width: 480, height: 800, orientation: Orientation::PortraitPrimary, angle: 90 }
    );
    assert_eq!(
        rotation_metrics(180),
        MetricsOverride::Layout { width: 800, height: 480, orientation: Orientation::LandscapeSecondary, angle: 180 }
    );
    assert_eq!(
        rotation_metrics(270),
        MetricsOverride::Layout { width: 480, height: 800, orientation: Orientation::PortraitSecondary, angle: 270 }
    );
    assert_eq!(Orientation::PortraitSecondary.name(), "portraitSecondary");
}

#[test]
fn history_steps_stay_inside_the_history() {
    assert_eq!(history_target(0, 3, true), Some(1));
    assert_eq!(history_target(2, 3, true), None);
    assert_eq!(history_target(0, 3, false), None);
    assert_eq!(history_target(2, 3, false), Some(1));
}

#[test]
fn a_stranded_tab_is_recovered_on_the_second_sighting() {
    let mut k = KioskState::new();
    k.navigate(Some(DevHost { ip: IpLiteral::V4(0x0a00_0001), port: 5173 }));
    assert_eq!(k.observe_stranded(Some(true)), StrandedVerdict::Suspect);
    assert_eq!(k.observe_stranded(Some(false)), StrandedVerdict::Fine);
    assert_eq!(k.observe_stranded(Some(true)), StrandedVerdict::Suspect);
    assert_eq!(k.observe_stranded(Some(true)), StrandedVerdict::Recover);
    assert_eq!(k.dev_host, None);
    k.navigate_external();
    assert_eq!(k.observe_stranded(Some(true)), StrandedVerdict::Fine);
}

#[test]
fn a_dev_host_is_given_up_after_three_silent_probes() {
    let mut k = KioskState::new();
    k.navigate(Some(DevHost { ip: IpLiteral::V4(0x0a00_0001), port: 5173 }));
    assert_eq!(k.observe_dev_host(false), DevHostVerdict::Keep);
    assert_eq!(k.observe_dev_host(false), DevHostVerdict::Keep);
    assert_eq!(k.observe_dev_host(true), DevHostVerdict::Keep);
    assert_eq!(k.observe_dev_host(false), DevHostVerdict::Keep);
    assert_eq!(k.observe_dev_host(false), DevHostVerdict::Keep);
    assert_eq!(k.observe_dev_host(false), DevHostVerdict::GiveUp);
    assert_eq!(k.dev_host, None);
}
