use bridgething::bundles::{bundle_dir_name, hex_encode, sha256_hex, uuid_string};
use bridgething::names::normalize_webapp_name;
use bridgething::pathname::{contained, guess_mime_from_ext, is_safe_name};

#[test]
fn strips_noise_words_and_punctuation() {
    assert_eq!(normalize_webapp_name("the Browser app"), "browser");
    assert_eq!(normalize_webapp_name("Home-Assistant"), "home assistant");
    assert_eq!(normalize_webapp_name("  Hub  "), "hub");
}

#[test]
fn all_noise_normalizes_empty() {
    assert_eq!(normalize_webapp_name("the app"), "");
}

#[test]
fn non_ascii_letters_are_kept_and_symbols_split_words() {
    assert_eq!(normalize_webapp_name("Café_Radio!!"), "café radio");
    assert_eq!(normalize_webapp_name("An Application of WEBAPP"), "of");
}

#[test]
fn a_safe_name_is_one_normal_component() {
    assert!(is_safe_name("abc"));
    assert!(is_safe_name("abc/"));
    assert!(!is_safe_name(""));
    assert!(!is_safe_name("."));
    assert!(!is_safe_name(".."));
    assert!(!is_safe_name("a/b"));
    assert!(!is_safe_name("/abc"));
    assert!(!is_safe_name("./abc"));
}

#[test]
fn contained_refuses_climbing_and_absolute_entries() {
    assert_eq!(contained("/root", "extension/desktop.mjs"), Some("/root/extension/desktop.mjs".to_string()));
    assert_eq!(contained("/root/", "./a//b"), Some("/root/a/b".to_string()));
    assert_eq!(contained("/root", "../x/desktop.mjs"), None);
    assert_eq!(contained("/root", "/etc/passwd"), None);
    assert_eq!(contained("/root", "."), None);
    assert_eq!(contained("/root", ""), None);
}

#[test]
fn mime_follows_the_extension_without_regard_to_case() {
    assert_eq!(guess_mime_from_ext("icon.PNG"), "image/png");
    assert_eq!(guess_mime_from_ext("a/b/icon.jpeg"), "image/jpeg");
    assert_eq!(guess_mime_from_ext("icon.jpg"), "image/jpeg");
    assert_eq!(guess_mime_from_ext("logo.svg"), "image/svg+xml");
    assert_eq!(guess_mime_from_ext("x.webp"), "image/webp");
    assert_eq!(guess_mime_from_ext("x.gif"), "image/gif");
    assert_eq!(guess_mime_from_ext(".png"), "application/octet-stream");
    assert_eq!(guess_mime_from_ext("noext"), "application/octet-stream");
    assert_eq!(guess_mime_from_ext("..png"), "image/png");
}

#[test]
fn ids_are_written_as_uuids_and_bundle_directories() {
    let id = 0xa1a2a3a4b1b2c1c2d1d2d3d4d5d6d7d8u128;
    assert_eq!(uuid_string(id), "a1a2a3a4-b1b2-c1c2-d1d2-d3d4d5d6d7d8");
    assert_eq!(bundle_dir_name(id), "a1a2a3a4b1b2c1c2d1d2d3d4d5d6d7d8");
    assert_eq!(bundle_dir_name(1), "00000000000000000000000000000001");
}

#[test]
fn digests_are_lower_case_hexadecimal() {
    assert_eq!(hex_encode(&[0x00, 0xab, 0x7f]), "00ab7f");
    assert_eq!(
        sha256_hex(b"abc"),
        "ba7816bf8f01cfea414140de5dae2223b00361a396177a9cb410ff61f20015ad"
    );
}

#[test]
fn normalizing_a_normalized_name_changes_nothing() {
    for raw in ["the Browser app", "Home-Assistant", "  Hub  ", "the app", "Ünïcode Äpp 2", "A  B\tC"] {
        let once = normalize_webapp_name(raw);
        assert_eq!(normalize_webapp_name(&once), once);
        assert_eq!(once.trim(), once);
        assert!(!once.contains("  "));
    }
}

#[test]
fn unicode_spaces_split_words_and_normalizing_again_keeps_the_result() {
    let n = normalize_webapp_name("Café\u{a0}RADIO\u{3000}Ünï 2");
    assert_eq!(n, "café radio Ünï 2");
    assert_eq!(normalize_webapp_name(&n), n);
}
