use bridgething::bundle_hash::bundle_hash;
use bridgething::webapp_handler::{resource_plan, ResourceDelivery, RESOURCE_INLINE_MAX};

fn entry(path: &str, bytes: &[u8]) -> (String, Vec<u8>) {
    (path.to_string(), bytes.to_vec())
}

#[test]
fn a_bundle_hash_sorts_files_by_path_components() {
    // "a/x" sorts before "a-b": the component "a" is a prefix of "a-b".
    let listed = vec![entry("b.txt", b"B"), entry("a-b", b"Y"), entry("a/x", b"X")];
    assert_eq!(bundle_hash(&listed), "2a074015a8bca0e6");
    let reordered = vec![entry("a/x", b"X"), entry("b.txt", b"B"), entry("a-b", b"Y")];
    assert_eq!(bundle_hash(&reordered), "2a074015a8bca0e6");
}

#[test]
fn a_bundle_hash_changes_with_any_byte() {
    let one = vec![entry("index.html", b"<h1>a</h1>")];
    let two = vec![entry("index.html", b"<h1>b</h1>")];
    assert_ne!(bundle_hash(&one), bundle_hash(&two));
    assert_eq!(bundle_hash(&one).len(), 16);
}

#[test]
fn a_resource_is_named_by_its_digest() {
    let digest = "2cf24dba5fb0a30e26e83b2ac5b9e29e1b161e5c1fa7425e73043362938b9824".to_string();
    let fresh = resource_plan(&None, b"hello", false);
    assert_eq!(fresh.sha256, digest);
    assert_eq!(fresh.delivery, ResourceDelivery::Inline);
    assert_eq!(resource_plan(&Some(digest.clone()), b"hello", false).delivery, ResourceDelivery::Unchanged);
    let big = vec![7u8; RESOURCE_INLINE_MAX + 1];
    assert_eq!(resource_plan(&Some(digest), &big, true).delivery, ResourceDelivery::Stream);
    assert_eq!(resource_plan(&None, &big, false).delivery, ResourceDelivery::NoAddress);
}
