use bridgething::screenshot::{
    delete_after_push, screenshot_file_name, screenshot_timestamp, screenshots_to_prune, MAX_SCREENSHOTS,
};

#[test]
fn a_screenshot_is_named_by_its_capture_time() {
    let name = screenshot_file_name(1_700_000_000_123);
    assert_eq!(name, "screenshot-1700000000123.png");
    assert_eq!(screenshot_timestamp(&name), 1_700_000_000_123);
}

#[test]
fn other_names_read_as_the_oldest() {
    assert_eq!(screenshot_timestamp("photo.png"), 0);
    assert_eq!(screenshot_timestamp("screenshot-12.jpg"), 0);
    assert_eq!(screenshot_timestamp("screenshot-.png"), 0);
    assert_eq!(screenshot_timestamp("screenshot-1x2.png"), 0);
    assert_eq!(screenshot_timestamp("screenshot-42.png"), 42);
}

#[test]
fn only_the_newest_screenshots_are_kept() {
    let few: Vec<u64> = (0..MAX_SCREENSHOTS as u64).collect();
    assert!(screenshots_to_prune(&few).is_empty());
    // 22 files: the two oldest times go, wherever they stand in the listing.
    let mut ts: Vec<u64> = (100..122).collect();
    ts.swap(0, 21);
    let pruned = screenshots_to_prune(&ts);
    assert_eq!(pruned, vec![1, 21]);
}

#[test]
fn equal_times_are_pruned_in_listing_order() {
    let ts: Vec<u64> = vec![5; MAX_SCREENSHOTS + 3];
    assert_eq!(screenshots_to_prune(&ts), vec![0, 1, 2]);
}

#[test]
fn a_screenshot_is_deleted_only_once_every_peer_took_it() {
    assert!(!delete_after_push(&[]));
    assert!(delete_after_push(&[true, true]));
    assert!(!delete_after_push(&[true, false]));
}
