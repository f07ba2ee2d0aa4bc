use bridgething::rotation::{
    is_valid_rotation, replace_text, restored_rotation, rotation_script, RotationError, RotationManager,
    VALID_ROTATIONS,
};

const TEMPLATE: &str = "(function () {\n  var DEGREES = {DEGREES};\n  var WS = \"{WS_URL}\";\n})();\n";

#[test]
fn set_rotation_rejects_invalid_values() {
    let mut mgr = RotationManager::new(None);
    assert!(mgr.set_rotation(45).is_err());
    assert!(mgr.set_rotation(90).is_ok());
    assert_eq!(mgr.rotation(), 90);
    // A manager opened on the persisted value holds it again.
    let mgr2 = RotationManager::new(Some(mgr.rotation()));
    assert_eq!(mgr2.rotation(), 90);
}

#[test]
fn invalid_rotation_values_fall_back_to_zero() {
    assert_eq!(restored_rotation(Some(45)), 0);
    assert_eq!(restored_rotation(None), 0);
    assert_eq!(restored_rotation(Some(270)), 270);
    assert_eq!(RotationManager::new(Some(45)).rotation(), 0);
}

#[test]
fn script_bakes_in_degrees_and_ws_url() {
    let script = rotation_script(TEMPLATE, 90, "ws://127.0.0.1:8891/");
    assert!(script.contains("var DEGREES = 90;"));
    assert!(script.contains("ws://127.0.0.1:8891/"));
    assert!(!script.contains("{DEGREES}"));
    assert!(!script.contains("{WS_URL}"));
}

#[test]
fn only_quarter_turns_are_rotations() {
    for d in VALID_ROTATIONS {
        assert!(is_valid_rotation(d));
    }
    assert!(!is_valid_rotation(45));
    assert!(!is_valid_rotation(360));
    let mut mgr = RotationManager::new(Some(180));
    assert!(matches!(mgr.set_rotation(1), Err(RotationError::InvalidRotation)));
    assert_eq!(mgr.rotation(), 180);
    assert_eq!(RotationError::InvalidRotation.message(), "rotation must be one of 0, 90, 180, 270 degrees");
}

#[test]
fn replace_text_replaces_every_occurrence_left_to_right() {
    assert_eq!(replace_text("a-b-c", "-", "+"), "a+b+c");
    assert_eq!(replace_text("aaa", "aa", "b"), "ba");
    assert_eq!(replace_text("xyz", "q", "r"), "xyz");
    assert_eq!(replace_text("", "q", "r"), "");
}

#[test]
fn every_reachable_rotation_is_a_quarter_turn() {
    let mut mgr = RotationManager::new(Some(33));
    for d in [90u16, 45, 270, 1000, 0, 180, 7] {
        let _ = mgr.set_rotation(d);
        assert!(VALID_ROTATIONS.contains(&mgr.rotation()));
    }
}
