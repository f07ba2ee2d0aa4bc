use bridgething::als::{ease_toward, fixed_target, parse_uint, AlsCore, PollAnnounce, DEFAULT_MEDIAN_WINDOW};
use bridgething::gateway_msgs::{BrightnessMode, HardwareError};

#[test]
fn a_backlight_write_that_never_landed_is_reported_rather_than_announced() {
    let mut core = AlsCore::new(DEFAULT_MEDIAN_WINDOW, 0, 0, None);
    let ticks = core.mode_change_ticks(BrightnessMode::Manual, 128, None);
    assert_eq!(ticks, Some(128));
    let ok = core.commit_mode(BrightnessMode::Manual, 128, false);
    assert!(!ok, "a mode switch whose backlight write failed cannot report success");
    assert_eq!(core.mode, BrightnessMode::Auto, "the daemon entered a mode the panel never took");
}

#[test]
fn a_failed_backlight_write_leaves_the_prior_brightness_in_place() {
    let mut core = AlsCore::new(DEFAULT_MEDIAN_WINDOW, 255, 128, None);
    assert!(core.commit_mode(BrightnessMode::Manual, 128, true), "a writable backlight takes the mode switch");
    assert_eq!(core.commit_level(Some(200), false), Some(Ok(())), "a writable backlight takes the level");
    assert_eq!(core.current_ticks, 200);
    let failed = core.commit_level(Some(50), true);
    assert!(failed.is_none(), "a level change whose backlight write failed cannot report success");
    assert_eq!(core.current_ticks, 200, "the daemon reports a brightness the panel never took");
    assert_eq!(core.ambient_level(), 78);
}

#[test]
fn a_level_outside_manual_mode_is_a_mode_mismatch() {
    let mut core = AlsCore::new(5, 255, 10, Some(BrightnessMode::Auto));
    assert!(!core.level_writes());
    assert_eq!(core.commit_level(None, false), Some(Err(HardwareError::ModeMismatch)));
    assert_eq!(core.current_ticks, 10);
}

#[test]
fn switching_to_auto_uses_the_median_target_or_stays_put() {
    let core = AlsCore::new(5, 255, 40, Some(BrightnessMode::Manual));
    assert_eq!(core.mode_change_ticks(BrightnessMode::Manual, 9, None), None);
    assert_eq!(core.mode_change_ticks(BrightnessMode::Auto, 9, Some(77)), Some(77));
    assert_eq!(core.mode_change_ticks(BrightnessMode::Auto, 9, None), Some(40));
}

#[test]
fn the_median_waits_for_a_full_window_and_slides() {
    let mut core = AlsCore::new(3, 255, 0, None);
    core.push_sample(9);
    core.push_sample(1);
    assert_eq!(core.median(), None);
    core.push_sample(5);
    assert_eq!(core.median(), Some(5));
    core.push_sample(7);
    assert_eq!(core.samples, vec![1, 5, 7]);
    assert_eq!(core.median(), Some(5));
    let mut even = AlsCore::new(4, 255, 0, None);
    for s in [4, 1, 3, 2] {
        even.push_sample(s);
    }
    assert_eq!(even.median(), Some(3));
}

#[test]
fn a_found_backlight_is_capped_and_a_manual_level_restored() {
    let mut core = AlsCore::new(3, 0, 0, Some(BrightnessMode::Manual));
    assert!(core.adopt_backlight(255, 300));
    assert_eq!(core.current_ticks, 255);
    core.commit_restore(107, false);
    assert_eq!(core.current_ticks, 255);
    core.commit_restore(107, true);
    assert_eq!(core.current_ticks, 107);
    let mut auto = AlsCore::new(3, 0, 0, None);
    assert!(!auto.adopt_backlight(100, 20));
}

#[test]
fn a_poll_announces_only_what_landed() {
    let mut core = AlsCore::new(3, 200, 100, None);
    assert_eq!(core.commit_poll(20, false, 50), PollAnnounce { ambient: None, brightness: false });
    assert_eq!(core.current_ticks, 100);
    assert_eq!(core.commit_poll(100, true, 50), PollAnnounce { ambient: None, brightness: true });
    assert_eq!(core.commit_poll(20, true, 50), PollAnnounce { ambient: Some(10), brightness: true });
}

#[test]
fn sysfs_numbers_are_read_leniently() {
    assert_eq!(parse_uint(b"255\n"), 255);
    assert_eq!(parse_uint(b"  +42  "), 42);
    assert_eq!(parse_uint(b"abc"), 0);
    assert_eq!(parse_uint(b"4294967296"), 0);
    assert_eq!(parse_uint(&[0xff, 0x31]), 0);
    assert_eq!(parse_uint(b""), 0);
}

#[test]
fn easing_moves_toward_the_target_without_overshoot() {
    assert_eq!(ease_toward(10, 20, 3), 13);
    assert_eq!(ease_toward(10, 20, 30), 20);
    assert_eq!(ease_toward(10, 20, 0), 11);
    assert_eq!(ease_toward(20, 10, 4), 16);
    assert_eq!(ease_toward(7, 7, 5), 7);
}

#[test]
fn darkness_and_a_missing_backlight_have_fixed_targets() {
    assert_eq!(fixed_target(100, 0, 16, 3), Some(0));
    assert_eq!(fixed_target(2, 255, 16, 3), Some(16));
    assert_eq!(fixed_target(2, 10, 16, 3), Some(10));
    assert_eq!(fixed_target(4, 255, 16, 3), None);
}

#[test]
fn a_poll_eases_only_in_automatic_mode_with_a_full_window() {
    let mut core = AlsCore::new(2, 255, 100, None);
    core.push_sample(5);
    assert_eq!(core.poll_write(200, 10), None, "no median yet");
    core.push_sample(6);
    assert_eq!(core.poll_write(200, 10), Some(110));
    assert_eq!(core.poll_write(100, 10), None, "already at the target");
    assert_eq!(core.poll_write(0, 500), Some(0), "never past the target");
    let mut manual = AlsCore::new(2, 255, 100, Some(BrightnessMode::Manual));
    manual.push_sample(5);
    manual.push_sample(6);
    assert_eq!(manual.poll_write(200, 10), None, "no eased write in manual mode");
}

#[test]
fn only_a_manual_level_is_restored_at_start() {
    assert_eq!(AlsCore::new(3, 255, 0, Some(BrightnessMode::Manual)).start_restore(107), Some(107));
    assert_eq!(AlsCore::new(3, 0, 0, Some(BrightnessMode::Manual)).start_restore(107), None);
    assert_eq!(AlsCore::new(3, 255, 0, None).start_restore(107), None);
}

#[test]
fn a_written_backlight_value_reads_back() {
    for n in [0u32, 7, 128, 255, u32::MAX] {
        assert_eq!(parse_uint(format!("{n}\n").as_bytes()), n);
    }
    assert_eq!(parse_uint(b"-1"), 0);
}
