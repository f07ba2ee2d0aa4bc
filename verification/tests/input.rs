use bridgething::input::{
    browser_nav, hub_switch, is_gpio_keys, BrowserNav, GestureState, HubSwitch, InputAction, InputEvent, Key,
    LauncherGesture,
};

fn key(key: Key, value: i32) -> InputEvent {
    InputEvent::Key { key, value }
}

#[test]
fn a_held_knob_summons_the_launcher_once_the_hold_runs_out() {
    let mut g = GestureState::new();
    let hold = LauncherGesture::LongPress;
    assert_eq!(g.on_event(hold, key(Key::Knob, 1)), InputAction::ArmHolds { launcher: true, summon: false });
    assert_eq!(g.on_event(hold, InputEvent::HoldElapsed), InputAction::SummonLauncher);
    assert_eq!(g.on_event(hold, InputEvent::HoldElapsed), InputAction::Nothing);
    assert_eq!(g.on_event(hold, InputEvent::RotationHoldElapsed), InputAction::ResetRotation);
}

#[test]
fn a_short_knob_press_does_not_summon() {
    let mut g = GestureState::new();
    let hold = LauncherGesture::LongPress;
    let _ = g.on_event(hold, key(Key::Knob, 1));
    assert_eq!(g.on_event(hold, key(Key::Knob, 0)), InputAction::Nothing);
    assert_eq!(g.on_event(hold, InputEvent::HoldElapsed), InputAction::Nothing);
    assert_eq!(g.on_event(hold, InputEvent::RotationHoldElapsed), InputAction::Nothing);
}

#[test]
fn a_press_gesture_summons_at_once() {
    let mut g = GestureState::new();
    assert_eq!(
        g.on_event(LauncherGesture::FivePress, key(Key::Knob, 1)),
        InputAction::ArmHolds { launcher: false, summon: true }
    );
    assert_eq!(g.on_event(LauncherGesture::FivePress, InputEvent::HoldElapsed), InputAction::Nothing);
    assert_eq!(
        g.on_event(LauncherGesture::FivePress, InputEvent::RotationHoldElapsed),
        InputAction::ResetRotation,
        "the rotation escape hatch works under the press gesture too"
    );
}

#[test]
fn the_screenshot_chord_fires_once_per_chord() {
    let mut g = GestureState::new();
    let hold = LauncherGesture::LongPress;
    assert_eq!(g.on_event(hold, key(Key::Two, 1)), InputAction::Nothing);
    assert_eq!(g.on_event(hold, key(Key::Three, 1)), InputAction::Screenshot);
    assert_eq!(g.on_event(hold, key(Key::Three, 1)), InputAction::Nothing);
    assert_eq!(g.on_event(hold, key(Key::Three, 0)), InputAction::Nothing);
    assert_eq!(g.on_event(hold, key(Key::Three, 1)), InputAction::Screenshot);
}

#[test]
fn navigation_keys_act_only_on_the_browser_off_its_own_page() {
    let hold = LauncherGesture::LongPress;
    let mut g = GestureState::new();
    assert_eq!(g.on_event(hold, key(Key::Escape, 1)), InputAction::Navigate(Key::Escape));
    assert_eq!(g.on_event(hold, key(Key::Escape, 0)), InputAction::Nothing);
    assert_eq!(g.on_event(hold, key(Key::Other, 1)), InputAction::Nothing);
    assert_eq!(browser_nav(true, Some(7), 7, Key::Escape), Some(BrowserNav::Home));
    assert_eq!(browser_nav(true, Some(7), 7, Key::One), Some(BrowserNav::Back));
    assert_eq!(browser_nav(true, Some(7), 7, Key::Four), Some(BrowserNav::Forward));
    assert_eq!(browser_nav(true, Some(7), 7, Key::Other), None);
    assert_eq!(browser_nav(false, Some(7), 7, Key::Escape), None);
    assert_eq!(browser_nav(true, Some(8), 7, Key::Escape), None);
}

#[test]
fn the_hub_key_shows_or_resets_the_launcher() {
    assert_eq!(hub_switch(None, Some(1), true), HubSwitch::NoLauncher);
    assert_eq!(hub_switch(Some(1), Some(1), true), HubSwitch::ResetView);
    assert_eq!(hub_switch(Some(1), Some(2), false), HubSwitch::NotInstalled);
    assert_eq!(hub_switch(Some(1), Some(2), true), HubSwitch::Show(1));
}

#[test]
fn the_gpio_keys_device_is_found_by_name() {
    assert!(is_gpio_keys("gpio-keys"));
    assert!(is_gpio_keys("soc:gpio-keys@0"));
    assert!(!is_gpio_keys("gpio keys"));
    assert!(!is_gpio_keys(""));
}
