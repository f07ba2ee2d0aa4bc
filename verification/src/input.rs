//! The device's physical keys: the knob gestures that bring up the launcher
//! or reset the rotation, the chord that takes a screenshot, and the keys that
//! step through an external page's history.

use vstd::prelude::*;

verus! {

/// How long the knob is held for the launcher gesture, in milliseconds.
pub const LONG_PRESS_THRESHOLD_MS: u64 = 800;

/// How long the knob is held to reset the rotation, in milliseconds.
pub const ROTATION_RESET_HOLD_MS: u64 = 3000;

/// The keys the daemon acts on.
#[derive(Clone, Copy, Debug, PartialEq, Eq, Structural)]
pub enum Key {
    /// The knob (`KEY_M`).
    Knob,
    /// `KEY_2`, one half of the screenshot chord.
    Two,
    /// `KEY_3`, the other half.
    Three,
    /// `KEY_ESC`: back to the app.
    Escape,
    /// `KEY_1`: history back.
    One,
    /// `KEY_4`: history forward.
    Four,
    /// Any other key.
    Other,
}

/// How the launcher is summoned.
#[derive(Clone, Copy, Debug, PartialEq, Eq, Structural)]
pub enum LauncherGesture {
    /// Hold the knob.
    LongPress,
    /// Press the knob (the firmware counts the presses).
    FivePress,
}

/// What the gesture watcher reacts to.
#[derive(Clone, Copy, Debug, PartialEq, Eq, Structural)]
pub enum InputEvent {
    /// A key event: 1 is a press, 0 a release, 2 an auto-repeat.
    Key { key: Key, value: i32 },
    /// The launcher hold time ran out.
    HoldElapsed,
    /// The rotation reset hold time ran out.
    RotationHoldElapsed,
}

/// What the daemon does next.
#[derive(Clone, Copy, Debug, PartialEq, Eq, Structural)]
pub enum InputAction {
    Nothing,
    /// A knob press: start the rotation reset timer (always), start the
    /// launcher hold timer when `launcher`, and bring up the launcher at once
    /// when `summon`.
    ArmHolds { launcher: bool, summon: bool },
    /// Bring up the launcher.
    SummonLauncher,
    /// Put the display back to landscape.
    ResetRotation,
    /// Take a screenshot.
    Screenshot,
    /// A navigation key, to be checked against the browser state.
    Navigate(Key),
}

/// The gesture watcher's state.
#[derive(Clone, Copy, Debug, PartialEq, Eq, Structural)]
pub struct GestureState {
    /// The launcher hold timer runs.
    pub held: bool,
    /// The rotation reset timer runs.
    pub rotation_held: bool,
    /// `KEY_2` is down.
    pub key2_down: bool,
    /// `KEY_3` is down.
    pub key3_down: bool,
    /// The screenshot chord fired and neither key went up since.
    pub screenshot_fired: bool,
}

/// One step of the gesture watcher, with the launcher gesture in force.
pub open spec fn gesture_step(s: GestureState, gesture: LauncherGesture, e: InputEvent) -> (GestureState, InputAction) {
    match e {
        InputEvent::HoldElapsed => if !s.held {
            (s, InputAction::Nothing)
        } else if gesture != LauncherGesture::LongPress {
            (GestureState { held: false, ..s }, InputAction::Nothing)
        } else {
            (GestureState { held: false, ..s }, InputAction::SummonLauncher)
        },
        InputEvent::RotationHoldElapsed => if !s.rotation_held {
            (s, InputAction::Nothing)
        } else {
            (GestureState { rotation_held: false, ..s }, InputAction::ResetRotation)
        },
        InputEvent::Key { key, value } => if key == Key::Knob {
            if value == 1 {
                if gesture == LauncherGesture::LongPress {
                    (
                        GestureState { rotation_held: true, held: true, ..s },
                        InputAction::ArmHolds { launcher: true, summon: false },
                    )
                } else {
                    (GestureState { rotation_held: true, ..s }, InputAction::ArmHolds { launcher: false, summon: true })
                }
            } else if value == 0 {
                (GestureState { held: false, rotation_held: false, ..s }, InputAction::Nothing)
            } else {
                (s, InputAction::Nothing)
            }
        } else if key == Key::Two || key == Key::Three {
            let down = value == 1;
            let t = if key == Key::Two {
                GestureState { key2_down: down, ..s }
            } else {
                GestureState { key3_down: down, ..s }
            };
            if !down {
                (GestureState { screenshot_fired: false, ..t }, InputAction::Nothing)
            } else if t.key2_down && t.key3_down && !t.screenshot_fired {
                (GestureState { screenshot_fired: true, ..t }, InputAction::Screenshot)
            } else {
                (t, InputAction::Nothing)
            }
        } else if value != 1 {
            (s, InputAction::Nothing)
        } else if key == Key::Escape || key == Key::One || key == Key::Four {
            (s, InputAction::Navigate(key))
        } else {
            (s, InputAction::Nothing)
        },
    }
}

impl GestureState {
    /// No key down, no timer running.
    pub fn new() -> (g: GestureState)
        ensures
            g == (GestureState {
                held: false,
                rotation_held: false,
                key2_down: false,
                key3_down: false,
                screenshot_fired: false,
            }),
    {
        GestureState {
            held: false,
            rotation_held: false,
            key2_down: false,
            key3_down: false,
            screenshot_fired: false,
        }
    }

    /// Reacts to one event. A knob press arms the rotation reset and, for
    /// the hold gesture, the launcher hold (a press gesture summons the
    /// launcher at once); a release disarms both. The screenshot chord fires
    /// once while both keys are down. Escape, 1 and 4 are navigation keys.
    pub fn on_event(&mut self, gesture: LauncherGesture, e: InputEvent) -> (a: InputAction)
        ensures
            (*final(self), a) == gesture_step(*old(self), gesture, e),
            e == (InputEvent::Key { key: Key::Knob, value: 1 }) ==> (a matches InputAction::ArmHolds {
                launcher,
                summon,
            } && launcher == (gesture == LauncherGesture::LongPress) && summon == (gesture
                == LauncherGesture::FivePress) && final(self).rotation_held),
            e matches InputEvent::Key { key, value } ==> (value == 1 && (key == Key::Escape || key == Key::One
                || key == Key::Four) ==> a == InputAction::Navigate(key) && *final(self) == *old(self)),
    {
        match e {
            InputEvent::HoldElapsed => {
                if !self.held {
                    return InputAction::Nothing;
                }
                self.held = false;
                if gesture != LauncherGesture::LongPress {
                    InputAction::Nothing
                } else {
                    InputAction::SummonLauncher
                }
            },
            InputEvent::RotationHoldElapsed => {
                if !self.rotation_held {
                    return InputAction::Nothing;
                }
                self.rotation_held = false;
                InputAction::ResetRotation
            },
            InputEvent::Key { key, value } => {
                if key == Key::Knob {
                    if value == 1 {
                        self.rotation_held = true;
                        if gesture == LauncherGesture::LongPress {
                            self.held = true;
                            InputAction::ArmHolds { launcher: true, summon: false }
                        } else {
                            InputAction::ArmHolds { launcher: false, summon: true }
                        }
                    } else if value == 0 {
                        self.held = false;
                        self.rotation_held = false;
                        InputAction::Nothing
                    } else {
                        InputAction::Nothing
                    }
                } else if key == Key::Two || key == Key::Three {
                    let down = value == 1;
                    if key == Key::Two {
                        self.key2_down = down;
                    } else {
                        self.key3_down = down;
                    }
                    if !down {
                        self.screenshot_fired = false;
                        InputAction::Nothing
                    } else if self.key2_down && self.key3_down && !self.screenshot_fired {
                        self.screenshot_fired = true;
                        InputAction::Screenshot
                    } else {
                        InputAction::Nothing
                    }
                } else if value != 1 {
                    InputAction::Nothing
                } else if key == Key::Escape || key == Key::One || key == Key::Four {
                    InputAction::Navigate(key)
                } else {
                    InputAction::Nothing
                }
            },
        }
    }
}

/// The screenshot chord fires once per chord: once it fired, pressing either
/// key again while the chord is held takes no second screenshot; only after a
/// key goes up can it fire again.
pub proof fn law_screenshot_fires_once_per_chord(s: GestureState, gesture: LauncherGesture, key: Key)
    requires
        s.screenshot_fired,
        key == Key::Two || key == Key::Three,
    ensures
        gesture_step(s, gesture, InputEvent::Key { key, value: 1 }).1 != InputAction::Screenshot,
        gesture_step(s, gesture, InputEvent::Key { key, value: 0 }).0.screenshot_fired == false,
{
}

/// Pressing the two chord keys one after the other from rest takes exactly
/// one screenshot, on the second press.
pub proof fn law_chord_takes_a_screenshot(gesture: LauncherGesture)
    ensures
        ({
            let rest = GestureState {
                held: false,
                rotation_held: false,
                key2_down: false,
                key3_down: false,
                screenshot_fired: false,
            };
            let (after_two, first) = gesture_step(rest, gesture, InputEvent::Key { key: Key::Two, value: 1 });
            let (_, second) = gesture_step(after_two, gesture, InputEvent::Key { key: Key::Three, value: 1 });
            first == InputAction::Nothing && second == InputAction::Screenshot
        }),
{
}

/// The rotation reset is armed on every knob press, whichever gesture
/// summons the launcher: the press starts the rotation timer, and when it
/// runs out with the knob still down the display goes back to landscape.
pub proof fn law_every_knob_press_arms_the_rotation_reset(s: GestureState, gesture: LauncherGesture)
    ensures
        ({
            let (pressed, a) = gesture_step(s, gesture, InputEvent::Key { key: Key::Knob, value: 1 });
            &&& a matches InputAction::ArmHolds { .. }
            &&& gesture_step(pressed, gesture, InputEvent::RotationHoldElapsed).1 == InputAction::ResetRotation
        }),
{
}

/// A press of Escape, 1 or 4 is a navigation key whatever else is going on:
/// it asks for that same key's navigation and leaves the watcher as it was.
pub proof fn law_navigation_keys_navigate(s: GestureState, gesture: LauncherGesture, key: Key)
    requires
        key == Key::Escape || key == Key::One || key == Key::Four,
    ensures
        gesture_step(s, gesture, InputEvent::Key { key, value: 1 }) == (s, InputAction::Navigate(key)),
{
}

/// A knob released before its hold time never summons the launcher: after a
/// press and a release, the hold timer's end does nothing.
pub proof fn law_short_knob_press_does_not_summon(s: GestureState)
    ensures
        ({
            let (pressed, _) = gesture_step(s, LauncherGesture::LongPress, InputEvent::Key { key: Key::Knob, value: 1 });
            let (released, _) = gesture_step(pressed, LauncherGesture::LongPress, InputEvent::Key { key: Key::Knob, value: 0 });
            &&& gesture_step(released, LauncherGesture::LongPress, InputEvent::HoldElapsed).1 == InputAction::Nothing
            &&& gesture_step(released, LauncherGesture::LongPress, InputEvent::RotationHoldElapsed).1
                == InputAction::Nothing
        }),
{
}

/// What a navigation key does to the browser.
#[derive(Clone, Copy, Debug, PartialEq, Eq, Structural)]
pub enum BrowserNav {
    /// Back to the app's own page.
    Home,
    Back,
    Forward,
}

/// What a navigation key does: only while the browser webapp is shown on an
/// external page; Escape goes home, 1 back, 4 forward.
pub fn browser_nav(external: bool, active: Option<u128>, browser_id: u128, key: Key) -> (n: Option<BrowserNav>)
    ensures
        !external || active != Some(browser_id) ==> n is None,
        external && active == Some(browser_id) ==> n == if key == Key::Escape {
            Some(BrowserNav::Home)
        } else if key == Key::One {
            Some(BrowserNav::Back)
        } else if key == Key::Four {
            Some(BrowserNav::Forward)
        } else {
            None
        },
{
    if !external || active != Some(browser_id) {
        return None;
    }
    if key == Key::Escape {
        Some(BrowserNav::Home)
    } else if key == Key::One {
        Some(BrowserNav::Back)
    } else if key == Key::Four {
        Some(BrowserNav::Forward)
    } else {
        None
    }
}

/// What summoning the launcher comes to.
#[derive(Clone, Copy, Debug, PartialEq, Eq, Structural)]
pub enum HubSwitch {
    /// No launcher is set.
    NoLauncher,
    /// The launcher is shown: it is reloaded to its home view.
    ResetView,
    /// The launcher is not installed.
    NotInstalled,
    /// The launcher is to be shown.
    Show(u128),
}

/// What summoning the launcher comes to, given the launcher, the shown
/// webapp, and whether the registry knows the launcher.
pub fn hub_switch(launcher: Option<u128>, active: Option<u128>, known: bool) -> (h: HubSwitch)
    ensures
        h == match launcher {
            None => HubSwitch::NoLauncher,
            Some(id) => if active == Some(id) {
                HubSwitch::ResetView
            } else if !known {
                HubSwitch::NotInstalled
            } else {
                HubSwitch::Show(id)
            },
        },
{
    match launcher {
        None => HubSwitch::NoLauncher,
        Some(id) => {
            if active == Some(id) {
                HubSwitch::ResetView
            } else if !known {
                HubSwitch::NotInstalled
            } else {
                HubSwitch::Show(id)
            }
        },
    }
}

/// Whether an input device is the one with the device's keys: its name
/// mentions `gpio-keys`.
pub fn is_gpio_keys(device_name: &str) -> (r: bool)
    ensures
        r == crate::webapps::contains_seq(device_name@, "gpio-keys"@),
{
    let hay = crate::text::chars_of(device_name);
    let needle = crate::text::chars_of("gpio-keys");
    crate::webapps::contains_chars(&hay, &needle)
}

} // verus!
