//! The backlight policy: the ambient light samples and their median, how a
//! mode or level change and a light reading move the backlight, and what the
//! daemon tells clients afterwards. A backlight write that did not land never
//! changes what the daemon reports.

use vstd::prelude::*;
use vstd::string::*;
use vstd::utf8::*;

use crate::gateway_msgs::{BrightnessMode, HardwareError};
use crate::text::{
    chars_of, decimal, lemma_decimal_digits, lemma_trim_decimal_line, parse_unsigned, parse_unsigned_chars, trim_chars,
    trim_white_space,
};

verus! {

broadcast use vstd::seq_lib::to_multiset_insert, vstd::seq_lib::to_multiset_build;

/// What the backlight policy can fail with.
#[derive(Clone, Debug, PartialEq, Eq)]
pub enum AlsError {
    /// The backlight directory has no `max_brightness`.
    BacklightAbsent { dir: String },
    /// Reading or writing sysfs failed.
    Io { message: String },
    /// The policy loop is gone.
    Closed,
}

/// How many light samples the median is taken over, by default.
pub const DEFAULT_MEDIAN_WINDOW: usize = 11;

/// The dimmest the automatic backlight goes, in ticks, by default.
pub const DEFAULT_MIN_BRIGHTNESS: u32 = 16;

/// Raw light readings at or below this are darkness, by default.
pub const DEFAULT_DIM_KNEE: u32 = 3;

/// The light sensor's gain, by default.
pub const DEFAULT_GAIN: u32 = 16;

/// `std::str::from_utf8`: the text the bytes spell when they are valid UTF-8.
#[verifier::external_body]
fn utf8_text(bytes: &[u8]) -> (r: Option<&str>)
    ensures
        r is Some == valid_utf8(bytes@),
        r matches Some(s) ==> s@ == decode_utf8(bytes@),
{
    std::str::from_utf8(bytes).ok()
}

/// The number a sysfs attribute holds: its text without surrounding white
/// space, read as a 32-bit unsigned decimal; text that is not UTF-8 reads as
/// `0`, and so does anything that is not such a number.
pub open spec fn sysfs_uint(bytes: Seq<u8>) -> u32 {
    let text = if valid_utf8(bytes) {
        decode_utf8(bytes)
    } else {
        seq!['0']
    };
    match parse_unsigned(trim_white_space(text), 0xffff_ffff) {
        Some(v) => v as u32,
        None => 0,
    }
}

/// Reads a number out of a sysfs attribute's bytes.
pub fn parse_uint(bytes: &[u8]) -> (v: u32)
    ensures
        v == sysfs_uint(bytes@),
{
    let chars = match utf8_text(bytes) {
        Some(s) => chars_of(s),
        None => {
            let mut z: Vec<char> = Vec::new();
            z.push('0');
            assert(z@ =~= seq!['0']);
            z
        },
    };
    let trimmed = trim_chars(&chars);
    match parse_unsigned_chars(&trimmed, 0xffff_ffff) {
        Some(v) => v as u32,
        None => 0,
    }
}

/// What the daemon writes to a backlight attribute, a value as a decimal line,
/// reads back as that value.
pub proof fn law_parse_uint_reads_back_decimal(n: u32)
    ensures
        sysfs_uint(encode_utf8(decimal(n as nat) + seq!['\n'])) == n,
{
    broadcast use encode_utf8_valid_utf8, encode_utf8_decode_utf8;

    let d = decimal(n as nat);
    lemma_trim_decimal_line(n as nat);
    lemma_decimal_digits(n as nat);
    assert(d[0] != '+') by {
        assert(crate::text::is_ascii_digit(d[0]));
    }
    assert(trim_white_space(decode_utf8(encode_utf8(d + seq!['\n']))) == d);
}

/// `s` in ascending order.
pub open spec fn ascending(s: Seq<u32>) -> bool {
    forall|i: int, j: int| 0 <= i <= j < s.len() ==> s[i] <= s[j]
}

/// The middle element of the samples in ascending order (the upper middle
/// for an even count).
pub open spec fn is_median(samples: Seq<u32>, m: u32) -> bool {
    exists|s: Seq<u32>|
        #![trigger s.to_multiset()]
        ascending(s) && s.to_multiset() == samples.to_multiset() && s.len() == samples.len() && s[(
        samples.len() / 2) as int] == m
}

/// The backlight policy's state.
pub struct AlsCore {
    /// How the backlight is set.
    pub mode: BrightnessMode,
    /// What the backlight was last set to.
    pub current_ticks: u32,
    /// The backlight's maximum; 0 while it has not been found.
    pub max_brightness: u32,
    /// The latest light samples, oldest first.
    pub samples: Vec<u32>,
    /// How many samples the median is taken over.
    pub window: usize,
}

/// What a light reading leads to being announced.
#[derive(Clone, Copy, Debug, PartialEq, Eq, Structural)]
pub struct PollAnnounce {
    /// The new ambient level, when it changed.
    pub ambient: Option<u8>,
    /// Whether the brightness changed.
    pub brightness: bool,
}

/// The ambient level, 0 to 100: the backlight's share of its maximum.
pub open spec fn ambient_of(current: u32, max: u32) -> u8 {
    if max == 0 {
        0
    } else if (current * 100) / (max as int) > 100 {
        100
    } else {
        ((current * 100) / (max as int)) as u8
    }
}

impl AlsCore {
    /// The policy at start: the saved mode (automatic when none was saved),
    /// the backlight's maximum and current setting, and no samples.
    pub fn new(window: usize, max_brightness: u32, current_ticks: u32, saved_mode: Option<BrightnessMode>) -> (a:
        AlsCore)
        ensures
            a.mode == match saved_mode {
                Some(m) => m,
                None => BrightnessMode::Auto,
            },
            a.current_ticks == current_ticks,
            a.max_brightness == max_brightness,
            a.samples@.len() == 0,
            a.window == window,
    {
        let mode = match saved_mode {
            Some(m) => m,
            None => BrightnessMode::Auto,
        };
        AlsCore { mode, current_ticks, max_brightness, samples: Vec::new(), window }
    }

    /// The ambient level the daemon reports.
    pub fn ambient_level(&self) -> (l: u8)
        requires
            self.current_ticks * 100 <= u32::MAX,
        ensures
            l == ambient_of(self.current_ticks, self.max_brightness),
    {
        if self.max_brightness == 0 {
            return 0;
        }
        let pct = (self.current_ticks * 100) / self.max_brightness;
        if pct > 100 {
            100
        } else {
            pct as u8
        }
    }

    /// Takes a light sample; the oldest goes once the window is full.
    pub fn push_sample(&mut self, raw: u32)
        ensures
            final(self).samples@ == if old(self).samples@.len() == old(self).window && old(self).window > 0 {
                old(self).samples@.drop_first().push(raw)
            } else {
                old(self).samples@.push(raw)
            },
            final(self).mode == old(self).mode,
            final(self).current_ticks == old(self).current_ticks,
            final(self).max_brightness == old(self).max_brightness,
            final(self).window == old(self).window,
    {
        if self.samples.len() == self.window && self.window > 0 {
            self.samples.remove(0);
        }
        self.samples.push(raw);
        proof {
            if old(self).samples@.len() == old(self).window && old(self).window > 0 {
                assert(old(self).samples@.remove(0) =~= old(self).samples@.drop_first());
            }
        }
    }

    /// The median light sample, once the window is full.
    pub fn median(&self) -> (m: Option<u32>)
        requires
            self.samples@.len() > 0 || self.window > 0,
        ensures
            self.samples@.len() < self.window ==> m is None,
            self.samples@.len() >= self.window ==> (m matches Some(v) && is_median(self.samples@, v)),
    {
        if self.samples.len() < self.window {
            return None;
        }
        let mut sorted: Vec<u32> = Vec::new();
        let mut k: usize = 0;
        assert(self.samples@.subrange(0, 0) =~= Seq::<u32>::empty());
        assert(sorted@ =~= Seq::<u32>::empty());

        while k < self.samples.len()
            invariant
                0 <= k <= self.samples@.len(),
                ascending(sorted@),
                sorted@.to_multiset() == self.samples@.subrange(0, k as int).to_multiset(),
                sorted@.len() == k,
            decreases self.samples@.len() - k,
        {
            let x = self.samples[k];
            let mut p: usize = 0;
            while p < sorted.len() && sorted[p] <= x
                invariant
                    0 <= p <= sorted@.len(),
                    forall|i: int| 0 <= i < p ==> sorted@[i] <= x,
                decreases sorted@.len() - p,
            {
                p = p + 1;
            }
            let ghost before = sorted@;
            sorted.insert(p, x);
            proof {
                before.insert_ensures(p as int, x);
                assert(self.samples@.subrange(0, k + 1) =~= self.samples@.subrange(0, k as int).push(x));
                assert forall|i: int, j: int| 0 <= i <= j < sorted@.len() implies sorted@[i] <= sorted@[j] by {
                    if i < p && j < p {
                    } else if i < p && j == p {
                    } else if i < p {
                        assert(sorted@[j] == before[j - 1]);
                    } else if i == p && j == p {
                    } else if i == p {
                        assert(sorted@[j] == before[j - 1]);
                        assert(before[p as int] > x);
                    } else {
                        assert(sorted@[i] == before[i - 1]);
                        assert(sorted@[j] == before[j - 1]);
                    }
                }
            }
            k = k + 1;
        }
        assert(self.samples@.subrange(0, self.samples@.len() as int) =~= self.samples@);
        let mid = sorted.len() / 2;
        let v = sorted[mid];
        assert(is_median(self.samples@, v)) by {
            assert(ascending(sorted@) && sorted@.to_multiset() == self.samples@.to_multiset()
                && sorted@.len() == self.samples@.len() && sorted@[(self.samples@.len() / 2) as int] == v);
        }
        Some(v)
    }

    /// The backlight setting a mode change calls for: none when the mode is
    /// already set; the manual level's ticks for manual; the target for the
    /// median light sample for automatic, or the current setting when there
    /// is no median yet.
    pub fn mode_change_ticks(&self, mode: BrightnessMode, manual_ticks: u32, auto_target: Option<u32>) -> (t:
        Option<u32>)
        ensures
            t == if mode == self.mode {
                None
            } else if mode == BrightnessMode::Manual {
                Some(manual_ticks)
            } else {
                Some(
                    match auto_target {
                        Some(v) => v,
                        None => self.current_ticks,
                    },
                )
            },
    {
        if mode == self.mode {
            return None;
        }
        if mode == BrightnessMode::Manual {
            Some(manual_ticks)
        } else {
            match auto_target {
                Some(v) => Some(v),
                None => Some(self.current_ticks),
            }
        }
    }

    /// Takes a mode change once its backlight write is done: the mode and
    /// setting change only when the write landed. Tells whether it did.
    pub fn commit_mode(&mut self, mode: BrightnessMode, ticks: u32, written: bool) -> (ok: bool)
        ensures
            ok == written,
            written ==> final(self).mode == mode && final(self).current_ticks == ticks,
            !written ==> final(self).mode == old(self).mode && final(self).current_ticks == old(self).current_ticks,
            final(self).samples@ == old(self).samples@,
            final(self).max_brightness == old(self).max_brightness,
            final(self).window == old(self).window,
    {
        if written {
            self.mode = mode;
            self.current_ticks = ticks;
        }
        written
    }

    /// Whether a level change writes the backlight: only in manual mode.
    pub fn level_writes(&self) -> (w: bool)
        ensures
            w == (self.mode == BrightnessMode::Manual),
    {
        self.mode == BrightnessMode::Manual
    }

    /// Takes a level change once its backlight write (if any) is done. A
    /// write that did not land changes nothing and gives `None`; otherwise the
    /// setting follows the write, and the answer is a mode mismatch unless the
    /// mode is manual.
    pub fn commit_level(&mut self, ticks: Option<u32>, write_failed: bool) -> (r: Option<
        Result<(), HardwareError>,
    >)
        requires
            write_failed ==> ticks is Some,
        ensures
            write_failed ==> r is None && final(self).current_ticks == old(self).current_ticks,
            !write_failed ==> r == Some(
                if old(self).mode == BrightnessMode::Manual {
                    Ok::<(), HardwareError>(())
                } else {
                    Err(HardwareError::ModeMismatch)
                },
            ) && final(self).current_ticks == match ticks {
                Some(t) => t,
                None => old(self).current_ticks,
            },
            final(self).mode == old(self).mode,
            final(self).samples@ == old(self).samples@,
            final(self).max_brightness == old(self).max_brightness,
            final(self).window == old(self).window,
    {
        if write_failed {
            return None;
        }
        if let Some(t) = ticks {
            self.current_ticks = t;
        }
        if self.mode == BrightnessMode::Manual {
            Some(Ok(()))
        } else {
            Some(Err(HardwareError::ModeMismatch))
        }
    }

    /// The backlight was found: its maximum and current setting (capped at
    /// the maximum) are taken; tells whether a manual level must be restored.
    pub fn adopt_backlight(&mut self, max: u32, actual: u32) -> (restore: bool)
        ensures
            final(self).max_brightness == max,
            final(self).current_ticks == if actual <= max {
                actual
            } else {
                max
            },
            restore == (old(self).mode == BrightnessMode::Manual),
            final(self).mode == old(self).mode,
            final(self).samples@ == old(self).samples@,
            final(self).window == old(self).window,
    {
        self.max_brightness = max;
        self.current_ticks = if actual <= max {
            actual
        } else {
            max
        };
        self.mode == BrightnessMode::Manual
    }

    /// The manual level to restore on the panel at start, in ticks: only in
    /// manual mode and once the backlight was found.
    pub fn start_restore(&self, manual_ticks: u32) -> (t: Option<u32>)
        ensures
            t == if self.mode == BrightnessMode::Manual && self.max_brightness > 0 {
                Some(manual_ticks)
            } else {
                None
            },
    {
        if self.mode == BrightnessMode::Manual && self.max_brightness > 0 {
            Some(manual_ticks)
        } else {
            None
        }
    }

    /// The backlight write a light reading calls for, given the target for
    /// the median sample and the easing step: only in automatic mode, only
    /// once the sample window is full (there is a median), and only when the
    /// eased setting differs from the current one.
    pub fn poll_write(&self, target: u32, step: u32) -> (w: Option<u32>)
        ensures
            w == if self.mode == BrightnessMode::Auto && self.samples@.len() >= self.window && ease_spec(
                self.current_ticks,
                target,
                step,
            ) != self.current_ticks {
                Some(ease_spec(self.current_ticks, target, step))
            } else {
                None
            },
    {
        if self.mode != BrightnessMode::Auto || self.samples.len() < self.window {
            return None;
        }
        let next = ease_toward(self.current_ticks, target, step);
        if next != self.current_ticks {
            Some(next)
        } else {
            None
        }
    }

    /// Takes a restored manual level once its write is done: the setting
    /// follows only a write that landed.
    pub fn commit_restore(&mut self, ticks: u32, written: bool)
        ensures
            final(self).current_ticks == if written {
                ticks
            } else {
                old(self).current_ticks
            },
            final(self).mode == old(self).mode,
            final(self).samples@ == old(self).samples@,
            final(self).max_brightness == old(self).max_brightness,
            final(self).window == old(self).window,
    {
        if written {
            self.current_ticks = ticks;
        }
    }

    /// Takes the backlight write a light reading led to: nothing changes or is
    /// announced when it did not land; otherwise the setting follows it, the
    /// brightness is announced, and the ambient level too when it moved from
    /// `prev_level`.
    pub fn commit_poll(&mut self, ticks: u32, written: bool, prev_level: u8) -> (a: PollAnnounce)
        requires
            ticks * 100 <= u32::MAX,
        ensures
            !written ==> a == (PollAnnounce { ambient: None, brightness: false }) && final(self).current_ticks
                == old(self).current_ticks,
            written ==> final(self).current_ticks == ticks && a == (PollAnnounce {
                ambient: if ambient_of(ticks, old(self).max_brightness) != prev_level {
                    Some(ambient_of(ticks, old(self).max_brightness))
                } else {
                    None
                },
                brightness: true,
            }),
            final(self).mode == old(self).mode,
            final(self).samples@ == old(self).samples@,
            final(self).max_brightness == old(self).max_brightness,
            final(self).window == old(self).window,
    {
        if !written {
            return PollAnnounce { ambient: None, brightness: false };
        }
        self.current_ticks = ticks;
        let level = self.ambient_level();
        PollAnnounce {
            ambient: if level != prev_level {
                Some(level)
            } else {
                None
            },
            brightness: true,
        }
    }
}

/// One easing step from `current` toward `target`: it moves `step` ticks
/// (the rounded share of the gap), at least one and never past the target.
pub open spec fn ease_spec(current: u32, target: u32, step: u32) -> u32 {
    if current == target {
        current
    } else {
        let gap: int = if target > current {
            target - current
        } else {
            current - target
        };
        let s: int = if step == 0 {
            1
        } else if step > gap {
            gap
        } else {
            step as int
        };
        if target > current {
            (current + s) as u32
        } else {
            (current - s) as u32
        }
    }
}

/// One easing step from `current` toward `target`, of `step` ticks clamped to
/// at least one and at most the gap.
pub fn ease_toward(current: u32, target: u32, step: u32) -> (n: u32)
    ensures
        n == ease_spec(current, target, step),
{
    if current == target {
        return current;
    }
    let gap = if target > current {
        target - current
    } else {
        current - target
    };
    let mut s = step;
    if s == 0 {
        s = 1;
    }
    if s > gap {
        s = gap;
    }
    if target > current {
        current + s
    } else {
        current - s
    }
}

/// Easing never overshoots and always gets closer: the step lands between
/// the current setting and the target (reaching it when the gap is small
/// enough), and moves unless the two are equal.
pub proof fn law_ease_is_monotone(current: u32, target: u32, step: u32)
    ensures
        current <= target ==> current <= ease_spec(current, target, step) <= target,
        target <= current ==> target <= ease_spec(current, target, step) <= current,
        current != target ==> ease_spec(current, target, step) != current,
{
}

/// The target setting for a raw light reading when it does not depend on the
/// brightness curve: 0 with no backlight found, the floor (capped at the
/// maximum) for darkness. `None` when the curve decides.
pub fn fixed_target(raw: u32, max_brightness: u32, min_brightness: u32, dim_knee: u32) -> (t: Option<u32>)
    ensures
        max_brightness == 0 ==> t == Some(0u32),
        max_brightness != 0 && raw <= dim_knee ==> t == Some(
            if min_brightness <= max_brightness {
                min_brightness
            } else {
                max_brightness
            },
        ),
        max_brightness != 0 && raw > dim_knee ==> t is None,
{
    if max_brightness == 0 {
        return Some(0);
    }
    if raw <= dim_knee {
        return Some(
            if min_brightness <= max_brightness {
                min_brightness
            } else {
                max_brightness
            },
        );
    }
    None
}

} // verus!
