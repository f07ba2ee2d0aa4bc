//! Display rotation: one of 0, 90, 180 or 270 degrees clockwise, kept across
//! restarts, and the page script that carries it.

use vstd::prelude::*;
use vstd::string::*;

use crate::text::{chars_of, decimal, push_decimal, string_of};

verus! {

/// The rotations a display can take, in degrees clockwise.
pub const VALID_ROTATIONS: [u16; 4] = [0, 90, 180, 270];

/// One of the valid rotations.
pub open spec fn valid_rotation(d: u16) -> bool {
    d == 0 || d == 90 || d == 180 || d == 270
}

/// Whether `d` is a valid rotation.
pub fn is_valid_rotation(d: u16) -> (r: bool)
    ensures
        r == valid_rotation(d),
{
    d == 0 || d == 90 || d == 180 || d == 270
}

/// What setting a rotation can fail with.
#[derive(Clone, Copy, Debug, PartialEq, Eq, Structural)]
pub enum RotationError {
    InvalidRotation,
}

impl RotationError {
    /// The text the error is shown with.
    pub fn message(&self) -> (s: &'static str)
        ensures
            s@ == "rotation must be one of 0, 90, 180, 270 degrees"@,
    {
        "rotation must be one of 0, 90, 180, 270 degrees"
    }
}

/// The rotation restored from the saved preference: the saved value when it
/// is valid, else upright (also when nothing readable was saved).
pub fn restored_rotation(saved: Option<u16>) -> (d: u16)
    ensures
        d == match saved {
            Some(v) => if valid_rotation(v) {
                v
            } else {
                0
            },
            None => 0,
        },
{
    match saved {
        Some(v) => if is_valid_rotation(v) {
            v
        } else {
            0
        },
        None => 0,
    }
}

/// The display rotation the daemon holds.
#[derive(Clone, Copy, Debug, PartialEq, Eq, Structural)]
pub struct RotationManager {
    rotation: u16,
}

impl RotationManager {
    /// The rotation held.
    pub closed spec fn degrees(&self) -> u16 {
        self.rotation
    }

    /// Every manager holds one of the valid rotations.
    #[verifier::type_invariant]
    spec fn holds_valid_rotation(&self) -> bool {
        valid_rotation(self.rotation)
    }

    /// A manager holding the restored rotation.
    pub fn new(saved: Option<u16>) -> (m: RotationManager)
        ensures
            m.degrees() == match saved {
                Some(v) => if valid_rotation(v) {
                    v
                } else {
                    0
                },
                None => 0,
            },
            valid_rotation(m.degrees()),
    {
        RotationManager { rotation: restored_rotation(saved) }
    }

    /// The rotation held.
    pub fn rotation(&self) -> (d: u16)
        ensures
            d == self.degrees(),
            valid_rotation(d),
    {
        proof {
            use_type_invariant(self);
        }
        self.rotation
    }

    /// Sets a valid rotation and gives it back (it is then to be saved);
    /// refuses any other value and keeps the rotation held.
    pub fn set_rotation(&mut self, degrees: u16) -> (r: Result<u16, RotationError>)
        ensures
            valid_rotation(degrees) ==> r == Ok::<u16, RotationError>(degrees) && final(self).degrees() == degrees,
            !valid_rotation(degrees) ==> r == Err::<u16, RotationError>(RotationError::InvalidRotation)
                && final(self).degrees() == old(self).degrees(),
    {
        if !is_valid_rotation(degrees) {
            return Err(RotationError::InvalidRotation);
        }
        self.rotation = degrees;
        Ok(degrees)
    }
}

/// Every occurrence of `pat` in `s` replaced by `with`, scanning from the
/// left and never inside a replacement (what `str::replace` gives).
pub open spec fn replace_all(s: Seq<char>, pat: Seq<char>, with: Seq<char>) -> Seq<char>
    recommends
        pat.len() > 0,
    decreases s.len(),
{
    if s.len() == 0 || pat.len() == 0 {
        s
    } else if pat.len() <= s.len() && s.subrange(0, pat.len() as int) == pat {
        with + replace_all(s.subrange(pat.len() as int, s.len() as int), pat, with)
    } else {
        seq![s[0]] + replace_all(s.drop_first(), pat, with)
    }
}

proof fn lemma_replace_step(s: Seq<char>, i: int, pat: Seq<char>, with: Seq<char>, done: Seq<char>)
    requires
        pat.len() > 0,
        0 <= i < s.len(),
        replace_all(s, pat, with) == done + replace_all(s.subrange(i, s.len() as int), pat, with),
    ensures
        i + pat.len() <= s.len() && s.subrange(i, i + pat.len()) == pat ==> replace_all(s, pat, with) == (done
            + with) + replace_all(s.subrange(i + pat.len(), s.len() as int), pat, with),
        !(i + pat.len() <= s.len() && s.subrange(i, i + pat.len()) == pat) ==> replace_all(s, pat, with) == (
        done + seq![s[i]]) + replace_all(s.subrange(i + 1, s.len() as int), pat, with),
{
    let rest = s.subrange(i, s.len() as int);
    assert(rest.subrange(0, pat.len() as int) =~= s.subrange(i, i + pat.len()) || pat.len() > rest.len());
    if i + pat.len() <= s.len() && s.subrange(i, i + pat.len()) == pat {
        assert(rest.subrange(0, pat.len() as int) =~= s.subrange(i, i + pat.len()));
        assert(rest.subrange(pat.len() as int, rest.len() as int) =~= s.subrange(i + pat.len(), s.len() as int));
        assert(done + (with + replace_all(s.subrange(i + pat.len(), s.len() as int), pat, with)) =~= (done + with)
            + replace_all(s.subrange(i + pat.len(), s.len() as int), pat, with));
    } else {
        if pat.len() <= rest.len() {
            assert(rest.subrange(0, pat.len() as int) =~= s.subrange(i, i + pat.len()));
        }
        assert(rest.drop_first() =~= s.subrange(i + 1, s.len() as int));
        assert(done + (seq![s[i]] + replace_all(rest.drop_first(), pat, with)) =~= (done + seq![s[i]])
            + replace_all(s.subrange(i + 1, s.len() as int), pat, with));
    }
}

fn occurs_at(s: &Vec<char>, i: usize, pat: &Vec<char>) -> (r: bool)
    requires
        i <= s@.len(),
    ensures
        r == (i + pat@.len() <= s@.len() && s@.subrange(i as int, i + pat@.len()) == pat@),
{
    if pat.len() > s.len() - i {
        return false;
    }
    let mut j: usize = 0;
    while j < pat.len()
        invariant
            0 <= j <= pat@.len(),
            i + pat@.len() <= s@.len(),
            s@.len() <= usize::MAX,
            forall|q: int| 0 <= q < j ==> s@[i + q] == pat@[q],
        decreases pat@.len() - j,
    {
        if s[i + j] != pat[j] {
            assert(s@.subrange(i as int, i + pat@.len())[j as int] != pat@[j as int]);
            return false;
        }
        j = j + 1;
    }
    assert(s@.subrange(i as int, i + pat@.len()) =~= pat@);
    true
}

/// `s` with every occurrence of `pat` replaced by `with`.
pub fn replace_text(s: &str, pat: &str, with: &str) -> (r: String)
    requires
        pat@.len() > 0,
    ensures
        r@ == replace_all(s@, pat@, with@),
{
    let sv = chars_of(s);
    let pv = chars_of(pat);
    let wv = chars_of(with);
    let mut out: Vec<char> = Vec::new();
    let mut i: usize = 0;
    assert(s@.subrange(0, s@.len() as int) =~= s@);
    while i < sv.len()
        invariant
            0 <= i <= sv@.len(),
            sv@ == s@,
            pv@ == pat@,
            wv@ == with@,
            pat@.len() > 0,
            replace_all(s@, pat@, with@) == out@ + replace_all(s@.subrange(i as int, s@.len() as int), pat@, with@),
        decreases sv@.len() - i,
    {
        proof {
            lemma_replace_step(s@, i as int, pat@, with@, out@);
        }
        if occurs_at(&sv, i, &pv) {
            let ghost before = out@;
            let mut j: usize = 0;
            while j < wv.len()
                invariant
                    0 <= j <= wv@.len(),
                    out@ == before + wv@.subrange(0, j as int),
                decreases wv@.len() - j,
            {
                out.push(wv[j]);
                j = j + 1;
                assert(out@ =~= before + wv@.subrange(0, j as int));
            }
            assert(wv@.subrange(0, wv@.len() as int) =~= wv@);
            i = i + pv.len();
        } else {
            out.push(sv[i]);
            i = i + 1;
        }
    }
    assert(s@.subrange(sv@.len() as int, s@.len() as int) =~= Seq::<char>::empty());
    assert(out@ + Seq::<char>::empty() =~= out@);
    string_of(&out)
}

/// The page script for a rotation: the template with `{DEGREES}` replaced by
/// the degrees and then `{WS_URL}` by the daemon's WebSocket address.
pub fn rotation_script(template: &str, degrees: u16, ws_url: &str) -> (s: String)
    ensures
        s@ == replace_all(
            replace_all(template@, "{DEGREES}"@, decimal(degrees as nat)),
            "{WS_URL}"@,
            ws_url@,
        ),
{
    let mut d = String::new();
    push_decimal(&mut d, degrees as u64);
    assert(d@ =~= decimal(degrees as nat));
    proof {
        reveal_strlit("{DEGREES}");
        reveal_strlit("{WS_URL}");
    }
    let first = replace_text(template, "{DEGREES}", d.as_str());
    replace_text(first.as_str(), "{WS_URL}", ws_url)
}

/// The handler of a client's hardware requests.
pub struct HardwareHandler<H> {
    pub handle: H,
}

impl<H> HardwareHandler<H> {
    /// A handler answering through `handle`.
    pub fn new(handle: H) -> (h: HardwareHandler<H>)
        ensures
            h.handle == handle,
    {
        HardwareHandler { handle }
    }
}

} // verus!
