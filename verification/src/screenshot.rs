//! Screenshots kept on the device: how their files are named, which old ones
//! are pruned, and when a pushed one may be deleted.

use vstd::prelude::*;
use vstd::string::*;

use crate::text::{chars_of, decimal, has_prefix, parse_unsigned, parse_unsigned_chars, push_decimal};

verus! {

/// How many screenshots the device keeps.
pub const MAX_SCREENSHOTS: usize = 20;

/// The file a screenshot taken at `captured_at_ms` is saved as.
pub fn screenshot_file_name(captured_at_ms: u64) -> (s: String)
    ensures
        s@ == "screenshot-"@ + decimal(captured_at_ms as nat) + ".png"@,
{
    let mut s = String::from_str("screenshot-");
    push_decimal(&mut s, captured_at_ms);
    s.append(".png");
    s
}

/// `s` ends with `x`.
pub open spec fn has_suffix(s: Seq<char>, x: Seq<char>) -> bool {
    x.len() <= s.len() && s.subrange(s.len() - x.len(), s.len() as int) == x
}

/// When a screenshot file was taken, read from its name
/// (`screenshot-<ms>.png`); any other name reads as 0, the oldest.
pub open spec fn screenshot_time(name: Seq<char>) -> u64 {
    let pre = "screenshot-"@;
    let post = ".png"@;
    if has_prefix(name, pre) && pre.len() + post.len() <= name.len() && has_suffix(name, post) {
        match parse_unsigned(name.subrange(pre.len() as int, name.len() - post.len()), u64::MAX as int) {
            Some(v) => v as u64,
            None => 0,
        }
    } else {
        0
    }
}

/// When a screenshot file was taken.
pub fn screenshot_timestamp(name: &str) -> (t: u64)
    ensures
        t == screenshot_time(name@),
{
    proof {
        reveal_strlit("screenshot-");
        reveal_strlit(".png");
    }
    let v = chars_of(name);
    let n = v.len();
    if !crate::text::str_has_prefix(name, "screenshot-") || n < 15 {
        return 0;
    }
    if !(v[n - 4] == '.' && v[n - 3] == 'p' && v[n - 2] == 'n' && v[n - 1] == 'g') {
        assert(!has_suffix(name@, ".png"@)) by {
            if has_suffix(name@, ".png"@) {
                assert(name@.subrange(n - 4, n as int)[0] == name@[n - 4]);
                assert(name@.subrange(n - 4, n as int)[1] == name@[n - 3]);
                assert(name@.subrange(n - 4, n as int)[2] == name@[n - 2]);
                assert(name@.subrange(n - 4, n as int)[3] == name@[n - 1]);
            }
        }
        return 0;
    }
    assert(name@.subrange(n - 4, n as int) =~= ".png"@);
    let mut digits: Vec<char> = Vec::new();
    let mut i: usize = 11;
    while i < n - 4
        invariant
            11 <= i <= n - 4,
            n == v@.len(),
            n >= 15,
            digits@ == v@.subrange(11, i as int),
        decreases n - 4 - i,
    {
        digits.push(v[i]);
        i = i + 1;
        assert(digits@ =~= v@.subrange(11, i as int));
    }
    match parse_unsigned_chars(&digits, u64::MAX) {
        Some(t) => t,
        None => 0,
    }
}

/// File `j` is older than file `i`: an earlier time, or the same time and an
/// earlier place in the listing.
pub open spec fn older(ts: Seq<u64>, j: int, i: int) -> bool {
    ts[j] < ts[i] || (ts[j] == ts[i] && j < i)
}

/// How many of the first `k` files are older than file `i`.
pub open spec fn older_count(ts: Seq<u64>, i: int, k: int) -> nat
    decreases k,
{
    if k <= 0 {
        0
    } else {
        older_count(ts, i, k - 1) + if older(ts, k - 1, i) {
            1nat
        } else {
            0nat
        }
    }
}

/// A file is pruned when there are more files than are kept and fewer files
/// than the excess are older than it.
pub open spec fn pruned(ts: Seq<u64>, i: int) -> bool {
    ts.len() > MAX_SCREENSHOTS && older_count(ts, i, ts.len() as int) < ts.len() - MAX_SCREENSHOTS
}

/// The files to delete so that the newest `MAX_SCREENSHOTS` remain, given
/// each file's time in listing order: in time order (the listing order among
/// equal times) the oldest ones beyond the limit. Positions come in listing
/// order.
pub fn screenshots_to_prune(ts: &Vec<u64>) -> (r: Vec<usize>)
    ensures
        forall|k: int| 0 <= k < r@.len() ==> r@[k] < ts@.len() && pruned(ts@, r@[k] as int),
        forall|i: int| 0 <= i < ts@.len() && pruned(ts@, i) ==> r@.contains(i as usize),
        forall|a: int, b: int| 0 <= a < b < r@.len() ==> r@[a] < r@[b],
{
    let mut r: Vec<usize> = Vec::new();
    let n = ts.len();
    if n <= MAX_SCREENSHOTS {
        return r;
    }
    let excess = n - MAX_SCREENSHOTS;
    let mut i: usize = 0;
    while i < n
        invariant
            0 <= i <= n,
            n == ts@.len(),
            n > MAX_SCREENSHOTS,
            excess == n - MAX_SCREENSHOTS,
            forall|k: int| 0 <= k < r@.len() ==> r@[k] < i && pruned(ts@, r@[k] as int),
            forall|j: int| 0 <= j < i && pruned(ts@, j) ==> r@.contains(j as usize),
            forall|a: int, b: int| 0 <= a < b < r@.len() ==> r@[a] < r@[b],
        decreases n - i,
    {
        let mut count: usize = 0;
        let mut j: usize = 0;
        while j < n
            invariant
                0 <= j <= n,
                i < n,
                n == ts@.len(),
                count == older_count(ts@, i as int, j as int),
                count <= j,
            decreases n - j,
        {
            if ts[j] < ts[i] || (ts[j] == ts[i] && j < i) {
                count = count + 1;
            }
            j = j + 1;
        }
        if count < excess {
            let ghost before = r@;
            r.push(i);
            assert forall|j2: int| 0 <= j2 < i + 1 && pruned(ts@, j2) implies r@.contains(j2 as usize) by {
                if j2 < i {
                    let k = choose|k: int| 0 <= k < before.len() && before[k] == j2 as usize;
                    assert(r@[k] == j2 as usize);
                } else {
                    assert(r@[before.len() as int] == i);
                }
            }
        } else {
            assert forall|j2: int| 0 <= j2 < i + 1 && pruned(ts@, j2) implies r@.contains(j2 as usize) by {
                if j2 == i {
                    assert(!pruned(ts@, j2));
                }
            }
        }
        i = i + 1;
    }
    r
}

/// Whether a pushed screenshot may be deleted from the device: some peer
/// took it and every push went through.
pub fn delete_after_push(delivered: &[bool]) -> (d: bool)
    ensures
        d == (delivered@.len() > 0 && forall|i: int| 0 <= i < delivered@.len() ==> delivered@[i]),
{
    if delivered.len() == 0 {
        return false;
    }
    let mut i: usize = 0;
    while i < delivered.len()
        invariant
            0 <= i <= delivered@.len(),
            forall|j: int| 0 <= j < i ==> delivered@[j],
        decreases delivered@.len() - i,
    {
        if !delivered[i] {
            return false;
        }
        i = i + 1;
    }
    true
}

} // verus!
