//! The hash a bundle is addressed by on the hub: its files, sorted by path,
//! framed and hashed with SHA-256, the first eight digest bytes in hexadecimal.

use vstd::prelude::*;
use vstd::string::*;
use vstd::utf8::*;

use crate::bundles::{hex_bytes, hex_encode, sha256, sha256_digest};
use crate::sorting::{sort_positions, sorted_by};
use crate::text::chars_of;

verus! {

/// The bundle's files sorted by path.
pub open spec fn sorted_entries(entries: Seq<(String, Vec<u8>)>) -> Seq<(String, Vec<u8>)> {
    sorted_by(entries.map_values(|e: (String, Vec<u8>)| e.0@), entries.len() as int, true).map_values(
        |k: int| entries[k],
    )
}

/// One file as it is hashed: its path in UTF-8, a zero byte, its bytes, a zero
/// byte.
pub open spec fn file_frame(e: (String, Vec<u8>)) -> Seq<u8> {
    encode_utf8(e.0@) + seq![0u8] + e.1@ + seq![0u8]
}

/// The files, in order, as they are hashed.
pub open spec fn bundle_frame(s: Seq<(String, Vec<u8>)>) -> Seq<u8>
    decreases s.len(),
{
    if s.len() == 0 {
        Seq::empty()
    } else {
        bundle_frame(s.drop_last()) + file_frame(s.last())
    }
}

/// The hub hash of a bundle given its files as (path relative to the bundle,
/// bytes): the files sorted by path, each framed as path, zero, bytes, zero,
/// hashed together with SHA-256, and the first eight digest bytes written in
/// lower case hexadecimal.
pub fn bundle_hash(entries: &Vec<(String, Vec<u8>)>) -> (h: String)
    ensures
        h@ == hex_bytes(sha256_digest(bundle_frame(sorted_entries(entries@))).take(8)),
{
    let ghost paths = entries@.map_values(|e: (String, Vec<u8>)| e.0@);
    let n = entries.len();
    let mut keys: Vec<Vec<char>> = Vec::new();
    let mut i: usize = 0;
    while i < n
        invariant
            0 <= i <= n,
            n == entries@.len(),
            paths == entries@.map_values(|e: (String, Vec<u8>)| e.0@),
            keys@.len() == i,
            forall|j: int| 0 <= j < i ==> (#[trigger] keys@[j])@ == paths[j],
        decreases n - i,
    {
        keys.push(chars_of(entries[i].0.as_str()));
        i = i + 1;
    }
    assert(keys@.map_values(|v: Vec<char>| v@) =~= paths);
    let order = sort_positions(&keys, true);
    let ghost go = sorted_by(paths, n as int, true);
    assert forall|t: int| 0 <= t < n implies 0 <= #[trigger] go[t] < n by {
        assert(order@[t] as int == go[t]);
    }
    let ghost sel = go.map_values(|x: int| entries@[x]);
    assert(sel == sorted_entries(entries@));
    let mut frame: Vec<u8> = Vec::new();
    let mut j: usize = 0;
    assert(sel.take(0) =~= Seq::<(String, Vec<u8>)>::empty());
    while j < n
        invariant
            0 <= j <= n,
            n == entries@.len(),
            order@.len() == n,
            go.len() == n,
            forall|t: int| 0 <= t < n ==> (#[trigger] order@[t]) as int == go[t],
            forall|t: int| 0 <= t < n ==> 0 <= #[trigger] go[t] < n,
            sel == go.map_values(|x: int| entries@[x]),
            frame@ == bundle_frame(sel.take(j as int)),
        decreases n - j,
    {
        let e = &entries[order[j]];
        let ghost base = frame@;
        let pb = e.0.as_str().as_bytes();
        let mut b: usize = 0;
        while b < pb.len()
            invariant
                0 <= b <= pb@.len(),
                frame@ == base + pb@.subrange(0, b as int),
            decreases pb@.len() - b,
        {
            frame.push(pb[b]);
            b = b + 1;
            assert(frame@ =~= base + pb@.subrange(0, b as int));
        }
        frame.push(0u8);
        let ghost mid = frame@;
        let mut c: usize = 0;
        while c < e.1.len()
            invariant
                0 <= c <= e.1@.len(),
                frame@ == mid + e.1@.subrange(0, c as int),
            decreases e.1@.len() - c,
        {
            frame.push(e.1[c]);
            c = c + 1;
            assert(frame@ =~= mid + e.1@.subrange(0, c as int));
        }
        frame.push(0u8);
        proof {
            assert(order@[j as int] as int == go[j as int]);
            assert(sel[j as int] == *e);
            assert(pb@.subrange(0, pb@.len() as int) =~= encode_utf8(e.0@));
            assert(e.1@.subrange(0, e.1@.len() as int) =~= e.1@);
            assert(sel.take(j + 1).drop_last() =~= sel.take(j as int));
            assert(frame@ =~= bundle_frame(sel.take(j as int)) + file_frame(*e));
        }
        j = j + 1;
    }
    assert(sel.take(n as int) =~= sel);
    let d = sha256(&frame);
    let mut head: Vec<u8> = Vec::new();
    let mut t: usize = 0;
    while t < 8
        invariant
            0 <= t <= 8,
            d@.len() == 32,
            head@ == d@.take(t as int),
        decreases 8 - t,
    {
        head.push(d[t]);
        t = t + 1;
        assert(head@ =~= d@.take(t as int));
    }
    hex_encode(&head)
}

} // verus!
