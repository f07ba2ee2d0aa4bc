//! Stable sorting of positions by text keys, in the two orders the daemon
//! sorts by: plain text order, and the order of file paths.

use vstd::prelude::*;

use crate::webapps::{lemma_lex_total, lemma_lex_trans, lex_le, lex_le_chars};

verus! {

/// Where a character falls in the order file paths are listed in: the
/// component separator `/` before every other character, the rest by code
/// point.
pub open spec fn path_rank(c: char) -> int {
    if c == '/' {
        0
    } else {
        (c as u32) + 1
    }
}

/// Relative file paths in the order a file tree sorts them: component by
/// component, each component character by character, a proper prefix first
/// (for paths without empty components, as a directory walk gives them).
pub open spec fn path_le(a: Seq<char>, b: Seq<char>) -> bool
    decreases a.len(),
{
    if a.len() == 0 {
        true
    } else if b.len() == 0 {
        false
    } else if path_rank(a[0]) != path_rank(b[0]) {
        path_rank(a[0]) < path_rank(b[0])
    } else {
        path_le(a.drop_first(), b.drop_first())
    }
}

proof fn lemma_path_skip(a: Seq<char>, b: Seq<char>, i: int)
    requires
        0 <= i <= a.len(),
        i <= b.len(),
        forall|k: int| 0 <= k < i ==> path_rank(a[k]) == path_rank(b[k]),
    ensures
        path_le(a, b) == path_le(a.subrange(i, a.len() as int), b.subrange(i, b.len() as int)),
    decreases i,
{
    if i > 0 {
        lemma_path_skip(a.drop_first(), b.drop_first(), i - 1);
        assert(a.drop_first().subrange(i - 1, a.drop_first().len() as int) =~= a.subrange(i, a.len() as int));
        assert(b.drop_first().subrange(i - 1, b.drop_first().len() as int) =~= b.subrange(i, b.len() as int));
    } else {
        assert(a.subrange(0, a.len() as int) =~= a);
        assert(b.subrange(0, b.len() as int) =~= b);
    }
}

fn rank_of(c: char) -> (r: u64)
    ensures
        r == path_rank(c),
{
    if c == '/' {
        0
    } else {
        (c as u32) as u64 + 1
    }
}

/// Whether path `a` sorts no later than path `b`.
pub fn path_le_chars(a: &Vec<char>, b: &Vec<char>) -> (r: bool)
    ensures
        r == path_le(a@, b@),
{
    let mut i: usize = 0;
    while i < a.len() && i < b.len() && rank_of(a[i]) == rank_of(b[i])
        invariant
            0 <= i <= a@.len(),
            i <= b@.len(),
            forall|k: int| 0 <= k < i ==> path_rank(a@[k]) == path_rank(b@[k]),
        decreases a@.len() - i,
    {
        i = i + 1;
    }
    proof {
        lemma_path_skip(a@, b@, i as int);
    }
    let ghost ra = a@.subrange(i as int, a@.len() as int);
    let ghost rb = b@.subrange(i as int, b@.len() as int);
    if i == a.len() {
        true
    } else if i == b.len() {
        false
    } else {
        assert(ra[0] == a@[i as int] && rb[0] == b@[i as int]);
        rank_of(a[i]) < rank_of(b[i])
    }
}

/// Whether key `a` sorts no later than key `b`: in file path order when
/// `by_path`, else in text order.
pub open spec fn key_le(by_path: bool, a: Seq<char>, b: Seq<char>) -> bool {
    if by_path {
        path_le(a, b)
    } else {
        lex_le(a, b)
    }
}

/// `order` with position `k` put after its leading positions whose keys sort
/// no later than `k`'s.
pub open spec fn insert_by(order: Seq<int>, k: int, keys: Seq<Seq<char>>, by_path: bool) -> Seq<int>
    decreases order.len(),
{
    if order.len() == 0 {
        seq![k]
    } else if key_le(by_path, keys[order[0]], keys[k]) {
        seq![order[0]] + insert_by(order.drop_first(), k, keys, by_path)
    } else {
        seq![k] + order
    }
}

/// The first `n` positions sorted by their keys, stably: each goes after the
/// ones before it that sort no later.
pub open spec fn sorted_by(keys: Seq<Seq<char>>, n: int, by_path: bool) -> Seq<int>
    decreases n,
{
    if n <= 0 {
        Seq::empty()
    } else {
        insert_by(sorted_by(keys, n - 1, by_path), n - 1, keys, by_path)
    }
}

proof fn lemma_insert_at(order: Seq<int>, k: int, keys: Seq<Seq<char>>, by_path: bool, p: int)
    requires
        0 <= p <= order.len(),
        forall|j: int| 0 <= j < p ==> key_le(by_path, keys[#[trigger] order[j]], keys[k]),
        p == order.len() || !key_le(by_path, keys[order[p]], keys[k]),
    ensures
        insert_by(order, k, keys, by_path) == order.take(p).push(k) + order.skip(p),
    decreases p,
{
    if p == 0 {
        if order.len() == 0 {
            assert(order.take(0).push(k) + order.skip(0) =~= seq![k]);
        } else {
            assert(order.take(0).push(k) + order.skip(0) =~= seq![k] + order);
        }
    } else {
        let rest = order.drop_first();
        assert forall|j: int| 0 <= j < p - 1 implies key_le(by_path, keys[#[trigger] rest[j]], keys[k]) by {
            assert(rest[j] == order[j + 1]);
        }
        if p < order.len() {
            assert(rest[p - 1] == order[p]);
        }
        lemma_insert_at(rest, k, keys, by_path, p - 1);
        assert(key_le(by_path, keys[order[0]], keys[k]));
        assert(seq![order[0]] + (rest.take(p - 1).push(k) + rest.skip(p - 1)) =~= order.take(p).push(k) + order.skip(
            p,
        ));
    }
}

fn key_le_chars(by_path: bool, a: &Vec<char>, b: &Vec<char>) -> (r: bool)
    ensures
        r == key_le(by_path, a@, b@),
{
    if by_path {
        path_le_chars(a, b)
    } else {
        lex_le_chars(a, b)
    }
}

/// The positions of `keys` sorted stably by key.
pub fn sort_positions(keys: &Vec<Vec<char>>, by_path: bool) -> (order: Vec<usize>)
    ensures
        order@.len() == keys@.len(),
        sorted_by(keys@.map_values(|v: Vec<char>| v@), keys@.len() as int, by_path).len() == keys@.len(),
        forall|j: int|
            0 <= j < keys@.len() ==> (#[trigger] order@[j]) as int == sorted_by(
                keys@.map_values(|v: Vec<char>| v@),
                keys@.len() as int,
                by_path,
            )[j],
        forall|j: int| 0 <= j < keys@.len() ==> (#[trigger] order@[j]) < keys@.len(),
{
    let n = keys.len();
    let ghost kv = keys@.map_values(|v: Vec<char>| v@);
    let mut order: Vec<usize> = Vec::new();
    let ghost mut go: Seq<int> = Seq::empty();
    let mut k: usize = 0;
    while k < n
        invariant
            0 <= k <= n,
            n == keys@.len(),
            kv == keys@.map_values(|v: Vec<char>| v@),
            go == sorted_by(kv, k as int, by_path),
            order@.len() == go.len(),
            go.len() == k,
            forall|j: int| 0 <= j < go.len() ==> (#[trigger] order@[j]) as int == go[j],
            forall|j: int| 0 <= j < go.len() ==> 0 <= #[trigger] go[j] < k,
        decreases n - k,
    {
        let mut p: usize = 0;
        while p < order.len() && key_le_chars(by_path, &keys[order[p]], &keys[k])
            invariant
                0 <= p <= order@.len(),
                order@.len() == go.len(),
                n == keys@.len(),
                k < n,
                kv == keys@.map_values(|v: Vec<char>| v@),
                forall|j: int| 0 <= j < go.len() ==> (#[trigger] order@[j]) as int == go[j],
                forall|j: int| 0 <= j < go.len() ==> 0 <= #[trigger] go[j] < k,
                forall|j: int| 0 <= j < p ==> key_le(by_path, kv[#[trigger] go[j]], kv[k as int]),
            decreases order@.len() - p,
        {
            assert(order@[p as int] as int == go[p as int]);
            p = p + 1;
        }
        proof {
            if p < order@.len() {
                assert(order@[p as int] as int == go[p as int]);
            }
            lemma_insert_at(go, k as int, kv, by_path, p as int);
        }
        let ghost before = order@;
        order.insert(p, k);
        proof {
            let ng = go.take(p as int).push(k as int) + go.skip(p as int);
            assert forall|j: int| 0 <= j < ng.len() implies (#[trigger] order@[j]) as int == ng[j] by {
                if j < p {
                    assert(order@[j] == before[j]);
                } else if j > p {
                    assert(order@[j] == before[j - 1]);
                }
            }
            assert forall|j: int| 0 <= j < ng.len() implies 0 <= #[trigger] ng[j] < k + 1 by {
                if j < p {
                    assert(ng[j] == go[j]);
                } else if j > p {
                    assert(ng[j] == go[j - 1]);
                }
            }
            go = ng;
        }
        k = k + 1;
    }
    order
}

proof fn lemma_path_total(a: Seq<char>, b: Seq<char>)
    ensures
        path_le(a, b) || path_le(b, a),
    decreases a.len(),
{
    if a.len() > 0 && b.len() > 0 {
        if path_rank(a[0]) == path_rank(b[0]) {
            lemma_path_total(a.drop_first(), b.drop_first());
        }
    }
}

proof fn lemma_path_trans(a: Seq<char>, b: Seq<char>, c: Seq<char>)
    requires
        path_le(a, b),
        path_le(b, c),
    ensures
        path_le(a, c),
    decreases a.len(),
{
    if a.len() > 0 && b.len() > 0 && c.len() > 0 && path_rank(a[0]) == path_rank(b[0]) && path_rank(b[0])
        == path_rank(c[0]) {
        lemma_path_trans(a.drop_first(), b.drop_first(), c.drop_first());
    }
}

proof fn lemma_key_total(by_path: bool, a: Seq<char>, b: Seq<char>)
    ensures
        key_le(by_path, a, b) || key_le(by_path, b, a),
{
    if by_path {
        lemma_path_total(a, b);
    } else {
        lemma_lex_total(a, b);
    }
}

proof fn lemma_key_trans(by_path: bool, a: Seq<char>, b: Seq<char>, c: Seq<char>)
    requires
        key_le(by_path, a, b),
        key_le(by_path, b, c),
    ensures
        key_le(by_path, a, c),
{
    if by_path {
        lemma_path_trans(a, b, c);
    } else {
        lemma_lex_trans(a, b, c);
    }
}

/// Positions in ascending order of their keys.
pub open spec fn ascending_by(order: Seq<int>, keys: Seq<Seq<char>>, by_path: bool) -> bool {
    forall|i: int, j: int| 0 <= i < j < order.len() ==> key_le(by_path, keys[order[i]], keys[order[j]])
}

proof fn lemma_insert_keeps_order(order: Seq<int>, k: int, keys: Seq<Seq<char>>, by_path: bool)
    requires
        ascending_by(order, keys, by_path),
    ensures
        ascending_by(insert_by(order, k, keys, by_path), keys, by_path),
        insert_by(order, k, keys, by_path).to_multiset() == order.to_multiset().insert(k),
    decreases order.len(),
{
    broadcast use vstd::seq_lib::group_to_multiset_ensures;

    let r = insert_by(order, k, keys, by_path);
    if order.len() == 0 {
        assert(r =~= seq![k]);
        assert(seq![k] =~= Seq::<int>::empty().push(k));
    } else {
        let o0 = order[0];
        let rest = order.drop_first();
        assert(order =~= seq![o0] + rest);
        assert forall|i: int, j: int| 0 <= i < j < rest.len() implies key_le(by_path, keys[rest[i]], keys[rest[j]]) by {
            assert(rest[i] == order[i + 1] && rest[j] == order[j + 1]);
        }
        if key_le(by_path, keys[o0], keys[k]) {
            lemma_insert_keeps_order(rest, k, keys, by_path);
            let r2 = insert_by(rest, k, keys, by_path);
            assert(r == seq![o0] + r2);
            assert forall|i: int, j: int| 0 <= i < j < r.len() implies key_le(by_path, keys[r[i]], keys[r[j]]) by {
                if i == 0 {
                    let x = r2[j - 1];
                    assert(r[j] == x);
                    assert(r2.to_multiset().contains(x));
                    if x != k {
                        assert(rest.to_multiset().contains(x));
                        assert(rest.contains(x));
                        let m = choose|m: int| 0 <= m < rest.len() && rest[m] == x;
                        assert(order[m + 1] == x);
                    }
                } else {
                    assert(r[i] == r2[i - 1] && r[j] == r2[j - 1]);
                }
            }
            assert((seq![o0] + r2).to_multiset() == seq![o0].to_multiset().add(r2.to_multiset())) by {
                vstd::seq_lib::lemma_multiset_commutative(seq![o0], r2);
            }
            assert((seq![o0] + rest).to_multiset() == seq![o0].to_multiset().add(rest.to_multiset())) by {
                vstd::seq_lib::lemma_multiset_commutative(seq![o0], rest);
            }
            assert(r.to_multiset() =~= order.to_multiset().insert(k));
        } else {
            assert(r == seq![k] + order);
            lemma_key_total(by_path, keys[o0], keys[k]);
            assert forall|i: int, j: int| 0 <= i < j < r.len() implies key_le(by_path, keys[r[i]], keys[r[j]]) by {
                if i == 0 {
                    assert(r[j] == order[j - 1]);
                    if j - 1 > 0 {
                        lemma_key_trans(by_path, keys[k], keys[o0], keys[order[j - 1]]);
                    }
                } else {
                    assert(r[i] == order[i - 1] && r[j] == order[j - 1]);
                }
            }
            assert((seq![k] + order).to_multiset() == seq![k].to_multiset().add(order.to_multiset())) by {
                vstd::seq_lib::lemma_multiset_commutative(seq![k], order);
            }
            assert(r.to_multiset() =~= order.to_multiset().insert(k));
        }
    }
}

/// What sorting gives is in ascending order of the keys, and holds each of
/// the positions it sorted exactly once.
pub proof fn lemma_sorted_by(keys: Seq<Seq<char>>, n: int, by_path: bool)
    requires
        0 <= n,
    ensures
        ascending_by(sorted_by(keys, n, by_path), keys, by_path),
        sorted_by(keys, n, by_path).to_multiset() == Seq::new(n as nat, |i: int| i).to_multiset(),
    decreases n,
{
    broadcast use vstd::seq_lib::group_to_multiset_ensures;

    if n == 0 {
        assert(Seq::new(0nat, |i: int| i) =~= Seq::<int>::empty());
    } else {
        lemma_sorted_by(keys, n - 1, by_path);
        lemma_insert_keeps_order(sorted_by(keys, n - 1, by_path), n - 1, keys, by_path);
        assert(Seq::new(n as nat, |i: int| i) =~= Seq::new((n - 1) as nat, |i: int| i).push(n - 1));
    }
}

} // verus!
