//! Turning a spoken or written webapp name into the words it is matched by.

use vstd::prelude::*;
use vstd::string::*;

use crate::pathname::{ascii_lower, lower_char, same_chars};
use crate::text::{char_is_white_space, chars_of, is_white_space, string_of};

verus! {

/// What `char::is_alphanumeric` answers for a character: whether it has the
/// Unicode `Alphabetic` or `Numeric` property.
pub uninterp spec fn unicode_alphanumeric(c: char) -> bool;

/// An ASCII letter or digit.
pub open spec fn ascii_alphanumeric(c: char) -> bool {
    let v = c as u32;
    (48 <= v <= 57) || (65 <= v <= 90) || (97 <= v <= 122)
}

/// `char::is_alphanumeric`. Its answer is the Unicode property named above;
/// for ASCII the documentation fixes it to the letters and digits.
#[verifier::external_body]
fn char_is_alphanumeric(c: char) -> (r: bool)
    ensures
        r == unicode_alphanumeric(c),
        (c as u32) < 128 ==> (r == ascii_alphanumeric(c)),
{
    c.is_alphanumeric()
}

/// The words of `s`: its maximal runs of non-white-space characters, split
/// the way `str::split_whitespace` does. The pair holds the finished words and
/// the word still being read.
pub open spec fn split_words(s: Seq<char>) -> (Seq<Seq<char>>, Seq<char>)
    decreases s.len(),
{
    if s.len() == 0 {
        (Seq::empty(), Seq::empty())
    } else {
        let (done, cur) = split_words(s.drop_last());
        let c = s.last();
        if is_white_space(c) {
            if cur.len() > 0 {
                (done.push(cur), Seq::empty())
            } else {
                (done, cur)
            }
        } else {
            (done, cur.push(c))
        }
    }
}

/// The words of `s`, in order.
pub open spec fn words(s: Seq<char>) -> Seq<Seq<char>> {
    let (done, cur) = split_words(s);
    if cur.len() > 0 {
        done.push(cur)
    } else {
        done
    }
}

/// Words that say nothing about which webapp is meant.
pub open spec fn is_noise(w: Seq<char>) -> bool {
    ||| w == seq!['t', 'h', 'e']
    ||| w == seq!['a']
    ||| w == seq!['a', 'n']
    ||| w == seq!['a', 'p', 'p']
    ||| w == seq!['w', 'e', 'b', 'a', 'p', 'p']
    ||| w == seq!['a', 'p', 'p', 'l', 'i', 'c', 'a', 't', 'i', 'o', 'n']
}

/// Words joined by single spaces.
pub open spec fn join_spaced(ws: Seq<Seq<char>>) -> Seq<char>
    decreases ws.len(),
{
    if ws.len() == 0 {
        Seq::empty()
    } else if ws.len() == 1 {
        ws[0]
    } else {
        join_spaced(ws.drop_last()) + seq![' '] + ws.last()
    }
}

/// Whether a character counts as a letter or digit in a name: for ASCII, the
/// ASCII letters and digits; beyond ASCII, the Unicode property.
pub open spec fn name_alphanumeric(c: char) -> bool {
    if (c as u32) < 128 {
        ascii_alphanumeric(c)
    } else {
        unicode_alphanumeric(c)
    }
}

/// A character as a name is matched by: letters and digits in ASCII lower
/// case, anything else a space.
pub open spec fn name_char(c: char) -> char {
    if name_alphanumeric(c) {
        ascii_lower(c)
    } else {
        ' '
    }
}

/// A webapp name as it is matched: letters and digits lower-cased, the rest
/// turned to spaces, split into words, noise words dropped, and the words left
/// joined by single spaces.
pub open spec fn normalized_name(raw: Seq<char>) -> Seq<char> {
    join_spaced(words(raw.map_values(|c: char| name_char(c))).filter(|w: Seq<char>| !is_noise(w)))
}

fn is_noise_word(w: &Vec<char>) -> (r: bool)
    ensures
        r == is_noise(w@),
{
    let the = ['t', 'h', 'e'];
    let a = ['a'];
    let an = ['a', 'n'];
    let app = ['a', 'p', 'p'];
    let webapp = ['w', 'e', 'b', 'a', 'p', 'p'];
    let application = ['a', 'p', 'p', 'l', 'i', 'c', 'a', 't', 'i', 'o', 'n'];
    assert(the@ =~= seq!['t', 'h', 'e']);
    assert(a@ =~= seq!['a']);
    assert(an@ =~= seq!['a', 'n']);
    assert(app@ =~= seq!['a', 'p', 'p']);
    assert(webapp@ =~= seq!['w', 'e', 'b', 'a', 'p', 'p']);
    assert(application@ =~= seq!['a', 'p', 'p', 'l', 'i', 'c', 'a', 't', 'i', 'o', 'n']);
    same_chars(w, &the) || same_chars(w, &a) || same_chars(w, &an) || same_chars(w, &app)
        || same_chars(w, &webapp) || same_chars(w, &application)
}

/// The view of a list of words.
pub open spec fn words_view(v: Seq<Vec<char>>) -> Seq<Seq<char>> {
    v.map_values(|w: Vec<char>| w@)
}

/// The words of `s`.
pub fn split_whitespace(s: &[char]) -> (r: Vec<Vec<char>>)
    ensures
        words_view(r@) == words(s@),
{
    let mut done: Vec<Vec<char>> = Vec::new();
    let mut cur: Vec<char> = Vec::new();
    let mut i: usize = 0;
    assert(s@.subrange(0, 0) =~= Seq::<char>::empty());
    while i < s.len()
        invariant
            0 <= i <= s@.len(),
            (words_view(done@), cur@) == split_words(s@.subrange(0, i as int)),
        decreases s@.len() - i,
    {
        let c = s[i];
        let ghost pre = s@.subrange(0, i as int);
        assert(s@.subrange(0, i + 1).drop_last() =~= pre);
        if char_is_white_space(c) {
            if cur.len() > 0 {
                let ghost dv = words_view(done@);
                let ghost cv = cur@;
                let mut fresh: Vec<char> = Vec::new();
                std::mem::swap(&mut fresh, &mut cur);
                done.push(fresh);
                assert(words_view(done@) =~= dv.push(cv));
            }
        } else {
            cur.push(c);
        }
        i = i + 1;
    }
    assert(s@.subrange(0, s@.len() as int) =~= s@);
    if cur.len() > 0 {
        let ghost dv = words_view(done@);
        let ghost cv = cur@;
        done.push(cur);
        assert(words_view(done@) =~= dv.push(cv));
    }
    done
}

/// A webapp name as it is matched.
pub fn normalize_webapp_name(raw: &str) -> (r: String)
    ensures
        r@ == normalized_name(raw@),
{
    let chars = chars_of(raw);
    let mut mapped: Vec<char> = Vec::new();
    let mut i: usize = 0;
    while i < chars.len()
        invariant
            0 <= i <= chars@.len(),
            chars@ == raw@,
            mapped@ == raw@.subrange(0, i as int).map_values(|c: char| name_char(c)),
        decreases chars@.len() - i,
    {
        let c = chars[i];
        let m = if char_is_alphanumeric(c) {
            lower_char(c)
        } else {
            ' '
        };
        mapped.push(m);
        i = i + 1;
        assert(mapped@ =~= raw@.subrange(0, i as int).map_values(|c: char| name_char(c)));
    }
    assert(raw@.subrange(0, raw@.len() as int) =~= raw@);
    let ws = split_whitespace(&mapped);
    let ghost all = words_view(ws@);
    let ghost keep = |w: Seq<char>| !is_noise(w);
    proof {
        lemma_words_nonempty(mapped@);
    }
    let mut out: Vec<char> = Vec::new();
    let mut k: usize = 0;
    assert(all.subrange(0, 0).filter(keep) =~= Seq::<Seq<char>>::empty());
    while k < ws.len()
        invariant
            0 <= k <= ws@.len(),
            all == words_view(ws@),
            keep == (|w: Seq<char>| !is_noise(w)),
            out@ == join_spaced(all.subrange(0, k as int).filter(keep)),
            (out@.len() == 0) == (all.subrange(0, k as int).filter(keep).len() == 0),
            forall|j: int| 0 <= j < all.len() ==> #[trigger] all[j].len() > 0,
        decreases ws@.len() - k,
    {
        let ghost before = all.subrange(0, k as int);
        let ghost w = all[k as int];
        assert(all.subrange(0, k + 1) =~= before.push(w));
        proof {
            before.lemma_filter_push(w, keep);
        }
        assert(w == ws@[k as int]@);
        if !is_noise_word(&ws[k]) {
            let ghost kept = before.filter(keep);
            let ghost prior = out@;
            if out.len() > 0 {
                out.push(' ');
            }
            let word = &ws[k];
            let mut j: usize = 0;
            let ghost base = out@;
            while j < word.len()
                invariant
                    0 <= j <= word@.len(),
                    out@ == base + word@.subrange(0, j as int),
                decreases word@.len() - j,
            {
                out.push(word[j]);
                j = j + 1;
                assert(out@ =~= base + word@.subrange(0, j as int));
            }
            assert(word@.subrange(0, word@.len() as int) =~= word@);
            assert(kept.push(w).drop_last() =~= kept);
            proof {
                if kept.len() == 0 {
                    assert(out@ =~= w);
                } else {
                    assert(out@ =~= prior + seq![' '] + w);
                }
            }
        }
        k = k + 1;
    }
    assert(all.subrange(0, ws@.len() as int) =~= all);
    string_of(&out)
}

proof fn lemma_split_words_nonempty(s: Seq<char>)
    ensures
        forall|i: int| 0 <= i < split_words(s).0.len() ==> #[trigger] split_words(s).0[i].len() > 0,
    decreases s.len(),
{
    if s.len() > 0 {
        lemma_split_words_nonempty(s.drop_last());
        let (done, cur) = split_words(s.drop_last());
        if is_white_space(s.last()) && cur.len() > 0 {
            assert forall|i: int| 0 <= i < done.push(cur).len() implies #[trigger] done.push(cur)[i].len()
                > 0 by {
                if i < done.len() {
                    assert(done.push(cur)[i] == done[i]);
                }
            }
        }
    }
}

proof fn lemma_words_nonempty(s: Seq<char>)
    ensures
        forall|i: int| 0 <= i < words(s).len() ==> #[trigger] words(s)[i].len() > 0,
{
    lemma_split_words_nonempty(s);
}

/// A character that can stand in a matched name's word: not white space, and
/// left as it is by the name mapping.
pub open spec fn word_char(c: char) -> bool {
    !is_white_space(c) && name_char(c) == c
}

proof fn lemma_split_words_chars(s: Seq<char>)
    requires
        forall|i: int| 0 <= i < s.len() ==> is_white_space(#[trigger] s[i]) || word_char(s[i]),
    ensures
        forall|i: int, j: int|
            0 <= i < split_words(s).0.len() && 0 <= j < split_words(s).0[i].len() ==> word_char(
                #[trigger] split_words(s).0[i][j],
            ),
        forall|j: int| 0 <= j < split_words(s).1.len() ==> word_char(#[trigger] split_words(s).1[j]),
    decreases s.len(),
{
    if s.len() > 0 {
        let t = s.drop_last();
        assert forall|i: int| 0 <= i < t.len() implies is_white_space(#[trigger] t[i]) || word_char(t[i]) by {
            assert(t[i] == s[i]);
        }
        lemma_split_words_chars(t);
        let (done, cur) = split_words(t);
        let c = s.last();
        assert(is_white_space(c) || word_char(c)) by {
            assert(s[s.len() - 1] == c);
        }
        if is_white_space(c) {
            if cur.len() > 0 {
                assert forall|i: int, j: int| 0 <= i < done.push(cur).len() && 0 <= j < done.push(cur)[i].len()
                    implies word_char(#[trigger] done.push(cur)[i][j]) by {
                    if i < done.len() {
                        assert(done.push(cur)[i] == done[i]);
                    }
                }
            }
        } else {
            assert forall|j: int| 0 <= j < cur.push(c).len() implies word_char(#[trigger] cur.push(c)[j]) by {
                if j < cur.len() {
                    assert(cur.push(c)[j] == cur[j]);
                }
            }
        }
    }
}

proof fn lemma_words_chars(s: Seq<char>)
    requires
        forall|i: int| 0 <= i < s.len() ==> is_white_space(#[trigger] s[i]) || word_char(s[i]),
    ensures
        forall|i: int, j: int| 0 <= i < words(s).len() && 0 <= j < words(s)[i].len() ==> word_char(
            #[trigger] words(s)[i][j],
        ),
{
    lemma_split_words_chars(s);
    let (done, cur) = split_words(s);
    if cur.len() > 0 {
        assert forall|i: int, j: int| 0 <= i < done.push(cur).len() && 0 <= j < done.push(cur)[i].len() implies word_char(
            #[trigger] done.push(cur)[i][j],
        ) by {
            if i < done.len() {
                assert(done.push(cur)[i] == done[i]);
            }
        }
    }
}

proof fn lemma_split_append_word(a: Seq<char>, w: Seq<char>)
    requires
        forall|j: int| 0 <= j < w.len() ==> !is_white_space(#[trigger] w[j]),
    ensures
        split_words(a + w) == (split_words(a).0, split_words(a).1 + w),
    decreases w.len(),
{
    if w.len() == 0 {
        assert(a + w =~= a);
        assert(split_words(a).1 + w =~= split_words(a).1);
    } else {
        let w2 = w.drop_last();
        assert forall|j: int| 0 <= j < w2.len() implies !is_white_space(#[trigger] w2[j]) by {
            assert(w2[j] == w[j]);
        }
        lemma_split_append_word(a, w2);
        assert((a + w).drop_last() =~= a + w2);
        assert((a + w).last() == w.last());
        assert(!is_white_space(w[w.len() - 1]));
        assert((split_words(a).1 + w2).push(w.last()) =~= split_words(a).1 + w);
    }
}

proof fn lemma_split_join(ws: Seq<Seq<char>>)
    requires
        ws.len() > 0,
        forall|i: int| 0 <= i < ws.len() ==> (#[trigger] ws[i]).len() > 0,
        forall|i: int, j: int| 0 <= i < ws.len() && 0 <= j < ws[i].len() ==> !is_white_space(#[trigger] ws[i][j]),
    ensures
        split_words(join_spaced(ws)) == (ws.drop_last(), ws.last()),
    decreases ws.len(),
{
    let w = ws.last();
    assert forall|j: int| 0 <= j < w.len() implies !is_white_space(#[trigger] w[j]) by {
        assert(ws[ws.len() - 1][j] == w[j]);
    }
    if ws.len() == 1 {
        lemma_split_append_word(Seq::empty(), w);
        assert(Seq::<char>::empty() + w =~= w);
        assert(Seq::<char>::empty() + w =~= ws[0]);
        assert(ws.drop_last() =~= Seq::<Seq<char>>::empty());
    } else {
        let ws2 = ws.drop_last();
        assert forall|i: int| 0 <= i < ws2.len() implies (#[trigger] ws2[i]).len() > 0 by {
            assert(ws2[i] == ws[i]);
        }
        assert forall|i: int, j: int| 0 <= i < ws2.len() && 0 <= j < ws2[i].len() implies !is_white_space(
            #[trigger] ws2[i][j],
        ) by {
            assert(ws2[i] == ws[i]);
        }
        lemma_split_join(ws2);
        let x = join_spaced(ws2) + seq![' '];
        assert(x.drop_last() =~= join_spaced(ws2));
        assert(is_white_space(' '));
        assert(ws2[ws2.len() - 1].len() > 0);
        assert(ws2.drop_last().push(ws2.last()) =~= ws2);
        assert(split_words(x) == (ws2, Seq::<char>::empty()));
        lemma_split_append_word(x, w);
        assert(Seq::<char>::empty() + w =~= w);
        assert(join_spaced(ws) == x + w);
    }
}

proof fn lemma_words_join(ws: Seq<Seq<char>>)
    requires
        forall|i: int| 0 <= i < ws.len() ==> (#[trigger] ws[i]).len() > 0,
        forall|i: int, j: int| 0 <= i < ws.len() && 0 <= j < ws[i].len() ==> !is_white_space(#[trigger] ws[i][j]),
    ensures
        words(join_spaced(ws)) == ws,
{
    if ws.len() == 0 {
        assert(split_words(Seq::<char>::empty()) == (Seq::<Seq<char>>::empty(), Seq::<char>::empty()));
    } else {
        lemma_split_join(ws);
        assert(ws[ws.len() - 1].len() > 0);
        assert(ws.drop_last().push(ws.last()) =~= ws);
    }
}

proof fn lemma_join_chars(ws: Seq<Seq<char>>)
    requires
        forall|i: int, j: int| 0 <= i < ws.len() && 0 <= j < ws[i].len() ==> word_char(#[trigger] ws[i][j]),
    ensures
        forall|k: int| 0 <= k < join_spaced(ws).len() ==> #[trigger] join_spaced(ws)[k] == ' ' || word_char(
            join_spaced(ws)[k],
        ),
    decreases ws.len(),
{
    if ws.len() == 1 {
        assert forall|k: int| 0 <= k < join_spaced(ws).len() implies #[trigger] join_spaced(ws)[k] == ' ' || word_char(
            join_spaced(ws)[k],
        ) by {
            assert(join_spaced(ws)[k] == ws[0][k]);
        }
    } else if ws.len() > 1 {
        let ws2 = ws.drop_last();
        assert forall|i: int, j: int| 0 <= i < ws2.len() && 0 <= j < ws2[i].len() implies word_char(
            #[trigger] ws2[i][j],
        ) by {
            assert(ws2[i] == ws[i]);
        }
        lemma_join_chars(ws2);
        let a = join_spaced(ws2);
        let w = ws.last();
        assert forall|k: int| 0 <= k < join_spaced(ws).len() implies #[trigger] join_spaced(ws)[k] == ' ' || word_char(
            join_spaced(ws)[k],
        ) by {
            if k < a.len() {
                assert(join_spaced(ws)[k] == a[k]);
            } else if k == a.len() {
            } else {
                assert(join_spaced(ws)[k] == w[k - a.len() - 1]);
                assert(ws[ws.len() - 1][k - a.len() - 1] == w[k - a.len() - 1]);
            }
        }
    }
}

proof fn lemma_filter_words(s: Seq<Seq<char>>, f: spec_fn(Seq<char>) -> bool)
    requires
        forall|i: int| 0 <= i < s.len() ==> (#[trigger] s[i]).len() > 0,
        forall|i: int, j: int| 0 <= i < s.len() && 0 <= j < s[i].len() ==> word_char(#[trigger] s[i][j]),
    ensures
        forall|i: int| 0 <= i < s.filter(f).len() ==> (#[trigger] s.filter(f)[i]).len() > 0,
        forall|i: int, j: int| 0 <= i < s.filter(f).len() && 0 <= j < s.filter(f)[i].len() ==> word_char(
            #[trigger] s.filter(f)[i][j],
        ),
    decreases s.len(),
{
    reveal(Seq::filter);
    if s.len() > 0 {
        let t = s.drop_last();
        assert forall|i: int| 0 <= i < t.len() implies (#[trigger] t[i]).len() > 0 by {
            assert(t[i] == s[i]);
        }
        assert forall|i: int, j: int| 0 <= i < t.len() && 0 <= j < t[i].len() implies word_char(#[trigger] t[i][j]) by {
            assert(t[i] == s[i]);
        }
        lemma_filter_words(t, f);
        let ft = t.filter(f);
        let w = s[s.len() - 1];
        if f(s.last()) {
            assert(s.filter(f) == ft.push(s.last()));
            assert forall|i: int| 0 <= i < ft.push(w).len() implies (#[trigger] ft.push(w)[i]).len() > 0 by {
                if i < ft.len() {
                    assert(ft.push(w)[i] == ft[i]);
                }
            }
            assert forall|i: int, j: int| 0 <= i < ft.push(w).len() && 0 <= j < ft.push(w)[i].len() implies word_char(
                #[trigger] ft.push(w)[i][j],
            ) by {
                if i < ft.len() {
                    assert(ft.push(w)[i] == ft[i]);
                }
            }
        } else {
            assert(s.filter(f) == ft);
        }
    }
}

proof fn lemma_filter_all(s: Seq<Seq<char>>, f: spec_fn(Seq<char>) -> bool)
    requires
        forall|i: int| 0 <= i < s.len() ==> f(#[trigger] s[i]),
    ensures
        s.filter(f) == s,
    decreases s.len(),
{
    reveal(Seq::filter);
    if s.len() > 0 {
        let t = s.drop_last();
        assert forall|i: int| 0 <= i < t.len() implies f(#[trigger] t[i]) by {
            assert(t[i] == s[i]);
        }
        lemma_filter_all(t, f);
        assert(f(s[s.len() - 1]));
        assert(t.push(s.last()) =~= s);
    } else {
        assert(s.filter(f) =~= s);
    }
}

/// Normalizing a normalized name changes nothing, and a normalized name is
/// made of its words: non-empty, free of noise words, of characters the
/// mapping keeps, joined by single spaces.
pub proof fn law_normalized_name_is_stable(raw: Seq<char>)
    ensures
        normalized_name(normalized_name(raw)) == normalized_name(raw),
        normalized_name(raw) == join_spaced(words(normalized_name(raw))),
        forall|i: int| 0 <= i < words(normalized_name(raw)).len() ==> !is_noise(#[trigger] words(normalized_name(raw))[i])
            && words(normalized_name(raw))[i].len() > 0,
        forall|k: int| 0 <= k < normalized_name(raw).len() ==> #[trigger] normalized_name(raw)[k] == ' ' || word_char(
            normalized_name(raw)[k],
        ),
        forall|k: int|
            0 <= k < normalized_name(raw).len() ==> #[trigger] normalized_name(raw)[k] == ' ' || (name_alphanumeric(
                normalized_name(raw)[k],
            ) && ascii_lower(normalized_name(raw)[k]) == normalized_name(raw)[k]),
{
    broadcast use vstd::seq_lib::group_filter_ensures;

    let mapped = raw.map_values(|c: char| name_char(c));
    assert forall|i: int| 0 <= i < mapped.len() implies is_white_space(#[trigger] mapped[i]) || word_char(mapped[i]) by {
        let c = raw[i];
        assert(mapped[i] == name_char(c));
        if name_alphanumeric(c) {
            let l = ascii_lower(c);
            if (c as u32) < 128 {
                assert(ascii_alphanumeric(l));
                assert((l as u32) < 128);
                assert(name_char(l) == l);
                assert(!is_white_space(l));
            } else {
                assert(l == c);
            }
        }
    }
    let keep = |w: Seq<char>| !is_noise(w);
    let all = words(mapped);
    let fw = all.filter(keep);
    lemma_words_chars(mapped);
    lemma_words_nonempty(mapped);
    lemma_filter_words(all, keep);
    assert forall|i: int| 0 <= i < fw.len() implies keep(#[trigger] fw[i]) by {
        all.lemma_filter_pred(keep, i);
    }
    let n = join_spaced(fw);
    assert(n == normalized_name(raw));
    lemma_join_chars(fw);
    lemma_words_join(fw);
    assert(n.map_values(|c: char| name_char(c)) =~= n) by {
        assert forall|k: int| 0 <= k < n.len() implies name_char(#[trigger] n[k]) == n[k] by {
            if n[k] == ' ' {
                assert(!name_alphanumeric(' '));
            }
        }
    }
    lemma_filter_all(fw, keep);
}

} // verus!
