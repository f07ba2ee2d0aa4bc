//! Character-level building blocks: prefixes, whitespace trimming, decimal and
//! hexadecimal rendering, and decimal parsing, each with its meaning stated
//! over `Seq<char>`.

use vstd::prelude::*;
use vstd::string::*;

verus! {

/// `String::push` appends the one character it is given to the end of the string.
pub assume_specification[ std::string::String::push ](s: &mut std::string::String, ch: char)
    ensures
        final(s)@ == old(s)@.push(ch),
;

/// `p` is a prefix of `s`.
pub open spec fn has_prefix(s: Seq<char>, p: Seq<char>) -> bool {
    &&& p.len() <= s.len()
    &&& forall|i: int| 0 <= i < p.len() ==> s[i] == p[i]
}

/// Whether `s` starts with `p`.
pub fn str_has_prefix(s: &str, p: &str) -> (r: bool)
    ensures
        r == has_prefix(s@, p@),
{
    let n = p.unicode_len();
    let m = s.unicode_len();
    if n > m {
        return false;
    }
    let mut i: usize = 0;
    while i < n
        invariant
            0 <= i <= n,
            n == p@.len(),
            m == s@.len(),
            n <= m,
            forall|j: int| 0 <= j < i ==> s@[j] == p@[j],
        decreases n - i,
    {
        if s.get_char(i) != p.get_char(i) {
            return false;
        }
        i = i + 1;
    }
    true
}

/// The characters of `s`, one per element.
pub fn chars_of(s: &str) -> (v: Vec<char>)
    ensures
        v@ == s@,
{
    let n = s.unicode_len();
    let mut v: Vec<char> = Vec::new();
    let mut i: usize = 0;
    while i < n
        invariant
            0 <= i <= n,
            n == s@.len(),
            v@ == s@.subrange(0, i as int),
        decreases n - i,
    {
        v.push(s.get_char(i));
        i = i + 1;
        assert(v@ =~= s@.subrange(0, i as int));
    }
    assert(s@.subrange(0, n as int) =~= s@);
    v
}

/// The string made of `chars`, in order.
pub fn string_of(chars: &[char]) -> (s: String)
    ensures
        s@ == chars@,
{
    let mut s = String::new();
    let mut i: usize = 0;
    while i < chars.len()
        invariant
            0 <= i <= chars@.len(),
            s@ == chars@.subrange(0, i as int),
        decreases chars@.len() - i,
    {
        s.push(chars[i]);
        i = i + 1;
        assert(s@ =~= chars@.subrange(0, i as int));
    }
    assert(chars@.subrange(0, chars@.len() as int) =~= chars@);
    s
}

/// The characters with the Unicode `White_Space` property, which is what
/// `char::is_whitespace`, `str::trim` and `str::split_whitespace` go by.
pub open spec fn is_white_space(c: char) -> bool {
    let v = c as u32;
    ||| 0x9 <= v <= 0xD
    ||| v == 0x20
    ||| v == 0x85
    ||| v == 0xA0
    ||| v == 0x1680
    ||| 0x2000 <= v <= 0x200A
    ||| v == 0x2028
    ||| v == 0x2029
    ||| v == 0x202F
    ||| v == 0x205F
    ||| v == 0x3000
}

/// Whether `c` is a Unicode white-space character.
pub fn char_is_white_space(c: char) -> (r: bool)
    ensures
        r == is_white_space(c),
{
    let v = c as u32;
    (0x9 <= v && v <= 0xD) || v == 0x20 || v == 0x85 || v == 0xA0 || v == 0x1680 || (0x2000 <= v
        && v <= 0x200A) || v == 0x2028 || v == 0x2029 || v == 0x202F || v == 0x205F || v == 0x3000
}

/// How many white-space characters `s` starts with.
pub open spec fn leading_white_space(s: Seq<char>) -> nat
    decreases s.len(),
{
    if s.len() > 0 && is_white_space(s[0]) {
        1 + leading_white_space(s.drop_first())
    } else {
        0
    }
}

/// How many white-space characters `s` ends with.
pub open spec fn trailing_white_space(s: Seq<char>) -> nat
    decreases s.len(),
{
    if s.len() > 0 && is_white_space(s.last()) {
        1 + trailing_white_space(s.drop_last())
    } else {
        0
    }
}

/// `s` without its leading and trailing white space (what `str::trim` gives).
pub open spec fn trim_white_space(s: Seq<char>) -> Seq<char> {
    if leading_white_space(s) == s.len() {
        Seq::empty()
    } else {
        s.subrange(leading_white_space(s) as int, s.len() - trailing_white_space(s))
    }
}

proof fn lemma_leading(s: Seq<char>, a: int)
    requires
        0 <= a <= s.len(),
        forall|j: int| 0 <= j < a ==> is_white_space(s[j]),
        a == s.len() || !is_white_space(s[a]),
    ensures
        leading_white_space(s) == a,
    decreases a,
{
    if a > 0 {
        lemma_leading(s.drop_first(), a - 1);
    }
}

proof fn lemma_trailing(s: Seq<char>, b: int, a: int)
    requires
        0 <= a <= b <= s.len(),
        forall|j: int| b <= j < s.len() ==> is_white_space(s[j]),
        b == a || !is_white_space(s[b - 1]),
        a < b || forall|j: int| 0 <= j < s.len() ==> is_white_space(s[j]),
    ensures
        a < b ==> trailing_white_space(s) == s.len() - b,
    decreases s.len() - b,
{
    if a < b && b < s.len() {
        lemma_trailing(s.drop_last(), b, a);
    }
}

proof fn lemma_leading_bound(s: Seq<char>)
    ensures
        leading_white_space(s) <= s.len(),
    decreases s.len(),
{
    if s.len() > 0 && is_white_space(s[0]) {
        lemma_leading_bound(s.drop_first());
    }
}

/// The characters of `v` without leading and trailing white space.
pub fn trim_chars(v: &[char]) -> (r: Vec<char>)
    ensures
        r@ == trim_white_space(v@),
{
    let n = v.len();
    let mut a: usize = 0;
    while a < n && char_is_white_space(v[a])
        invariant
            0 <= a <= n,
            n == v@.len(),
            forall|j: int| 0 <= j < a ==> is_white_space(v@[j]),
        decreases n - a,
    {
        a = a + 1;
    }
    proof {
        lemma_leading(v@, a as int);
    }
    let mut b: usize = n;
    while b > a && char_is_white_space(v[b - 1])
        invariant
            0 <= a <= b <= n,
            n == v@.len(),
            forall|j: int| b <= j < n ==> is_white_space(v@[j]),
        decreases b - a,
    {
        b = b - 1;
    }
    proof {
        lemma_trailing(v@, b as int, a as int);
    }
    let mut r: Vec<char> = Vec::new();
    let mut i: usize = a;
    while i < b
        invariant
            a <= i <= b,
            b <= n,
            n == v@.len(),
            r@ == v@.subrange(a as int, i as int),
        decreases b - i,
    {
        r.push(v[i]);
        i = i + 1;
        assert(r@ =~= v@.subrange(a as int, i as int));
    }
    if a == b {
        assert(r@ =~= Seq::<char>::empty());
    }
    r
}

/// The character that writes the hexadecimal digit `d` (`0`..`9`, then `a`..`f`).
pub open spec fn hex_char(d: int) -> char {
    if d == 0 {
        '0'
    } else if d == 1 {
        '1'
    } else if d == 2 {
        '2'
    } else if d == 3 {
        '3'
    } else if d == 4 {
        '4'
    } else if d == 5 {
        '5'
    } else if d == 6 {
        '6'
    } else if d == 7 {
        '7'
    } else if d == 8 {
        '8'
    } else if d == 9 {
        '9'
    } else if d == 10 {
        'a'
    } else if d == 11 {
        'b'
    } else if d == 12 {
        'c'
    } else if d == 13 {
        'd'
    } else if d == 14 {
        'e'
    } else {
        'f'
    }
}

/// The digit character for `d`.
pub fn digit_char(d: u8) -> (c: char)
    requires
        d < 16,
    ensures
        c == hex_char(d as int),
{
    match d {
        0 => '0',
        1 => '1',
        2 => '2',
        3 => '3',
        4 => '4',
        5 => '5',
        6 => '6',
        7 => '7',
        8 => '8',
        9 => '9',
        10 => 'a',
        11 => 'b',
        12 => 'c',
        13 => 'd',
        14 => 'e',
        _ => 'f',
    }
}

/// `n` written in decimal, without leading zeros (`0` is written `0`).
pub open spec fn decimal(n: nat) -> Seq<char>
    decreases n,
{
    if n < 10 {
        seq![hex_char(n as int)]
    } else {
        decimal(n / 10).push(hex_char((n % 10) as int))
    }
}

/// The low `width` hexadecimal digits of `n`, lower case, most significant first.
pub open spec fn hex_fixed(n: nat, width: nat) -> Seq<char>
    decreases width,
{
    if width == 0 {
        Seq::empty()
    } else {
        hex_fixed(n / 16, (width - 1) as nat).push(hex_char((n % 16) as int))
    }
}

/// Appends `n` in decimal.
pub fn push_decimal(s: &mut String, n: u64)
    ensures
        final(s)@ == old(s)@ + decimal(n as nat),
    decreases n,
{
    if n >= 10 {
        push_decimal(s, n / 10);
    }
    let c = digit_char((n % 10) as u8);
    s.push(c);
    proof {
        if n >= 10 {
            assert(final(s)@ =~= old(s)@ + decimal(n as nat));
        } else {
            assert(final(s)@ =~= old(s)@ + decimal(n as nat));
        }
    }
}

/// Appends the low `width` hexadecimal digits of `n`, lower case.
pub fn push_hex(s: &mut String, n: u128, width: u8)
    ensures
        final(s)@ == old(s)@ + hex_fixed(n as nat, width as nat),
    decreases width,
{
    if width > 0 {
        push_hex(s, n / 16, width - 1);
        let c = digit_char((n % 16) as u8);
        s.push(c);
        assert(final(s)@ =~= old(s)@ + hex_fixed(n as nat, width as nat));
    } else {
        assert(final(s)@ =~= old(s)@ + hex_fixed(n as nat, width as nat));
    }
}

/// An ASCII decimal digit.
pub open spec fn is_ascii_digit(c: char) -> bool {
    48 <= (c as u32) <= 57
}

/// The number that a run of ASCII digits spells.
pub open spec fn digits_value(s: Seq<char>) -> int
    decreases s.len(),
{
    if s.len() == 0 {
        0
    } else {
        digits_value(s.drop_last()) * 10 + ((s.last() as u32) - 48)
    }
}

/// The digits of an unsigned decimal: what follows one optional leading `+`.
pub open spec fn unsigned_digits(s: Seq<char>) -> Seq<char> {
    if s.len() > 0 && s[0] == '+' {
        s.drop_first()
    } else {
        s
    }
}

/// What `str::parse` gives for an unsigned integer type whose largest value is
/// `max`: an optional `+`, then at least one ASCII digit and nothing else, and a
/// value that fits.
pub open spec fn parse_unsigned(s: Seq<char>, max: int) -> Option<int> {
    let d = unsigned_digits(s);
    if d.len() > 0 && (forall|i: int| 0 <= i < d.len() ==> is_ascii_digit(d[i])) && digits_value(
        d,
    ) <= max {
        Some(digits_value(d))
    } else {
        None
    }
}

proof fn lemma_digits_nonneg(s: Seq<char>)
    requires
        forall|i: int| 0 <= i < s.len() ==> is_ascii_digit(s[i]),
    ensures
        digits_value(s) >= 0,
    decreases s.len(),
{
    if s.len() > 0 {
        lemma_digits_nonneg(s.drop_last());
    }
}

proof fn lemma_digits_prefix_le(s: Seq<char>, i: int)
    requires
        0 <= i <= s.len(),
        forall|j: int| 0 <= j < s.len() ==> is_ascii_digit(s[j]),
    ensures
        digits_value(s.subrange(0, i)) <= digits_value(s),
    decreases s.len(),
{
    if i < s.len() {
        lemma_digits_nonneg(s.drop_last());
        lemma_digits_prefix_le(s.drop_last(), i);
        assert(s.drop_last().subrange(0, i) =~= s.subrange(0, i));
    } else {
        assert(s.subrange(0, i) =~= s);
    }
}

/// Parses an unsigned decimal no larger than `max`, as `str::parse` does.
pub fn parse_unsigned_chars(s: &[char], max: u64) -> (r: Option<u64>)
    ensures
        match r {
            Some(v) => parse_unsigned(s@, max as int) == Some(v as int),
            None => parse_unsigned(s@, max as int) is None,
        },
{
    let n = s.len();
    let start: usize = if n > 0 && s[0] == '+' {
        1
    } else {
        0
    };
    let ghost d = unsigned_digits(s@);
    assert(d =~= s@.subrange(start as int, n as int));
    if start >= n {
        return None;
    }
    let mut acc: u64 = 0;
    let mut i: usize = start;
    while i < n
        invariant
            start <= i <= n,
            n == s@.len(),
            start < n,
            d == unsigned_digits(s@),
            d == s@.subrange(start as int, n as int),
            acc as int == digits_value(d.subrange(0, i - start)),
            acc <= max,
            forall|j: int| 0 <= j < i - start ==> is_ascii_digit(d[j]),
        decreases n - i,
    {
        let c = s[i];
        let v = c as u32;
        if v < 48 || v > 57 {
            assert(!is_ascii_digit(d[i - start]));
            assert(!(forall|j: int| 0 <= j < d.len() ==> is_ascii_digit(d[j])));
            assert(parse_unsigned(s@, max as int) is None);
            return None;
        }
        let digit: u64 = (v - 48) as u64;
        let ghost next = d.subrange(0, i + 1 - start);
        assert(next.drop_last() =~= d.subrange(0, i - start));
        assert(digits_value(next) == acc * 10 + digit);
        if digit > max || acc > (max - digit) / 10 {
            assert(acc * 10 + digit > max) by (nonlinear_arith)
                requires
                    digit > max || acc > (max - digit) / 10,
                    digit <= 9,
            ;
            proof {
                if forall|j: int| 0 <= j < d.len() ==> is_ascii_digit(d[j]) {
                    lemma_digits_prefix_le(d, i + 1 - start);
                    assert(digits_value(d) > max);
                }
                assert(parse_unsigned(s@, max as int) is None);
            }
            return None;
        }
        assert(acc * 10 + digit <= max) by (nonlinear_arith)
            requires
                acc <= (max - digit) / 10,
                digit <= max,
        ;
        acc = acc * 10 + digit;
        i = i + 1;
    }
    assert(d.subrange(0, n - start) =~= d);
    Some(acc)
}

proof fn lemma_digit_char(k: int)
    requires
        0 <= k < 10,
    ensures
        hex_char(k) as u32 == 48 + k,
{
    if k == 0 {
        assert('0' as u32 == 48);
    } else if k == 1 {
        assert('1' as u32 == 49);
    } else if k == 2 {
        assert('2' as u32 == 50);
    } else if k == 3 {
        assert('3' as u32 == 51);
    } else if k == 4 {
        assert('4' as u32 == 52);
    } else if k == 5 {
        assert('5' as u32 == 53);
    } else if k == 6 {
        assert('6' as u32 == 54);
    } else if k == 7 {
        assert('7' as u32 == 55);
    } else if k == 8 {
        assert('8' as u32 == 56);
    } else {
        assert('9' as u32 == 57);
    }
}

/// `decimal(n)` is a non-empty run of ASCII digits spelling `n`.
pub proof fn lemma_decimal_digits(n: nat)
    ensures
        decimal(n).len() > 0,
        forall|i: int| 0 <= i < decimal(n).len() ==> is_ascii_digit(#[trigger] decimal(n)[i]),
        digits_value(decimal(n)) == n,
    decreases n,
{
    lemma_digit_char((n % 10) as int);
    if n < 10 {
        assert(decimal(n) =~= seq![hex_char(n as int)]);
        assert(decimal(n).drop_last() =~= Seq::<char>::empty());
        assert(digits_value(decimal(n)) == digits_value(decimal(n).drop_last()) * 10 + ((decimal(n).last() as u32) - 48));
        assert(decimal(n).last() == hex_char(n as int));
    } else {
        lemma_decimal_digits(n / 10);
        let d = decimal(n / 10);
        let last = hex_char((n % 10) as int);
        assert(decimal(n) == d.push(last));
        assert(d.push(last).drop_last() =~= d);
        assert(digits_value(decimal(n)) == digits_value(d) * 10 + ((last as u32) - 48));
        assert((n / 10) * 10 + n % 10 == n);
        assert forall|i: int| 0 <= i < decimal(n).len() implies is_ascii_digit(#[trigger] decimal(n)[i]) by {
            if i < d.len() {
                assert(decimal(n)[i] == d[i]);
            }
        }
    }
}

/// A decimal followed by a newline, trimmed, is the decimal again.
pub proof fn lemma_trim_decimal_line(n: nat)
    ensures
        trim_white_space(decimal(n) + seq!['\n']) == decimal(n),
{
    lemma_decimal_digits(n);
    let d = decimal(n);
    let s = d + seq!['\n'];
    assert(s[0] == d[0]);
    assert(is_ascii_digit(d[0]));
    lemma_leading(s, 0);
    assert(s[s.len() - 2] == d[d.len() - 1]);
    assert(is_ascii_digit(d[d.len() - 1]));
    lemma_trailing(s, s.len() - 1, 0);
    assert(s.subrange(0, s.len() - 1) =~= d);
}

} // verus!
