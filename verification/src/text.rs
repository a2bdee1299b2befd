//! Text helpers over character sequences: conversion between `String` and
//! `Vec<char>`, decimal and hexadecimal numerals, splitting, searching and
//! trimming.

use vstd::prelude::*;

verus! {

/// Appends one character through `String::push`.
/// The contract claims what the standard library documents: the character is
/// added at the end.
#[verifier::external_body]
pub(crate) fn push_char(s: &mut String, c: char)
    ensures
        final(s)@ == old(s)@.push(c),
{
    s.push(c);
}

/// The characters of `s`.
pub fn chars_of(s: &str) -> (r: Vec<char>)
    ensures
        r@ == s@,
{
    let n = s.unicode_len();
    let mut r: Vec<char> = Vec::new();
    let mut i: usize = 0;
    while i < n
        invariant
            n == s@.len(),
            i <= n,
            r@ == s@.subrange(0, i as int),
        decreases n - i,
    {
        r.push(s.get_char(i));
        i = i + 1;
        assert(r@ =~= s@.subrange(0, i as int));
    }
    assert(r@ =~= s@);
    r
}

/// The string made of `cs`.
pub fn string_of(cs: &[char]) -> (r: String)
    ensures
        r@ == cs@,
{
    let mut r = String::new();
    let mut i: usize = 0;
    while i < cs.len()
        invariant
            i <= cs@.len(),
            r@ == cs@.subrange(0, i as int),
        decreases cs@.len() - i,
    {
        push_char(&mut r, cs[i]);
        i = i + 1;
        assert(r@ =~= cs@.subrange(0, i as int));
    }
    assert(r@ =~= cs@);
    r
}

/// Appends the characters of `s`.
pub fn push_str_chars(out: &mut Vec<char>, s: &str)
    ensures
        final(out)@ == old(out)@ + s@,
{
    let cs = chars_of(s);
    push_chars(out, cs.as_slice());
}

/// Appends `cs`.
pub fn push_chars(out: &mut Vec<char>, cs: &[char])
    ensures
        final(out)@ == old(out)@ + cs@,
{
    let ghost start = out@;
    let mut i: usize = 0;
    while i < cs.len()
        invariant
            i <= cs@.len(),
            out@ == start + cs@.subrange(0, i as int),
        decreases cs@.len() - i,
    {
        out.push(cs[i]);
        i = i + 1;
        assert(out@ =~= start + cs@.subrange(0, i as int));
    }
    assert(cs@.subrange(0, i as int) =~= cs@);
}

/// `a` and `b` hold the same text.
pub fn chars_eq(a: &[char], b: &[char]) -> (r: bool)
    ensures
        r == (a@ == b@),
{
    if a.len() != b.len() {
        return false;
    }
    let mut i: usize = 0;
    while i < a.len()
        invariant
            a@.len() == b@.len(),
            i <= a@.len(),
            forall|j: int| 0 <= j < i ==> a@[j] == b@[j],
        decreases a@.len() - i,
    {
        if a[i] != b[i] {
            return false;
        }
        i = i + 1;
    }
    assert(a@ =~= b@);
    true
}

/// `a` and `b` hold the same text.
pub fn str_eq(a: &str, b: &str) -> (r: bool)
    ensures
        r == (a@ == b@),
{
    let x = chars_of(a);
    let y = chars_of(b);
    chars_eq(x.as_slice(), y.as_slice())
}

pub open spec fn is_digit(c: char) -> bool {
    '0' <= c <= '9'
}

pub open spec fn digit_value(c: char) -> int {
    c as int - '0' as int
}

pub open spec fn digit_char(d: int) -> char {
    (d + '0' as int) as char
}

/// Value of a hexadecimal digit (either case), if `c` is one.
pub open spec fn hex_value(c: char) -> Option<int> {
    if '0' <= c <= '9' {
        Some(c as int - '0' as int)
    } else if 'a' <= c <= 'f' {
        Some(c as int - 'a' as int + 10)
    } else if 'A' <= c <= 'F' {
        Some(c as int - 'A' as int + 10)
    } else {
        None
    }
}

/// The lower-case hexadecimal digit for `d < 16`.
pub open spec fn hex_char(d: int) -> char {
    if d < 10 {
        (d + '0' as int) as char
    } else {
        (d - 10 + 'a' as int) as char
    }
}

/// Decimal numeral of `n`, without leading zeros.
pub open spec fn dec_text(n: nat) -> Seq<char>
    decreases n,
{
    if n < 10 {
        seq![digit_char(n as int)]
    } else {
        dec_text(n / 10).push(digit_char((n % 10) as int))
    }
}

/// Lower-case hexadecimal numeral of `n`, without leading zeros.
pub open spec fn hex_text(n: nat) -> Seq<char>
    decreases n,
{
    if n < 16 {
        seq![hex_char(n as int)]
    } else {
        hex_text(n / 16).push(hex_char((n % 16) as int))
    }
}

/// All characters are ASCII digits.
pub open spec fn all_digits(s: Seq<char>) -> bool {
    forall|i: int| 0 <= i < s.len() ==> is_digit(#[trigger] s[i])
}

/// Value of a string of decimal digits.
pub open spec fn dec_value(s: Seq<char>) -> nat
    decreases s.len(),
{
    if s.len() == 0 {
        0
    } else {
        (dec_value(s.drop_last()) * 10 + digit_value(s.last())) as nat
    }
}

/// Value of a string of hexadecimal digits.
pub open spec fn hex_seq_value(s: Seq<char>) -> nat
    decreases s.len(),
{
    if s.len() == 0 {
        0
    } else {
        (hex_seq_value(s.drop_last()) * 16 + hex_value(s.last()).unwrap_or(0)) as nat
    }
}

pub open spec fn all_hex(s: Seq<char>) -> bool {
    forall|i: int| 0 <= i < s.len() ==> (#[trigger] hex_value(s[i])) is Some
}

pub proof fn lemma_dec_text_digits(n: nat)
    ensures
        all_digits(dec_text(n)),
        dec_value(dec_text(n)) == n,
        1 <= dec_text(n).len(),
        n < 10 <==> dec_text(n).len() == 1,
        n >= 10 ==> dec_text(n)[0] != '0',
    decreases n,
{
    if n >= 10 {
        lemma_dec_text_digits(n / 10);
        let t = dec_text(n);
        assert(t.drop_last() =~= dec_text(n / 10));
        assert(t[0] == dec_text(n / 10)[0]);
        assert(t.last() == digit_char((n % 10) as int));
        assert(dec_value(t) == dec_value(t.drop_last()) * 10 + digit_value(t.last()));
        assert(all_digits(t)) by {
            assert forall|i: int| 0 <= i < t.len() implies is_digit(#[trigger] t[i]) by {
                if i < t.len() - 1 {
                    assert(t[i] == dec_text(n / 10)[i]);
                }
            }
        }
    } else {
        let t = dec_text(n);
        assert(t.drop_last() =~= Seq::<char>::empty());
        assert(dec_value(t) == dec_value(t.drop_last()) * 10 + digit_value(t.last()));
    }
}

pub proof fn lemma_dec_text_len(n: nat)
    ensures
        n < 100 ==> dec_text(n).len() <= 2,
        n < 1000 ==> dec_text(n).len() <= 3,
    decreases n,
{
    lemma_dec_text_digits(n);
    if n >= 10 {
        lemma_dec_text_len(n / 10);
    }
}

/// A numeral holds only digits, so no other character.
pub proof fn lemma_dec_text_lacks(n: nat, c: char)
    requires
        !is_digit(c),
    ensures
        !dec_text(n).contains(c),
{
    lemma_dec_text_digits(n);
    if dec_text(n).contains(c) {
        let j = choose|j: int| 0 <= j < dec_text(n).len() && dec_text(n)[j] == c;
        assert(is_digit(dec_text(n)[j]));
    }
}

pub proof fn lemma_hex_text_digits(n: nat)
    ensures
        all_hex(hex_text(n)),
        hex_seq_value(hex_text(n)) == n,
        1 <= hex_text(n).len(),
        n < 16 <==> hex_text(n).len() == 1,
        n >= 16 ==> hex_text(n)[0] != '0',
        n < 0x100 ==> hex_text(n).len() <= 2,
        n < 0x1000 ==> hex_text(n).len() <= 3,
        n < 0x10000 ==> hex_text(n).len() <= 4,
    decreases n,
{
    if n >= 16 {
        lemma_hex_text_digits(n / 16);
        let t = hex_text(n);
        assert(t.drop_last() =~= hex_text(n / 16));
        assert(t[0] == hex_text(n / 16)[0]);
        assert(t.last() == hex_char((n % 16) as int));
        assert(hex_value(hex_char((n % 16) as int)) == Some((n % 16) as int));
        assert(hex_seq_value(t) == hex_seq_value(t.drop_last()) * 16 + hex_value(
            t.last(),
        ).unwrap_or(0));
        assert(all_hex(t)) by {
            assert forall|i: int| 0 <= i < t.len() implies (#[trigger] hex_value(t[i])) is Some by {
                if i < t.len() - 1 {
                    assert(t[i] == hex_text(n / 16)[i]);
                }
            }
        }
    } else {
        let t = hex_text(n);
        assert(hex_value(hex_char(n as int)) == Some(n as int));
        assert(t.drop_last() =~= Seq::<char>::empty());
        assert(hex_seq_value(t) == hex_seq_value(t.drop_last()) * 16 + hex_value(
            t.last(),
        ).unwrap_or(0));
    }
}

/// Appends the decimal numeral of `n`.
pub fn push_decimal(out: &mut Vec<char>, n: u64)
    ensures
        final(out)@ == old(out)@ + dec_text(n as nat),
    decreases n,
{
    if n >= 10 {
        push_decimal(out, n / 10);
    }
    let d = (n % 10) as u32;
    let c = char_from_digit(d);
    out.push(c);
    assert(final(out)@ =~= old(out)@ + dec_text(n as nat));
}

/// Appends the lower-case hexadecimal numeral of `n`.
pub fn push_hex(out: &mut Vec<char>, n: u64)
    ensures
        final(out)@ == old(out)@ + hex_text(n as nat),
    decreases n,
{
    if n >= 16 {
        push_hex(out, n / 16);
    }
    let d = (n % 16) as u32;
    let c = if d < 10 {
        char_from_digit(d)
    } else {
        char_from_hex_letter(d - 10)
    };
    out.push(c);
    assert(final(out)@ =~= old(out)@ + hex_text(n as nat));
}

fn char_from_digit(d: u32) -> (c: char)
    requires
        d < 10,
    ensures
        c == digit_char(d as int),
{
    if d == 0 {
        '0'
    } else if d == 1 {
        '1'
    } else if d == 2 {
        '2'
    } else if d == 3 {
        '3'
    } else if d == 4 {
        '4'
    } else if d == 5 {
        '5'
    } else if d == 6 {
        '6'
    } else if d == 7 {
        '7'
    } else if d == 8 {
        '8'
    } else {
        '9'
    }
}

fn char_from_hex_letter(d: u32) -> (c: char)
    requires
        d < 6,
    ensures
        c == hex_char(d + 10),
{
    if d == 0 {
        'a'
    } else if d == 1 {
        'b'
    } else if d == 2 {
        'c'
    } else if d == 3 {
        'd'
    } else if d == 4 {
        'e'
    } else {
        'f'
    }
}

/// Value of the digit `c`, if it is a decimal digit.
pub fn digit_of(c: char) -> (r: Option<u32>)
    ensures
        r is Some <==> is_digit(c),
        r matches Some(d) ==> d == digit_value(c) && d < 10,
{
    if '0' <= c && c <= '9' {
        Some((c as u32) - ('0' as u32))
    } else {
        None
    }
}

/// Value of the hexadecimal digit `c`, if it is one.
pub fn hex_digit_of(c: char) -> (r: Option<u32>)
    ensures
        r is Some <==> hex_value(c) is Some,
        r matches Some(d) ==> d == hex_value(c).unwrap() && d < 16,
{
    if '0' <= c && c <= '9' {
        Some((c as u32) - ('0' as u32))
    } else if 'a' <= c && c <= 'f' {
        Some((c as u32) - ('a' as u32) + 10)
    } else if 'A' <= c && c <= 'F' {
        Some((c as u32) - ('A' as u32) + 10)
    } else {
        None
    }
}

/// The value of a digit string, if it does not exceed `max`.
pub open spec fn digits_within(s: Seq<char>, max: nat) -> Option<nat> {
    if s.len() > 0 && all_digits(s) && dec_value(s) <= max {
        Some(dec_value(s))
    } else {
        None
    }
}

pub proof fn lemma_dec_value_monotone(s: Seq<char>, i: int)
    requires
        0 <= i <= s.len(),
        all_digits(s),
    ensures
        dec_value(s.subrange(0, i)) <= dec_value(s),
    decreases s.len() - i,
{
    if i < s.len() {
        lemma_dec_value_monotone(s, i + 1);
        let t = s.subrange(0, i + 1);
        assert(t.drop_last() =~= s.subrange(0, i));
        assert(is_digit(s[i]));
        assert(t.last() == s[i]);
        assert(dec_value(t) == dec_value(t.drop_last()) * 10 + digit_value(t.last()));
    } else {
        assert(s.subrange(0, i) =~= s);
    }
}

/// The value of the non-empty digit string `s`, if it is at most `max`
/// (no sign, any number of leading zeros).
pub fn parse_digits(s: &[char], max: u64) -> (r: Option<u64>)
    ensures
        match r {
            Some(v) => digits_within(s@, max as nat) == Some(v as nat),
            None => digits_within(s@, max as nat) is None,
        },
{
    if s.len() == 0 {
        return None;
    }
    let mut v: u64 = 0;
    let mut i: usize = 0;
    while i < s.len()
        invariant
            i <= s@.len(),
            all_digits(s@.subrange(0, i as int)),
            v == dec_value(s@.subrange(0, i as int)),
            v <= max,
        decreases s@.len() - i,
    {
        let ghost prefix = s@.subrange(0, i as int + 1);
        assert(prefix.drop_last() =~= s@.subrange(0, i as int));
        match digit_of(s[i]) {
            None => {
                assert(!all_digits(s@));
                return None;
            },
            Some(d) => {
                assert(prefix.last() == s@[i as int]);
                assert(dec_value(prefix) == v * 10 + d);
                if d as u64 > max || v > (max - d as u64) / 10 {
                    proof {
                        assert(dec_value(prefix) > max) by (nonlinear_arith)
                            requires
                                dec_value(prefix) == v * 10 + d,
                                d > max || v > (max - d) / 10,
                                v >= 0,
                        ;
                    }
                    proof {
                        if all_digits(s@) {
                            lemma_dec_value_monotone(s@, i as int + 1);
                        }
                    }
                    return None;
                }
                proof {
                    assert(v * 10 + d <= max) by (nonlinear_arith)
                        requires
                            v <= (max - d) / 10,
                            d <= max,
                    ;
                }
                v = v * 10 + d as u64;
                i = i + 1;
                assert(all_digits(s@.subrange(0, i as int))) by {
                    assert forall|j: int| 0 <= j < i implies is_digit(
                        #[trigger] s@.subrange(0, i as int)[j],
                    ) by {
                        if j < i - 1 {
                            assert(s@.subrange(0, i as int)[j] == s@.subrange(
                                0,
                                i as int - 1,
                            )[j]);
                        }
                    }
                }
            },
        }
    }
    assert(s@.subrange(0, i as int) =~= s@);
    Some(v)
}

/// What `str::parse` reads as an unsigned integer of at most `max`: an
/// optional leading '+' and then one or more decimal digits.
pub open spec fn std_unsigned_value(s: Seq<char>, max: nat) -> Option<nat> {
    if s.len() > 0 && s[0] == '+' {
        digits_within(s.drop_first(), max)
    } else {
        digits_within(s, max)
    }
}

/// Parses `s` the way `str::parse::<u16>` / `str::parse::<u32>` do, for the
/// given maximum.
pub fn parse_unsigned(s: &[char], max: u64) -> (r: Option<u64>)
    ensures
        match r {
            Some(v) => std_unsigned_value(s@, max as nat) == Some(v as nat),
            None => std_unsigned_value(s@, max as nat) is None,
        },
{
    if s.len() > 0 && s[0] == '+' {
        let rest = tail_from(s, 1);
        assert(rest@ =~= s@.drop_first());
        parse_digits(rest.as_slice(), max)
    } else {
        parse_digits(s, max)
    }
}

/// `s[from..]`.
pub fn tail_from(s: &[char], from: usize) -> (r: Vec<char>)
    requires
        from <= s@.len(),
    ensures
        r@ == s@.subrange(from as int, s@.len() as int),
{
    slice_chars(s, from, s.len())
}

/// `s[from..to]`.
pub fn slice_chars(s: &[char], from: usize, to: usize) -> (r: Vec<char>)
    requires
        from <= to <= s@.len(),
    ensures
        r@ == s@.subrange(from as int, to as int),
{
    let mut r: Vec<char> = Vec::new();
    let mut i = from;
    while i < to
        invariant
            from <= i <= to <= s@.len(),
            r@ == s@.subrange(from as int, i as int),
        decreases to - i,
    {
        r.push(s[i]);
        i = i + 1;
        assert(r@ =~= s@.subrange(from as int, i as int));
    }
    r
}

/// The parts of `s` between occurrences of `sep`: one more part than there
/// are separators, empty parts included.
pub open spec fn split(s: Seq<char>, sep: char) -> Seq<Seq<char>>
    decreases s.len(),
{
    if s.len() == 0 {
        seq![Seq::<char>::empty()]
    } else {
        let p = split(s.drop_last(), sep);
        if s.last() == sep {
            p.push(Seq::<char>::empty())
        } else {
            p.update(p.len() - 1, p.last().push(s.last()))
        }
    }
}

pub proof fn lemma_split_nonempty(s: Seq<char>, sep: char)
    ensures
        split(s, sep).len() >= 1,
    decreases s.len(),
{
    if s.len() > 0 {
        lemma_split_nonempty(s.drop_last(), sep);
    }
}

/// The texts held by a vector of character vectors.
pub open spec fn texts(v: Seq<Vec<char>>) -> Seq<Seq<char>> {
    Seq::new(v.len(), |i: int| v[i]@)
}

/// Text without `sep` is one part.
pub proof fn lemma_split_no_sep(s: Seq<char>, sep: char)
    requires
        !s.contains(sep),
    ensures
        split(s, sep) == seq![s],
    decreases s.len(),
{
    if s.len() > 0 {
        let t = s.drop_last();
        assert(!t.contains(sep)) by {
            if t.contains(sep) {
                let j = choose|j: int| 0 <= j < t.len() && t[j] == sep;
                assert(s[j] == sep);
            }
        }
        lemma_split_no_sep(t, sep);
        assert(s.last() != sep) by {
            assert(s[s.len() - 1] == s.last());
        }
        assert(t.push(s.last()) =~= s);
        assert(split(s, sep) =~= seq![s]);
    } else {
        assert(s =~= Seq::<char>::empty());
        assert(split(s, sep) =~= seq![s]);
    }
}

/// Splitting `x`, a separator, `y` gives the parts of `x` then those of `y`.
pub proof fn lemma_split_concat(x: Seq<char>, sep: char, y: Seq<char>)
    ensures
        split(x + seq![sep] + y, sep) == split(x, sep) + split(y, sep),
    decreases y.len(),
{
    lemma_split_nonempty(x, sep);
    if y.len() == 0 {
        assert((x + seq![sep] + y).drop_last() =~= x);
        assert(split(x + seq![sep] + y, sep) =~= split(x, sep) + split(y, sep));
    } else {
        let y0 = y.drop_last();
        lemma_split_concat(x, sep, y0);
        lemma_split_nonempty(y0, sep);
        let s = x + seq![sep] + y;
        assert(s.drop_last() =~= x + seq![sep] + y0);
        assert(s.last() == y.last());
        assert(split(s, sep) =~= split(x, sep) + split(y, sep));
    }
}

/// Splits `s` at every `sep`.
pub fn split_chars(s: &[char], sep: char) -> (r: Vec<Vec<char>>)
    ensures
        texts(r@) == split(s@, sep),
{
    let mut parts: Vec<Vec<char>> = Vec::new();
    let mut cur: Vec<char> = Vec::new();
    let mut i: usize = 0;
    while i < s.len()
        invariant
            i <= s@.len(),
            texts(parts@).push(cur@) == split(s@.subrange(0, i as int), sep),
        decreases s@.len() - i,
    {
        let ghost pre = s@.subrange(0, i as int);
        let ghost next = s@.subrange(0, i as int + 1);
        assert(next.drop_last() =~= pre);
        proof {
            lemma_split_nonempty(pre, sep);
        }
        let c = s[i];
        if c == sep {
            let mut done: Vec<char> = Vec::new();
            std::mem::swap(&mut done, &mut cur);
            let ghost old_parts = texts(parts@);
            parts.push(done);
            assert(texts(parts@) =~= old_parts.push(done@));
            assert(texts(parts@).push(cur@) =~= split(next, sep));
        } else {
            let ghost old_cur = cur@;
            cur.push(c);
            assert(texts(parts@).push(cur@) =~= split(next, sep));
        }
        i = i + 1;
    }
    assert(s@.subrange(0, i as int) =~= s@);
    let ghost old_parts = texts(parts@);
    parts.push(cur);
    assert(texts(parts@) =~= old_parts.push(cur@));
    parts
}

/// `s` holds `c` somewhere.
pub fn contains_char(s: &[char], c: char) -> (r: bool)
    ensures
        r == s@.contains(c),
{
    let mut i: usize = 0;
    while i < s.len()
        invariant
            i <= s@.len(),
            forall|j: int| 0 <= j < i ==> s@[j] != c,
        decreases s@.len() - i,
    {
        if s[i] == c {
            assert(s@[i as int] == c);
            return true;
        }
        i = i + 1;
    }
    false
}

/// `pattern` occurs in `s` starting at `i`.
pub open spec fn occurs_at(s: Seq<char>, pattern: Seq<char>, i: int) -> bool {
    0 <= i && i + pattern.len() <= s.len() && s.subrange(i, i + pattern.len()) == pattern
}

/// `pattern` occurs somewhere in `s` (the empty pattern always does).
pub open spec fn contains_text(s: Seq<char>, pattern: Seq<char>) -> bool {
    exists|i: int| #[trigger] occurs_at(s, pattern, i)
}

/// Whether `pattern` occurs in `s`, as `str::contains` answers.
pub fn contains_chars(s: &[char], pattern: &[char]) -> (r: bool)
    ensures
        r == contains_text(s@, pattern@),
{
    if pattern.len() == 0 {
        assert(s@.subrange(0, 0) =~= pattern@);
        assert(occurs_at(s@, pattern@, 0));
        return true;
    }
    if pattern.len() > s.len() {
        assert forall|i: int| !occurs_at(s@, pattern@, i) by {}
        return false;
    }
    let last = s.len() - pattern.len();
    let mut i: usize = 0;
    while i <= last
        invariant
            last == s@.len() - pattern@.len(),
            pattern@.len() >= 1,
            last < usize::MAX,
            last + pattern.len() == s.len(),
            i <= last + 1,
            forall|j: int| 0 <= j < i ==> !occurs_at(s@, pattern@, j),
        decreases last + 1 - i,
    {
        let mut k: usize = 0;
        let mut same = true;
        while k < pattern.len()
            invariant
                i <= last,
                last == s@.len() - pattern@.len(),
                k <= pattern@.len(),
                i + pattern.len() <= s.len(),
                same == (forall|m: int| 0 <= m < k ==> s@[i + m] == pattern@[m]),
            decreases pattern@.len() - k,
        {
            if s[i + k] != pattern[k] {
                same = false;
            }
            k = k + 1;
        }
        if same {
            assert(s@.subrange(i as int, i + pattern@.len()) =~= pattern@);
            assert(occurs_at(s@, pattern@, i as int));
            return true;
        }
        assert(!occurs_at(s@, pattern@, i as int)) by {
            if s@.subrange(i as int, i + pattern@.len()) == pattern@ {
                let m = choose|m: int| 0 <= m < pattern@.len() && s@[i + m] != pattern@[m];
                assert(s@.subrange(i as int, i + pattern@.len())[m] == s@[i + m]);
            }
        }
        i = i + 1;
    }
    assert forall|j: int| !occurs_at(s@, pattern@, j) by {
        if 0 <= j < i {
        }
    }
    false
}

/// Whether `pattern` occurs in `s`.
pub fn str_contains(s: &str, pattern: &str) -> (r: bool)
    ensures
        r == contains_text(s@, pattern@),
{
    let a = chars_of(s);
    let b = chars_of(pattern);
    contains_chars(a.as_slice(), b.as_slice())
}

/// The characters `char::is_whitespace` answers true for: those with the
/// Unicode White_Space property.
pub open spec fn is_white_space(c: char) -> bool {
    ||| '\u{9}' <= c <= '\u{d}'
    ||| c == ' '
    ||| c == '\u{85}'
    ||| c == '\u{a0}'
    ||| c == '\u{1680}'
    ||| '\u{2000}' <= c <= '\u{200a}'
    ||| c == '\u{2028}'
    ||| c == '\u{2029}'
    ||| c == '\u{202f}'
    ||| c == '\u{205f}'
    ||| c == '\u{3000}'
}

pub fn white_space(c: char) -> (r: bool)
    ensures
        r == is_white_space(c),
{
    ('\u{9}' <= c && c <= '\u{d}') || c == ' ' || c == '\u{85}' || c == '\u{a0}' || c
        == '\u{1680}' || ('\u{2000}' <= c && c <= '\u{200a}') || c == '\u{2028}' || c
        == '\u{2029}' || c == '\u{202f}' || c == '\u{205f}' || c == '\u{3000}'
}

/// Number of white-space characters at the start of `s`.
pub open spec fn leading_ws(s: Seq<char>) -> nat
    decreases s.len(),
{
    if s.len() > 0 && is_white_space(s[0]) {
        1 + leading_ws(s.drop_first())
    } else {
        0
    }
}

/// Number of white-space characters at the end of `s`.
pub open spec fn trailing_ws(s: Seq<char>) -> nat
    decreases s.len(),
{
    if s.len() > 0 && is_white_space(s.last()) {
        1 + trailing_ws(s.drop_last())
    } else {
        0
    }
}

/// `str::trim`: the text without its leading and trailing white space.
pub open spec fn trim(s: Seq<char>) -> Seq<char> {
    let t = s.skip(leading_ws(s) as int);
    t.take(t.len() - trailing_ws(t))
}

pub proof fn lemma_leading_ws(s: Seq<char>, k: int)
    requires
        0 <= k <= s.len(),
        forall|j: int| 0 <= j < k ==> is_white_space(#[trigger] s[j]),
        k == s.len() || !is_white_space(s[k]),
    ensures
        leading_ws(s) == k,
    decreases k,
{
    if k > 0 {
        let t = s.drop_first();
        assert forall|j: int| 0 <= j < k - 1 implies is_white_space(#[trigger] t[j]) by {
            assert(t[j] == s[j + 1]);
        }
        if k - 1 < t.len() {
            assert(t[k - 1] == s[k]);
        }
        lemma_leading_ws(t, k - 1);
    }
}

pub proof fn lemma_trailing_ws(s: Seq<char>, k: int)
    requires
        0 <= k <= s.len(),
        forall|j: int| s.len() - k <= j < s.len() ==> is_white_space(#[trigger] s[j]),
        k == s.len() || !is_white_space(s[s.len() - k - 1]),
    ensures
        trailing_ws(s) == k,
    decreases k,
{
    if k > 0 {
        let t = s.drop_last();
        assert forall|j: int| t.len() - (k - 1) <= j < t.len() implies is_white_space(
            #[trigger] t[j],
        ) by {
            assert(t[j] == s[j]);
        }
        if k - 1 < t.len() {
            assert(t[t.len() - (k - 1) - 1] == s[s.len() - k - 1]);
        }
        lemma_trailing_ws(t, k - 1);
    }
}

/// Trims white space at both ends.
pub fn trim_chars(s: &[char]) -> (r: Vec<char>)
    ensures
        r@ == trim(s@),
{
    let mut lo: usize = 0;
    while lo < s.len() && white_space(s[lo])
        invariant
            lo <= s@.len(),
            forall|j: int| 0 <= j < lo ==> is_white_space(#[trigger] s@[j]),
        decreases s@.len() - lo,
    {
        lo = lo + 1;
    }
    proof {
        lemma_leading_ws(s@, lo as int);
    }
    let ghost t = s@.skip(lo as int);
    let mut hi: usize = s.len();
    while hi > lo && white_space(s[hi - 1])
        invariant
            lo <= hi <= s@.len(),
            forall|j: int| hi <= j < s@.len() ==> is_white_space(#[trigger] s@[j]),
        decreases hi,
    {
        hi = hi - 1;
    }
    proof {
        let k = s@.len() - hi;
        assert forall|j: int| t.len() - k <= j < t.len() implies is_white_space(#[trigger] t[j]) by {
            assert(t[j] == s@[j + lo]);
        }
        if k < t.len() {
            assert(t[t.len() - k - 1] == s@[hi - 1]);
        }
        lemma_trailing_ws(t, k);
        assert(t.take(t.len() - k) =~= s@.subrange(lo as int, hi as int));
    }
    slice_chars(s, lo, hi)
}

/// Trims white space at both ends of `s`.
pub fn trim_str(s: &str) -> (r: Vec<char>)
    ensures
        r@ == trim(s@),
{
    let cs = chars_of(s);
    trim_chars(cs.as_slice())
}

} // verus!
