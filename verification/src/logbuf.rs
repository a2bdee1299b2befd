//! The control panel's log: lines tagged with their source, of which only
//! the most recent 16 KiB (of UTF-8 text) are kept.

use vstd::prelude::*;
use vstd::utf8::*;

use crate::text::{chars_of, string_of};

verus! {

broadcast use vstd::utf8::group_utf8_lib;

/// At most this many bytes of UTF-8 text are kept.
pub const LOG_LIMIT: usize = 16384;

/// Bytes of the UTF-8 encoding of `c`.
pub open spec fn char_width(c: char) -> nat {
    encode_scalar(c as u32).len()
}

/// Bytes of the UTF-8 encoding of `s`.
pub open spec fn utf8_len(s: Seq<char>) -> nat {
    encode_utf8(s).len()
}

pub proof fn lemma_encode_concat(a: Seq<char>, b: Seq<char>)
    ensures
        encode_utf8(a + b) == encode_utf8(a) + encode_utf8(b),
    decreases a.len(),
{
    if a.len() == 0 {
        assert(a + b =~= b);
        assert(encode_utf8(a) =~= Seq::<u8>::empty());
        assert(encode_utf8(a) + encode_utf8(b) =~= encode_utf8(b));
    } else {
        lemma_encode_concat(a.drop_first(), b);
        assert((a + b).drop_first() =~= a.drop_first() + b);
        assert((a + b)[0] == a[0]);
        assert(encode_utf8(a + b) =~= encode_utf8(a) + encode_utf8(b));
    }
}

pub proof fn lemma_utf8_len_push(s: Seq<char>, c: char)
    ensures
        utf8_len(s.push(c)) == utf8_len(s) + char_width(c),
{
    lemma_encode_concat(s, seq![c]);
    assert(s.push(c) =~= s + seq![c]);
    assert(seq![c].drop_first() =~= Seq::<char>::empty());
    assert(encode_utf8(Seq::<char>::empty()) =~= Seq::<u8>::empty());
    assert(encode_utf8(seq![c]) == encode_scalar(seq![c][0] as u32) + encode_utf8(
        seq![c].drop_first(),
    ));
    assert(encode_utf8(seq![c]) =~= encode_scalar(c as u32));
}

pub proof fn lemma_utf8_len_split(s: Seq<char>, k: int)
    requires
        0 <= k <= s.len(),
    ensures
        utf8_len(s) == utf8_len(s.take(k)) + utf8_len(s.skip(k)),
{
    lemma_encode_concat(s.take(k), s.skip(k));
    assert(s.take(k) + s.skip(k) =~= s);
}

/// Byte width of one character, as `char::len_utf8` counts it.
pub fn utf8_width(c: char) -> (n: usize)
    ensures
        n == char_width(c),
        1 <= n <= 4,
{
    let v = c as u32;
    if v < 0x80 {
        1
    } else if v < 0x800 {
        2
    } else if v < 0x10000 {
        3
    } else {
        4
    }
}

/// How many leading characters must go so that at least `need` bytes go.
pub open spec fn cut(s: Seq<char>, need: int) -> nat
    decreases s.len(),
{
    if need <= 0 || s.len() == 0 {
        0
    } else {
        1 + cut(s.drop_first(), need - char_width(s[0]))
    }
}

/// The longest tail of `s` that fits in `limit` bytes: leading characters
/// are dropped, whole, until it fits.
pub open spec fn keep_tail(s: Seq<char>, limit: nat) -> Seq<char> {
    if utf8_len(s) <= limit {
        s
    } else {
        s.skip(cut(s, utf8_len(s) - limit) as int)
    }
}

/// `old` with one more line: a newline if `old` is not empty, then
/// "[stream] line".
pub open spec fn with_line(old: Seq<char>, stream: Seq<char>, line: Seq<char>) -> Seq<char> {
    (if old.len() == 0 {
        old
    } else {
        old.push('\n')
    }) + seq!['['] + stream + seq![']', ' '] + line
}

/// The dropped prefix is the shortest that removes `need` bytes.
pub proof fn lemma_cut(s: Seq<char>, need: int)
    requires
        need <= utf8_len(s),
    ensures
        cut(s, need) <= s.len(),
        utf8_len(s.take(cut(s, need) as int)) >= need,
        cut(s, need) > 0 ==> utf8_len(s.take(cut(s, need) - 1)) < need,
    decreases s.len(),
{
    if need <= 0 || s.len() == 0 {
        assert(s.take(0) =~= Seq::<char>::empty());
    } else {
        let t = s.drop_first();
        let w = char_width(s[0]);
        lemma_utf8_len_split(s, 1);
        assert(s.take(1) =~= seq![s[0]]);
        assert(s.skip(1) =~= t);
        assert(utf8_len(seq![s[0]]) == w) by {
            assert(seq![s[0]].drop_first() =~= Seq::<char>::empty());
        }
        lemma_cut(t, need - w);
        let k = cut(t, need - w);
        lemma_utf8_len_split(s.take(k + 1 as int), 1);
        assert(s.take(k + 1 as int).take(1) =~= seq![s[0]]);
        assert(s.take(k + 1 as int).skip(1) =~= t.take(k as int));
        if k > 0 {
            lemma_utf8_len_split(s.take(k as int), 1);
            assert(s.take(k as int).take(1) =~= seq![s[0]]);
            assert(s.take(k as int).skip(1) =~= t.take(k - 1));
        } else {
            assert(s.take(0) =~= Seq::<char>::empty());
        }
    }
}

/// What the log keeps after each line: the longest tail of everything that
/// fits in the limit. It is a suffix of the text with the new line, it fits,
/// and keeping one more character would not fit.
pub proof fn lemma_keep_tail(s: Seq<char>, limit: nat)
    ensures
        utf8_len(keep_tail(s, limit)) <= limit,
        exists|k: int| 0 <= k <= s.len() && keep_tail(s, limit) == s.skip(k),
        keep_tail(s, limit).len() < s.len() ==> utf8_len(
            s.skip(s.len() - keep_tail(s, limit).len() - 1),
        ) > limit,
{
    if utf8_len(s) <= limit {
        assert(s.skip(0) =~= s);
    } else {
        let need = utf8_len(s) - limit;
        lemma_cut(s, need);
        let k = cut(s, need) as int;
        lemma_utf8_len_split(s, k);
        if k > 0 {
            lemma_utf8_len_split(s, k - 1);
        }
        assert(s.len() - s.skip(k).len() - 1 == k - 1);
    }
}

/// The log text, with its UTF-8 length kept alongside.
pub struct LogBuffer {
    text: Vec<char>,
    bytes: usize,
}

impl View for LogBuffer {
    type V = Seq<char>;

    closed spec fn view(&self) -> Seq<char> {
        self.text@
    }
}

impl LogBuffer {
    #[verifier::type_invariant]
    closed spec fn inv(self) -> bool {
        &&& self.bytes == utf8_len(self.text@)
        &&& self.bytes <= LOG_LIMIT
    }

    pub fn new() -> (r: Self)
        ensures
            r@ == Seq::<char>::empty(),
    {
        assert(encode_utf8(Seq::<char>::empty()) =~= Seq::<u8>::empty());
        LogBuffer { text: Vec::new(), bytes: 0 }
    }

    /// Empties the log.
    pub fn clear(&mut self)
        ensures
            final(self)@ == Seq::<char>::empty(),
    {
        assert(encode_utf8(Seq::<char>::empty()) =~= Seq::<u8>::empty());
        *self = LogBuffer { text: Vec::new(), bytes: 0 };
    }

    /// The log's text.
    pub fn to_string(&self) -> (r: String)
        ensures
            r@ == self@,
    {
        string_of(self.text.as_slice())
    }

    /// Bytes of UTF-8 text in the log.
    pub fn len(&self) -> (r: usize)
        ensures
            r == utf8_len(self@),
            r <= LOG_LIMIT,
    {
        proof {
            use_type_invariant(self);
        }
        self.bytes
    }

    /// Adds "[stream_name] line" on a line of its own and keeps only the
    /// longest tail that fits in `LOG_LIMIT` bytes.
    pub fn append_log_line(&mut self, stream_name: &str, line: &str)
        ensures
            final(self)@ == keep_tail(with_line(old(self)@, stream_name@, line@), LOG_LIMIT as nat),
    {
        proof {
            use_type_invariant(&*self);
        }
        let ghost full = with_line(self@, stream_name@, line@);
        let mut all: Vec<char> = Vec::new();
        let mut total: usize = 0;
        assert(encode_utf8(Seq::<char>::empty()) =~= Seq::<u8>::empty());
        let stream: Vec<char> = chars_of(stream_name);
        let line_chars = chars_of(line);
        // the old text, then the added line
        let mut added: Vec<char> = Vec::new();
        if self.text.len() > 0 {
            added.push('\n');
        }
        added.push('[');
        let mut i: usize = 0;
        while i < stream.len()
            invariant
                i <= stream@.len(),
                added@ == (if self.text@.len() == 0 {
                    seq!['[']
                } else {
                    seq!['\n', '[']
                }) + stream@.subrange(0, i as int),
            decreases stream@.len() - i,
        {
            added.push(stream[i]);
            i = i + 1;
            assert(added@ =~= (if self.text@.len() == 0 {
                seq!['[']
            } else {
                seq!['\n', '[']
            }) + stream@.subrange(0, i as int));
        }
        added.push(']');
        added.push(' ');
        let mut j: usize = 0;
        let ghost head = added@;
        while j < line_chars.len()
            invariant
                j <= line_chars@.len(),
                added@ == head + line_chars@.subrange(0, j as int),
            decreases line_chars@.len() - j,
        {
            added.push(line_chars[j]);
            j = j + 1;
            assert(added@ =~= head + line_chars@.subrange(0, j as int));
        }
        assert(self.text@ + added@ =~= full) by {
            assert(stream@.subrange(0, stream@.len() as int) =~= stream@);
            assert(line_chars@.subrange(0, line_chars@.len() as int) =~= line_chars@);
        }
        // copy everything, counting bytes with a bound so no count overflows
        let mut k: usize = 0;
        while k < self.text.len()
            invariant
                k <= self.text@.len(),
                all@ == self.text@.subrange(0, k as int),
                total == utf8_len(all@),
                total <= utf8_len(self.text@),
                self.bytes == utf8_len(self.text@),
                self.bytes <= LOG_LIMIT,
            decreases self.text@.len() - k,
        {
            proof {
                lemma_utf8_len_push(all@, self.text@[k as int]);
                lemma_utf8_len_split(self.text@, k as int + 1);
                assert(self.text@.take(k as int + 1) =~= all@.push(self.text@[k as int]));
            }
            let c = self.text[k];
            total = total + utf8_width(c);
            all.push(c);
            k = k + 1;
            assert(all@ =~= self.text@.subrange(0, k as int));
        }
        assert(all@ =~= self.text@);
        // the added line may be long: count it in a wide integer
        let mut wide: u128 = total as u128;
        let mut m: usize = 0;
        while m < added.len()
            invariant
                m <= added@.len(),
                all@ == self.text@ + added@.subrange(0, m as int),
                wide == utf8_len(all@),
                wide <= LOG_LIMIT + 4 * (m as int),
                m <= usize::MAX,
            decreases added@.len() - m,
        {
            let c = added[m];
            proof {
                lemma_utf8_len_push(all@, c);
            }
            wide = wide + utf8_width(c) as u128;
            all.push(c);
            m = m + 1;
            assert(all@ =~= self.text@ + added@.subrange(0, m as int));
        }
        assert(all@ =~= full);
        if wide <= LOG_LIMIT as u128 {
            *self = LogBuffer { text: all, bytes: wide as usize };
            return ;
        }
        // drop whole leading characters until the rest fits
        assert(wide <= LOG_LIMIT + 4 * (usize::MAX as int));
        let need: u128 = wide - LOG_LIMIT as u128;
        proof {
            lemma_cut(full, need as int);
        }
        let ghost kcut = cut(full, need as int);
        let mut dropped: u128 = 0;
        let mut p: usize = 0;
        assert(full.take(0) =~= Seq::<char>::empty());
        while p < all.len() && dropped < need
            invariant
                all@ == full,
                p <= full.len(),
                dropped == utf8_len(full.take(p as int)),
                dropped as int <= need + 4,
                need as int <= LOG_LIMIT + 4 * (usize::MAX as int),
                need == utf8_len(full) - LOG_LIMIT,
                need > 0,
                kcut == cut(full, need as int),
                p <= kcut,
                utf8_len(full.take(kcut as int)) >= need,
                kcut > 0 ==> utf8_len(full.take(kcut - 1)) < need,
                kcut <= full.len(),
            decreases full.len() - p,
        {
            proof {
                lemma_utf8_len_push(full.take(p as int), full[p as int]);
                assert(full.take(p as int + 1) =~= full.take(p as int).push(full[p as int]));
                if p == kcut {
                    assert(false);
                }
            }
            dropped = dropped + utf8_width(all[p]) as u128;
            p = p + 1;
        }
        proof {
            if p < kcut {
                lemma_take_monotone(full, p as int, kcut - 1);
            }
            assert(p == kcut);
        }
        let mut kept: Vec<char> = Vec::new();
        let mut q: usize = p;
        let mut kept_bytes: usize = 0;
        proof {
            lemma_utf8_len_split(full, p as int);
        }
        assert(full.skip(p as int).take(0) =~= Seq::<char>::empty());
        while q < all.len()
            invariant
                all@ == full,
                p <= q <= full.len(),
                kept@ == full.subrange(p as int, q as int),
                kept_bytes == utf8_len(kept@),
                kept_bytes <= utf8_len(full.skip(p as int)),
                utf8_len(full.skip(p as int)) <= LOG_LIMIT,
            decreases full.len() - q,
        {
            proof {
                lemma_utf8_len_push(kept@, full[q as int]);
                lemma_utf8_len_split(full.skip(p as int), q - p + 1);
                assert(full.skip(p as int).take(q - p + 1) =~= kept@.push(full[q as int]));
            }
            kept_bytes = kept_bytes + utf8_width(all[q]);
            kept.push(all[q]);
            q = q + 1;
        }
        assert(kept@ =~= full.skip(p as int));
        *self = LogBuffer { text: kept, bytes: kept_bytes };
    }
}

/// A longer prefix has at least as many bytes.
pub proof fn lemma_take_monotone(s: Seq<char>, a: int, b: int)
    requires
        0 <= a <= b <= s.len(),
    ensures
        utf8_len(s.take(a)) <= utf8_len(s.take(b)),
{
    lemma_utf8_len_split(s.take(b), a);
    assert(s.take(b).take(a) =~= s.take(a));
}

} // verus!
