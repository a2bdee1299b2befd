//! Address text: IP addresses and socket addresses written and read the way
//! the standard library's `Display` and `FromStr` do, and targets written as
//! "host:port".

use vstd::prelude::*;

use crate::proto::{ConnectRequest, IpAddr, IpView, RequestView, TargetAddr, TargetView};
use crate::text::{
    all_digits, all_hex, dec_text, dec_value, hex_digit_of, hex_seq_value, hex_text,
    hex_value, lemma_split_nonempty, parse_digits, push_decimal, push_hex, split,
    split_chars, texts, digits_within, slice_chars, std_unsigned_value, parse_unsigned,
    string_of, chars_of, lemma_dec_text_digits, lemma_dec_text_len, lemma_dec_text_lacks,
    lemma_split_no_sep, lemma_split_concat,
};

verus! {

// ---- writing ----
/// Dotted-decimal text of four octets.
pub open spec fn ipv4_text(o: Seq<u8>) -> Seq<char> {
    dec_text(o[0] as nat) + seq!['.'] + dec_text(o[1] as nat) + seq!['.'] + dec_text(
        o[2] as nat,
    ) + seq!['.'] + dec_text(o[3] as nat)
}

/// The eight 16-bit groups of sixteen octets.
pub open spec fn segments(o: Seq<u8>) -> Seq<u16> {
    Seq::new(8, |i: int| (o[2 * i] as int * 256 + o[2 * i + 1] as int) as u16)
}

/// `::ffff:a.b.c.d`: an IPv4 address mapped into IPv6.
pub open spec fn is_ipv4_mapped(o: Seq<u8>) -> bool {
    &&& forall|i: int| 0 <= i < 10 ==> o[i] == 0
    &&& o[10] == 0xff
    &&& o[11] == 0xff
}

/// Length of the run of zero groups that starts at `i`.
pub open spec fn zero_run(g: Seq<u16>, i: int) -> nat
    decreases g.len() - i,
{
    if 0 <= i < g.len() && g[i] == 0 {
        1 + zero_run(g, i + 1)
    } else {
        0
    }
}

/// Start and length of the earliest of the longest zero runs among the first
/// `i` starting positions.
pub open spec fn longest_zero_run(g: Seq<u16>, i: int) -> (int, nat)
    decreases i,
{
    if i <= 0 {
        (0, 0)
    } else {
        let best = longest_zero_run(g, i - 1);
        if zero_run(g, i - 1) > best.1 {
            (i - 1, zero_run(g, i - 1))
        } else {
            best
        }
    }
}

/// Groups in lower-case hexadecimal, separated by ':'.
pub open spec fn hex_groups(g: Seq<u16>) -> Seq<char>
    decreases g.len(),
{
    if g.len() == 0 {
        Seq::empty()
    } else if g.len() == 1 {
        hex_text(g[0] as nat)
    } else {
        hex_groups(g.drop_last()) + seq![':'] + hex_text(g.last() as nat)
    }
}

/// IPv6 text as `Ipv6Addr`'s `Display` writes it: an IPv4-mapped address as
/// `::ffff:` and dotted decimal; otherwise the groups in hexadecimal, with the
/// earliest longest run of two or more zero groups written as `::`.
pub open spec fn ipv6_text(o: Seq<u8>) -> Seq<char> {
    if is_ipv4_mapped(o) {
        seq![':', ':', 'f', 'f', 'f', 'f', ':'] + ipv4_text(o.subrange(12, 16))
    } else {
        let g = segments(o);
        let (start, len) = longest_zero_run(g, 8);
        if len > 1 {
            hex_groups(g.subrange(0, start)) + seq![':', ':'] + hex_groups(
                g.subrange(start + len, 8),
            )
        } else {
            hex_groups(g)
        }
    }
}

pub open spec fn ip_text(ip: IpView) -> Seq<char> {
    match ip {
        IpView::V4(o) => ipv4_text(o),
        IpView::V6(o) => ipv6_text(o),
    }
}

/// Appends the dotted-decimal text of `o`.
pub fn push_ipv4(out: &mut Vec<char>, o: &[u8; 4])
    ensures
        final(out)@ == old(out)@ + ipv4_text(o@),
{
    let ghost start = out@;
    push_decimal(out, o[0] as u64);
    out.push('.');
    push_decimal(out, o[1] as u64);
    out.push('.');
    push_decimal(out, o[2] as u64);
    out.push('.');
    push_decimal(out, o[3] as u64);
    assert(out@ =~= start + ipv4_text(o@));
}

proof fn lemma_hex_groups_step(g: Seq<u16>, from: int, i: int)
    requires
        0 <= from < i <= g.len(),
    ensures
        i - from == 1 ==> hex_groups(g.subrange(from, i)) == hex_text(g[from] as nat),
        i - from > 1 ==> hex_groups(g.subrange(from, i)) == hex_groups(g.subrange(from, i - 1))
            + seq![':'] + hex_text(g[i - 1] as nat),
{
    let s = g.subrange(from, i);
    assert(s.drop_last() =~= g.subrange(from, i - 1));
}

/// Appends the groups `g[from..to]`, separated by ':'.
fn push_hex_groups(out: &mut Vec<char>, g: &[u16], from: usize, to: usize)
    requires
        from <= to <= g@.len(),
    ensures
        final(out)@ == old(out)@ + hex_groups(g@.subrange(from as int, to as int)),
{
    let ghost start = out@;
    let mut i = from;
    assert(g@.subrange(from as int, from as int) =~= Seq::<u16>::empty());
    while i < to
        invariant
            from <= i <= to <= g@.len(),
            out@ == start + hex_groups(g@.subrange(from as int, i as int)),
        decreases to - i,
    {
        proof {
            lemma_hex_groups_step(g@, from as int, i + 1);
        }
        if i > from {
            out.push(':');
        }
        push_hex(out, g[i] as u64);
        i = i + 1;
        assert(out@ =~= start + hex_groups(g@.subrange(from as int, i as int)));
    }
}

/// Appends the text of an IPv6 address.
pub fn push_ipv6(out: &mut Vec<char>, o: &[u8; 16])
    ensures
        final(out)@ == old(out)@ + ipv6_text(o@),
{
    let ghost start = out@;
    let mut mapped = o[10] == 0xff && o[11] == 0xff;
    let mut k: usize = 0;
    while k < 10
        invariant
            k <= 10,
            mapped == (o@[10] == 0xff && o@[11] == 0xff && forall|j: int|
                0 <= j < k ==> o@[j] == 0),
        decreases 10 - k,
    {
        if o[k] != 0 {
            mapped = false;
        }
        k = k + 1;
    }
    if mapped {
        out.push(':');
        out.push(':');
        out.push('f');
        out.push('f');
        out.push('f');
        out.push('f');
        out.push(':');
        let v4: [u8; 4] = [o[12], o[13], o[14], o[15]];
        assert(v4@ =~= o@.subrange(12, 16));
        push_ipv4(out, &v4);
        assert(out@ =~= start + ipv6_text(o@));
        return ;
    }
    let ghost g = segments(o@);
    let mut segs: Vec<u16> = Vec::new();
    let mut i: usize = 0;
    while i < 8
        invariant
            i <= 8,
            g == segments(o@),
            segs@ == g.subrange(0, i as int),
        decreases 8 - i,
    {
        segs.push(o[2 * i] as u16 * 256 + o[2 * i + 1] as u16);
        i = i + 1;
        assert(segs@ =~= g.subrange(0, i as int));
    }
    assert(segs@ =~= g);
    // the earliest longest run of zero groups
    let mut best_start: usize = 0;
    let mut best_len: usize = 0;
    let mut j: usize = 0;
    while j < 8
        invariant
            j <= 8,
            segs@ == g,
            g.len() == 8,
            (best_start as int, best_len as nat) == longest_zero_run(g, j as int),
            best_start + best_len <= 8,
        decreases 8 - j,
    {
        let mut e = j;
        while e < 8 && segs[e] == 0
            invariant
                j <= e <= 8,
                segs@ == g,
                g.len() == 8,
                zero_run(g, j as int) == (e - j) + zero_run(g, e as int),
            decreases 8 - e,
        {
            e = e + 1;
        }
        assert(zero_run(g, e as int) == 0);
        if e - j > best_len {
            best_start = j;
            best_len = e - j;
        }
        j = j + 1;
    }
    if best_len > 1 {
        push_hex_groups(out, segs.as_slice(), 0, best_start);
        out.push(':');
        out.push(':');
        push_hex_groups(out, segs.as_slice(), best_start + best_len, 8);
    } else {
        push_hex_groups(out, segs.as_slice(), 0, 8);
        assert(g.subrange(0, 8) =~= g);
    }
    assert(out@ =~= start + ipv6_text(o@));
}

/// Appends the text of an IP address.
pub fn push_ip(out: &mut Vec<char>, ip: &IpAddr)
    ensures
        final(out)@ == old(out)@ + ip_text(ip@),
{
    match ip {
        IpAddr::V4(o) => push_ipv4(out, o),
        IpAddr::V6(o) => push_ipv6(out, o),
    }
}

// ---- reading ----
/// One dotted-decimal octet as `Ipv4Addr`'s parser takes it: one to three
/// digits, no leading zero unless the octet is "0", at most 255.
pub open spec fn dec_octet(p: Seq<char>) -> Option<u8> {
    if 1 <= p.len() <= 3 && all_digits(p) && (p.len() == 1 || p[0] != '0') && dec_value(p)
        <= 255 {
        Some(dec_value(p) as u8)
    } else {
        None
    }
}

/// Dotted-decimal IPv4 text: exactly four octets separated by '.'.
pub open spec fn parse_ipv4(s: Seq<char>) -> Option<Seq<u8>> {
    let parts = split(s, '.');
    if parts.len() == 4 && dec_octet(parts[0]) is Some && dec_octet(parts[1]) is Some
        && dec_octet(parts[2]) is Some && dec_octet(parts[3]) is Some {
        Some(
            seq![
                dec_octet(parts[0]).unwrap(),
                dec_octet(parts[1]).unwrap(),
                dec_octet(parts[2]).unwrap(),
                dec_octet(parts[3]).unwrap(),
            ],
        )
    } else {
        None
    }
}

/// One IPv6 group: one to four hexadecimal digits of either case.
pub open spec fn hex_group(p: Seq<char>) -> Option<u16> {
    if 1 <= p.len() <= 4 && all_hex(p) {
        Some(hex_seq_value(p) as u16)
    } else {
        None
    }
}

/// Every part is a group; their values.
pub open spec fn hex_group_list(parts: Seq<Seq<char>>) -> Option<Seq<u16>>
    decreases parts.len(),
{
    if parts.len() == 0 {
        Some(Seq::empty())
    } else {
        match (hex_group_list(parts.drop_last()), hex_group(parts.last())) {
            (Some(g), Some(h)) => Some(g.push(h)),
            _ => None,
        }
    }
}

/// The two groups an embedded IPv4 address stands for.
pub open spec fn ipv4_groups(o: Seq<u8>) -> Seq<u16> {
    seq![(o[0] as int * 256 + o[1] as int) as u16, (o[2] as int * 256 + o[3] as int) as u16]
}

/// A ':'-separated list of groups (none for empty text). When `allow_v4`,
/// the last entry may be an IPv4 address, which stands for two groups.
pub open spec fn groups_of(s: Seq<char>, allow_v4: bool) -> Option<Seq<u16>> {
    if s.len() == 0 {
        Some(Seq::empty())
    } else {
        let parts = split(s, ':');
        if allow_v4 && parse_ipv4(parts.last()) is Some {
            match hex_group_list(parts.drop_last()) {
                Some(g) => Some(g + ipv4_groups(parse_ipv4(parts.last()).unwrap())),
                None => None,
            }
        } else {
            hex_group_list(parts)
        }
    }
}

/// Position of the first "::" at or after `i`.
pub open spec fn find_double_colon(s: Seq<char>, i: int) -> Option<int>
    decreases s.len() - i,
{
    if i < 0 || i + 1 >= s.len() {
        None
    } else if s[i] == ':' && s[i + 1] == ':' {
        Some(i)
    } else {
        find_double_colon(s, i + 1)
    }
}

/// Sixteen octets of eight groups, in network order.
pub open spec fn octets_of_groups(g: Seq<u16>) -> Seq<u8> {
    Seq::new(
        16,
        |i: int|
            if i % 2 == 0 {
                (g[i / 2] / 256) as u8
            } else {
                (g[i / 2] % 256) as u8
            },
    )
}

/// IPv6 text as `Ipv6Addr`'s parser takes it: eight groups (the last two may
/// be written as an IPv4 address), or groups before and after a single "::"
/// that stands for one or more zero groups, eight in all. An IPv4 address
/// may only end the text.
pub open spec fn parse_ipv6(s: Seq<char>) -> Option<Seq<u8>> {
    match find_double_colon(s, 0) {
        None => match groups_of(s, true) {
            Some(g) => if g.len() == 8 {
                Some(octets_of_groups(g))
            } else {
                None
            },
            None => None,
        },
        Some(p) => match (groups_of(s.subrange(0, p), false), groups_of(s.subrange(p + 2, s.len() as int), true)) {
            (Some(h), Some(t)) => if h.len() <= 7 && t.len() <= 7 - h.len() {
                Some(
                    octets_of_groups(
                        h + Seq::new((8 - h.len() - t.len()) as nat, |i: int| 0u16) + t,
                    ),
                )
            } else {
                None
            },
            _ => None,
        },
    }
}

/// IP text as `IpAddr`'s parser takes it: IPv4 if it reads as IPv4, else IPv6.
pub open spec fn parse_ip(s: Seq<char>) -> Option<IpView> {
    match parse_ipv4(s) {
        Some(o) => Some(IpView::V4(o)),
        None => match parse_ipv6(s) {
            Some(o) => Some(IpView::V6(o)),
            None => None,
        },
    }
}

fn read_dec_octet(p: &[char]) -> (r: Option<u8>)
    ensures
        r == dec_octet(p@),
{
    if p.len() < 1 || p.len() > 3 {
        return None;
    }
    if p.len() > 1 && p[0] == '0' {
        return None;
    }
    match parse_digits(p, 255) {
        Some(v) => Some(v as u8),
        None => None,
    }
}

/// Reads dotted-decimal IPv4 text.
pub fn read_ipv4(s: &[char]) -> (r: Option<[u8; 4]>)
    ensures
        match r {
            Some(o) => parse_ipv4(s@) == Some(o@),
            None => parse_ipv4(s@) is None,
        },
{
    let parts = split_chars(s, '.');
    if parts.len() != 4 {
        return None;
    }
    let ghost t = texts(parts@);
    assert(t[0] == parts@[0]@ && t[1] == parts@[1]@ && t[2] == parts@[2]@ && t[3] == parts@[3]@);
    let a = read_dec_octet(parts[0].as_slice());
    let b = read_dec_octet(parts[1].as_slice());
    let c = read_dec_octet(parts[2].as_slice());
    let d = read_dec_octet(parts[3].as_slice());
    match (a, b, c, d) {
        (Some(a), Some(b), Some(c), Some(d)) => {
            let o: [u8; 4] = [a, b, c, d];
            assert(o@ =~= parse_ipv4(s@).unwrap());
            Some(o)
        },
        _ => None,
    }
}

fn read_hex_group(p: &[char]) -> (r: Option<u16>)
    ensures
        r == hex_group(p@),
{
    if p.len() < 1 || p.len() > 4 {
        return None;
    }
    let mut v: u32 = 0;
    let mut i: usize = 0;
    while i < p.len()
        invariant
            i <= p@.len() <= 4,
            all_hex(p@.subrange(0, i as int)),
            v == hex_seq_value(p@.subrange(0, i as int)),
            i == 0 ==> v == 0,
            i <= 1 ==> v < 16,
            i <= 2 ==> v < 256,
            i <= 3 ==> v < 4096,
            v < 65536,
        decreases p@.len() - i,
    {
        let ghost pre = p@.subrange(0, i as int + 1);
        assert(pre.drop_last() =~= p@.subrange(0, i as int));
        assert(pre.last() == p@[i as int]);
        match hex_digit_of(p[i]) {
            None => {
                assert(!all_hex(p@));
                return None;
            },
            Some(d) => {
                v = v * 16 + d;
                i = i + 1;
                assert(all_hex(p@.subrange(0, i as int))) by {
                    assert forall|j: int| 0 <= j < i implies (#[trigger] hex_value(
                        p@.subrange(0, i as int)[j],
                    )) is Some by {
                        if j < i - 1 {
                            assert(p@.subrange(0, i as int)[j] == p@.subrange(
                                0,
                                i as int - 1,
                            )[j]);
                        }
                    }
                }
            },
        }
    }
    assert(p@.subrange(0, i as int) =~= p@);
    Some(v as u16)
}

/// The groups of `parts[..to]`, if every one is a group.
fn read_hex_groups(parts: &Vec<Vec<char>>, to: usize) -> (r: Option<Vec<u16>>)
    requires
        to <= parts@.len(),
    ensures
        match r {
            Some(g) => hex_group_list(texts(parts@).subrange(0, to as int)) == Some(g@),
            None => hex_group_list(texts(parts@).subrange(0, to as int)) is None,
        },
{
    let mut g: Vec<u16> = Vec::new();
    let mut i: usize = 0;
    assert(texts(parts@).subrange(0, 0) =~= Seq::<Seq<char>>::empty());
    while i < to
        invariant
            i <= to <= parts@.len(),
            hex_group_list(texts(parts@).subrange(0, i as int)) == Some(g@),
        decreases to - i,
    {
        let ghost next = texts(parts@).subrange(0, i as int + 1);
        assert(next.drop_last() =~= texts(parts@).subrange(0, i as int));
        assert(next.last() == parts@[i as int]@);
        match read_hex_group(parts[i].as_slice()) {
            Some(h) => {
                g.push(h);
                i = i + 1;
            },
            None => {
                proof {
                    let pre = texts(parts@).subrange(0, i as int);
                    let full = texts(parts@).subrange(0, to as int);
                    lemma_hex_group_list_prefix(full, i as int + 1);
                    assert(full.subrange(0, i as int + 1) =~= next);
                }
                return None;
            },
        }
    }
    Some(g)
}

/// A list fails to be all groups once one of its prefixes fails.
proof fn lemma_hex_group_list_prefix(parts: Seq<Seq<char>>, k: int)
    requires
        0 <= k <= parts.len(),
        hex_group_list(parts.subrange(0, k)) is None,
    ensures
        hex_group_list(parts) is None,
    decreases parts.len() - k,
{
    if k < parts.len() {
        let next = parts.subrange(0, k + 1);
        assert(next.drop_last() =~= parts.subrange(0, k));
        lemma_hex_group_list_prefix(parts, k + 1);
    } else {
        assert(parts.subrange(0, k) =~= parts);
    }
}

/// Reads a ':'-separated list of groups, as `groups_of` describes.
fn read_groups(s: &[char], allow_v4: bool) -> (r: Option<Vec<u16>>)
    ensures
        match r {
            Some(g) => groups_of(s@, allow_v4) == Some(g@),
            None => groups_of(s@, allow_v4) is None,
        },
{
    if s.len() == 0 {
        return Some(Vec::new());
    }
    let parts = split_chars(s, ':');
    proof {
        lemma_split_nonempty(s@, ':');
    }
    let n = parts.len();
    let ghost t = texts(parts@);
    assert(t.last() == parts@[n - 1]@);
    assert(t.subrange(0, n as int) =~= t);
    assert(t.subrange(0, n - 1) =~= t.drop_last());
    if allow_v4 {
        match read_ipv4(parts[n - 1].as_slice()) {
            Some(o) => {
                match read_hex_groups(&parts, n - 1) {
                    Some(mut g) => {
                        let ghost g0 = g@;
                        g.push(o[0] as u16 * 256 + o[1] as u16);
                        g.push(o[2] as u16 * 256 + o[3] as u16);
                        assert(g@ =~= g0 + ipv4_groups(o@));
                        return Some(g);
                    },
                    None => {
                        return None;
                    },
                }
            },
            None => {},
        }
    }
    read_hex_groups(&parts, n)
}

/// Position of the first "::".
fn find_first_double_colon(s: &[char]) -> (r: Option<usize>)
    ensures
        match r {
            Some(p) => find_double_colon(s@, 0) == Some(p as int),
            None => find_double_colon(s@, 0) is None,
        },
        r matches Some(p) ==> p + 2 <= s@.len(),
{
    let mut i: usize = 0;
    while s.len() > 1 && i < s.len() - 1
        invariant
            i <= s@.len(),
            find_double_colon(s@, 0) == find_double_colon(s@, i as int),
        decreases s@.len() - i,
    {
        if s[i] == ':' && s[i + 1] == ':' {
            return Some(i);
        }
        i = i + 1;
    }
    None
}

fn octets_from_groups(g: &Vec<u16>) -> (r: [u8; 16])
    requires
        g@.len() == 8,
    ensures
        r@ == octets_of_groups(g@),
{
    let r: [u8; 16] = [
        (g[0] / 256) as u8,
        (g[0] % 256) as u8,
        (g[1] / 256) as u8,
        (g[1] % 256) as u8,
        (g[2] / 256) as u8,
        (g[2] % 256) as u8,
        (g[3] / 256) as u8,
        (g[3] % 256) as u8,
        (g[4] / 256) as u8,
        (g[4] % 256) as u8,
        (g[5] / 256) as u8,
        (g[5] % 256) as u8,
        (g[6] / 256) as u8,
        (g[6] % 256) as u8,
        (g[7] / 256) as u8,
        (g[7] % 256) as u8,
    ];
    assert(r@ =~= octets_of_groups(g@));
    r
}

/// Reads IPv6 text.
pub fn read_ipv6(s: &[char]) -> (r: Option<[u8; 16]>)
    ensures
        match r {
            Some(o) => parse_ipv6(s@) == Some(o@),
            None => parse_ipv6(s@) is None,
        },
{
    match find_first_double_colon(s) {
        None => match read_groups(s, true) {
            Some(g) => {
                if g.len() == 8 {
                    Some(octets_from_groups(&g))
                } else {
                    None
                }
            },
            None => None,
        },
        Some(p) => {
            let n = s.len();
            assert(n == s@.len());
            let head = slice_chars(s, 0, p);
            let tail = slice_chars(s, p + 2, n);
            match (read_groups(head.as_slice(), false), read_groups(tail.as_slice(), true)) {
                (Some(h), Some(t)) => {
                    if h.len() <= 7 && t.len() <= 7 - h.len() {
                        let mut all: Vec<u16> = Vec::new();
                        let mut i: usize = 0;
                        while i < h.len()
                            invariant
                                i <= h@.len(),
                                all@ == h@.subrange(0, i as int),
                            decreases h@.len() - i,
                        {
                            all.push(h[i]);
                            i = i + 1;
                            assert(all@ =~= h@.subrange(0, i as int));
                        }
                        let zeros = 8 - h.len() - t.len();
                        let ghost z = Seq::new(zeros as nat, |i: int| 0u16);
                        let mut k: usize = 0;
                        while k < zeros
                            invariant
                                k <= zeros,
                                all@ == h@ + z.subrange(0, k as int),
                                z == Seq::new(zeros as nat, |i: int| 0u16),
                            decreases zeros - k,
                        {
                            all.push(0u16);
                            k = k + 1;
                            assert(all@ =~= h@ + z.subrange(0, k as int));
                        }
                        let mut j: usize = 0;
                        while j < t.len()
                            invariant
                                j <= t@.len(),
                                all@ == h@ + z + t@.subrange(0, j as int),
                            decreases t@.len() - j,
                        {
                            all.push(t[j]);
                            j = j + 1;
                            assert(all@ =~= h@ + z + t@.subrange(0, j as int));
                        }
                        assert(all@ =~= h@ + z + t@);
                        Some(octets_from_groups(&all))
                    } else {
                        None
                    }
                },
                _ => None,
            }
        },
    }
}

/// Reads IP text: IPv4 first, then IPv6.
pub fn read_ip(s: &[char]) -> (r: Option<IpAddr>)
    ensures
        match r {
            Some(ip) => parse_ip(s@) == Some(ip@),
            None => parse_ip(s@) is None,
        },
{
    match read_ipv4(s) {
        Some(o) => Some(IpAddr::V4(o)),
        None => match read_ipv6(s) {
            Some(o) => Some(IpAddr::V6(o)),
            None => None,
        },
    }
}


// ---- socket addresses ----
/// A socket address: an IP address, a port and, for IPv6, a scope id.
#[derive(Clone, Copy, Debug, PartialEq, Eq)]
pub struct SocketAddr {
    pub ip: IpAddr,
    pub port: u16,
    pub scope_id: u32,
}

pub struct SocketView {
    pub ip: IpView,
    pub port: u16,
    pub scope_id: u32,
}

impl View for SocketAddr {
    type V = SocketView;

    open spec fn view(&self) -> SocketView {
        SocketView { ip: self.ip@, port: self.port, scope_id: self.scope_id }
    }
}

/// Position of the first `c` in `s`.
pub open spec fn first_index(s: Seq<char>, c: char, i: int) -> Option<int>
    decreases s.len() - i,
{
    if i < 0 || i >= s.len() {
        None
    } else if s[i] == c {
        Some(i)
    } else {
        first_index(s, c, i + 1)
    }
}

/// Position of the last `c` in `s` before `i`.
pub open spec fn last_index(s: Seq<char>, c: char, i: int) -> Option<int>
    decreases i,
{
    if i <= 0 || i > s.len() {
        None
    } else if s[i - 1] == c {
        Some(i - 1)
    } else {
        last_index(s, c, i - 1)
    }
}

/// "a.b.c.d:port".
pub open spec fn parse_socket_v4(s: Seq<char>) -> Option<SocketView> {
    let parts = split(s, ':');
    if parts.len() == 2 && parse_ipv4(parts[0]) is Some && digits_within(parts[1], 65535) is Some {
        Some(
            SocketView {
                ip: IpView::V4(parse_ipv4(parts[0]).unwrap()),
                port: digits_within(parts[1], 65535).unwrap() as u16,
                scope_id: 0,
            },
        )
    } else {
        None
    }
}

/// "[ipv6]:port" or "[ipv6%scope]:port".
pub open spec fn parse_socket_v6(s: Seq<char>) -> Option<SocketView> {
    if s.len() > 0 && s[0] == '[' && first_index(s, ']', 0) is Some {
        let q = first_index(s, ']', 0).unwrap();
        let inner = s.subrange(1, q);
        let port = digits_within(s.subrange(q + 2, s.len() as int), 65535);
        let scoped = split(inner, '%');
        if q + 1 < s.len() && s[q + 1] == ':' && port is Some {
            if scoped.len() == 1 && parse_ipv6(inner) is Some {
                Some(
                    SocketView {
                        ip: IpView::V6(parse_ipv6(inner).unwrap()),
                        port: port.unwrap() as u16,
                        scope_id: 0,
                    },
                )
            } else if scoped.len() == 2 && parse_ipv6(scoped[0]) is Some && digits_within(
                scoped[1],
                0xffff_ffff,
            ) is Some {
                Some(
                    SocketView {
                        ip: IpView::V6(parse_ipv6(scoped[0]).unwrap()),
                        port: port.unwrap() as u16,
                        scope_id: digits_within(scoped[1], 0xffff_ffff).unwrap() as u32,
                    },
                )
            } else {
                None
            }
        } else {
            None
        }
    } else {
        None
    }
}

/// Socket address text as `SocketAddr`'s parser takes it.
pub open spec fn parse_socket(s: Seq<char>) -> Option<SocketView> {
    match parse_socket_v4(s) {
        Some(a) => Some(a),
        None => parse_socket_v6(s),
    }
}

/// Socket address text as `SocketAddr`'s `Display` writes it.
pub open spec fn socket_text(a: SocketView) -> Seq<char> {
    match a.ip {
        IpView::V4(o) => ipv4_text(o) + seq![':'] + dec_text(a.port as nat),
        IpView::V6(o) => if a.scope_id == 0 {
            seq!['['] + ipv6_text(o) + seq![']', ':'] + dec_text(a.port as nat)
        } else {
            seq!['['] + ipv6_text(o) + seq!['%'] + dec_text(a.scope_id as nat) + seq![']', ':']
                + dec_text(a.port as nat)
        },
    }
}

fn find_first(s: &[char], c: char) -> (r: Option<usize>)
    ensures
        match r {
            Some(p) => first_index(s@, c, 0) == Some(p as int) && p < s@.len() && s@[p as int] == c,
            None => first_index(s@, c, 0) is None,
        },
{
    let mut i: usize = 0;
    while i < s.len()
        invariant
            i <= s@.len(),
            first_index(s@, c, 0) == first_index(s@, c, i as int),
        decreases s@.len() - i,
    {
        if s[i] == c {
            return Some(i);
        }
        i = i + 1;
    }
    None
}

fn find_last(s: &[char], c: char) -> (r: Option<usize>)
    ensures
        match r {
            Some(p) => last_index(s@, c, s@.len() as int) == Some(p as int) && p < s@.len(),
            None => last_index(s@, c, s@.len() as int) is None,
        },
{
    let mut i: usize = s.len();
    while i > 0
        invariant
            i <= s@.len(),
            last_index(s@, c, s@.len() as int) == last_index(s@, c, i as int),
        decreases i,
    {
        if s[i - 1] == c {
            return Some(i - 1);
        }
        i = i - 1;
    }
    None
}

fn read_socket_v4(s: &[char]) -> (r: Option<SocketAddr>)
    ensures
        match r {
            Some(a) => parse_socket_v4(s@) == Some(a@),
            None => parse_socket_v4(s@) is None,
        },
{
    let parts = split_chars(s, ':');
    if parts.len() != 2 {
        return None;
    }
    let ghost t = texts(parts@);
    assert(t[0] == parts@[0]@ && t[1] == parts@[1]@);
    match (read_ipv4(parts[0].as_slice()), parse_digits(parts[1].as_slice(), 65535)) {
        (Some(o), Some(port)) => Some(SocketAddr { ip: IpAddr::V4(o), port: port as u16, scope_id: 0 }),
        _ => None,
    }
}

fn read_socket_v6(s: &[char]) -> (r: Option<SocketAddr>)
    ensures
        match r {
            Some(a) => parse_socket_v6(s@) == Some(a@),
            None => parse_socket_v6(s@) is None,
        },
{
    if s.len() == 0 || s[0] != '[' {
        return None;
    }
    let q = match find_first(s, ']') {
        Some(q) => q,
        None => return None,
    };
    let n = s.len();
    assert(n == s@.len());
    if q + 1 >= n || s[q + 1] != ':' {
        return None;
    }
    let port_text = slice_chars(s, q + 2, n);
    let port = match parse_digits(port_text.as_slice(), 65535) {
        Some(p) => p as u16,
        None => return None,
    };
    let inner = slice_chars(s, 1, q);
    let scoped = split_chars(inner.as_slice(), '%');
    let ghost t = texts(scoped@);
    if scoped.len() == 1 {
        match read_ipv6(inner.as_slice()) {
            Some(o) => Some(SocketAddr { ip: IpAddr::V6(o), port, scope_id: 0 }),
            None => None,
        }
    } else if scoped.len() == 2 {
        assert(t[0] == scoped@[0]@ && t[1] == scoped@[1]@);
        match (read_ipv6(scoped[0].as_slice()), parse_digits(scoped[1].as_slice(), 0xffff_ffff)) {
            (Some(o), Some(scope)) => Some(
                SocketAddr { ip: IpAddr::V6(o), port, scope_id: scope as u32 },
            ),
            _ => None,
        }
    } else {
        None
    }
}

/// Reads socket address text.
pub fn read_socket_addr(s: &str) -> (r: Option<SocketAddr>)
    ensures
        match r {
            Some(a) => parse_socket(s@) == Some(a@),
            None => parse_socket(s@) is None,
        },
{
    let cs = chars_of(s);
    match read_socket_v4(cs.as_slice()) {
        Some(a) => Some(a),
        None => read_socket_v6(cs.as_slice()),
    }
}

/// Writes a socket address.
pub fn socket_addr_to_string(a: &SocketAddr) -> (r: String)
    ensures
        r@ == socket_text(a@),
{
    let mut out: Vec<char> = Vec::new();
    match &a.ip {
        IpAddr::V4(o) => {
            push_ipv4(&mut out, o);
            out.push(':');
            push_decimal(&mut out, a.port as u64);
        },
        IpAddr::V6(o) => {
            out.push('[');
            push_ipv6(&mut out, o);
            if a.scope_id != 0 {
                out.push('%');
                push_decimal(&mut out, a.scope_id as u64);
            }
            out.push(']');
            out.push(':');
            push_decimal(&mut out, a.port as u64);
        },
    }
    assert(out@ =~= socket_text(a@));
    string_of(out.as_slice())
}

/// Writes an IP address.
pub fn ip_to_string(ip: &IpAddr) -> (r: String)
    ensures
        r@ == ip_text(ip@),
{
    let mut out: Vec<char> = Vec::new();
    push_ip(&mut out, ip);
    assert(out@ =~= ip_text(ip@));
    string_of(out.as_slice())
}

// ---- targets ----
/// "host:port" for a request: the address as text (IPv6 without brackets)
/// or the domain, then the port.
pub open spec fn target_text(r: RequestView) -> Seq<char> {
    host_text(r.target) + seq![':'] + dec_text(r.port as nat)
}

/// The address as text, or the domain.
pub open spec fn host_text(t: TargetView) -> Seq<char> {
    match t {
        TargetView::Ip(ip) => ip_text(ip),
        TargetView::Domain(d) => d,
    }
}

pub fn format_target(request: &ConnectRequest) -> (r: String)
    ensures
        r@ == target_text(request@),
{
    let mut out: Vec<char> = Vec::new();
    match &request.target {
        TargetAddr::Ip(ip) => push_ip(&mut out, ip),
        TargetAddr::Domain(d) => crate::text::push_str_chars(&mut out, d.as_str()),
    }
    out.push(':');
    push_decimal(&mut out, request.port as u64);
    assert(out@ =~= target_text(request@));
    string_of(out.as_slice())
}

/// Why "host:port" text is not a target.
#[derive(Clone, Copy, Debug, PartialEq, Eq, Structural)]
pub enum TargetError {
    /// No ':' in the text.
    MissingPort,
    /// What follows the last ':' is not a port number.
    InvalidPort,
    /// Nothing precedes the last ':'.
    EmptyHost,
}

/// Reading "host:port": split at the last ':'; the port as `str::parse::<u16>`
/// reads it; the host as an IP address if it reads as one, else as a domain,
/// which must not be empty.
pub open spec fn parse_target_text(s: Seq<char>) -> Result<RequestView, TargetError> {
    match last_index(s, ':', s.len() as int) {
        None => Err(TargetError::MissingPort),
        Some(i) => {
            let host = s.subrange(0, i);
            match std_unsigned_value(s.subrange(i + 1, s.len() as int), 65535) {
                None => Err(TargetError::InvalidPort),
                Some(port) => match parse_ip(host) {
                    Some(ip) => Ok(RequestView { target: TargetView::Ip(ip), port: port as u16 }),
                    None => if host.len() == 0 {
                        Err(TargetError::EmptyHost)
                    } else {
                        Ok(RequestView { target: TargetView::Domain(host), port: port as u16 })
                    },
                },
            }
        },
    }
}

pub fn parse_target(value: &str) -> (r: Result<ConnectRequest, TargetError>)
    ensures
        match r {
            Ok(req) => parse_target_text(value@) == Ok::<RequestView, TargetError>(req@),
            Err(e) => parse_target_text(value@) == Err::<RequestView, TargetError>(e),
        },
{
    let cs = chars_of(value);
    let n = cs.len();
    let i = match find_last(cs.as_slice(), ':') {
        Some(i) => i,
        None => return Err(TargetError::MissingPort),
    };
    let host = slice_chars(cs.as_slice(), 0, i);
    let port_text = slice_chars(cs.as_slice(), i + 1, n);
    let port = match parse_unsigned(port_text.as_slice(), 65535) {
        Some(p) => p as u16,
        None => return Err(TargetError::InvalidPort),
    };
    match read_ip(host.as_slice()) {
        Some(ip) => Ok(ConnectRequest { target: TargetAddr::Ip(ip), port }),
        None => {
            if host.len() == 0 {
                Err(TargetError::EmptyHost)
            } else {
                Ok(ConnectRequest { target: TargetAddr::Domain(string_of(host.as_slice())), port })
            }
        },
    }
}


// ---- laws ----
proof fn lemma_dec_octet_of_text(n: u8)
    ensures
        dec_octet(dec_text(n as nat)) == Some(n),
{
    lemma_dec_text_digits(n as nat);
    lemma_dec_text_len(n as nat);
}

/// Dotted-decimal text reads back as the same four octets.
pub proof fn lemma_ipv4_text_roundtrip(o: Seq<u8>)
    requires
        o.len() == 4,
    ensures
        parse_ipv4(ipv4_text(o)) == Some(o),
{
    let d0 = dec_text(o[0] as nat);
    let d1 = dec_text(o[1] as nat);
    let d2 = dec_text(o[2] as nat);
    let d3 = dec_text(o[3] as nat);
    lemma_dec_text_lacks(o[0] as nat, '.');
    lemma_dec_text_lacks(o[1] as nat, '.');
    lemma_dec_text_lacks(o[2] as nat, '.');
    lemma_dec_text_lacks(o[3] as nat, '.');
    lemma_split_no_sep(d0, '.');
    lemma_split_no_sep(d1, '.');
    lemma_split_no_sep(d2, '.');
    lemma_split_no_sep(d3, '.');
    lemma_split_concat(d2, '.', d3);
    lemma_split_concat(d1, '.', d2 + seq!['.'] + d3);
    lemma_split_concat(d0, '.', d1 + seq!['.'] + d2 + seq!['.'] + d3);
    assert(ipv4_text(o) =~= d0 + seq!['.'] + (d1 + seq!['.'] + (d2 + seq!['.'] + d3)));
    assert(d1 + seq!['.'] + (d2 + seq!['.'] + d3) =~= d1 + seq!['.'] + d2 + seq!['.'] + d3);
    let parts = split(ipv4_text(o), '.');
    assert(parts =~= seq![d0, d1, d2, d3]);
    lemma_dec_octet_of_text(o[0]);
    lemma_dec_octet_of_text(o[1]);
    lemma_dec_octet_of_text(o[2]);
    lemma_dec_octet_of_text(o[3]);
    assert(parse_ipv4(ipv4_text(o)).unwrap() =~= o);
}

} // verus!
