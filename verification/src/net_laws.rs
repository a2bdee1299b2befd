//! What the address writers and readers promise together: the text that is
//! written for an address reads back as that address.

use vstd::prelude::*;

use crate::net::{
    find_double_colon, groups_of, hex_group, hex_group_list, hex_groups, ipv4_text,
    ipv6_text, is_ipv4_mapped, longest_zero_run, octets_of_groups, parse_ipv4, parse_ipv6,
    segments, zero_run, ipv4_groups, lemma_ipv4_text_roundtrip, parse_ip, ip_text,
    first_index, last_index, host_text, target_text, parse_target_text, TargetError,
    parse_socket, socket_text, SocketView, parse_socket_v4,
};
use crate::proto::{IpView, RequestView, TargetView};
use crate::text::{
    dec_text, hex_text, hex_value, is_digit, lemma_dec_text_digits, lemma_dec_text_lacks,
    lemma_hex_text_digits, lemma_split_concat, digits_within, lemma_split_no_sep, lemma_split_nonempty, split,
};

verus! {

/// Characters that may stand in the text of an IP address.
pub open spec fn addr_char(c: char) -> bool {
    hex_value(c) is Some || c == ':' || c == '.'
}

pub open spec fn addr_chars(s: Seq<char>) -> bool {
    forall|i: int| 0 <= i < s.len() ==> addr_char(#[trigger] s[i])
}

/// Text with no two ':' in a row, that neither starts nor ends with ':'.
pub open spec fn colon_separated(s: Seq<char>) -> bool {
    &&& s.len() > 0
    &&& s[0] != ':'
    &&& s.last() != ':'
    &&& forall|i: int| 0 <= i < s.len() - 1 ==> !(#[trigger] s[i] == ':' && s[i + 1] == ':')
}

proof fn lemma_hex_text_chars(n: nat)
    ensures
        addr_chars(hex_text(n)),
        !hex_text(n).contains(':'),
        !hex_text(n).contains('.'),
        colon_separated(hex_text(n)),
{
    lemma_hex_text_digits(n);
    let t = hex_text(n);
    assert forall|i: int| 0 <= i < t.len() implies addr_char(#[trigger] t[i]) by {
        assert(hex_value(t[i]) is Some);
    }
    if t.contains(':') {
        let j = choose|j: int| 0 <= j < t.len() && t[j] == ':';
        assert(hex_value(t[j]) is Some);
    }
    if t.contains('.') {
        let j = choose|j: int| 0 <= j < t.len() && t[j] == '.';
        assert(hex_value(t[j]) is Some);
    }
    assert(hex_value(t[0]) is Some);
    assert(hex_value(t[t.len() - 1]) is Some);
}

proof fn lemma_dec_text_chars(n: nat)
    ensures
        addr_chars(dec_text(n)),
{
    lemma_dec_text_digits(n);
    let t = dec_text(n);
    assert forall|i: int| 0 <= i < t.len() implies addr_char(#[trigger] t[i]) by {
        assert(is_digit(t[i]));
    }
}

proof fn lemma_addr_chars_concat(a: Seq<char>, b: Seq<char>)
    requires
        addr_chars(a),
        addr_chars(b),
    ensures
        addr_chars(a + b),
{
    assert forall|i: int| 0 <= i < (a + b).len() implies addr_char(#[trigger] (a + b)[i]) by {
        if i < a.len() {
            assert((a + b)[i] == a[i]);
        } else {
            assert((a + b)[i] == b[i - a.len()]);
        }
    }
}

proof fn lemma_colon_separated_join(a: Seq<char>, b: Seq<char>)
    requires
        colon_separated(a),
        colon_separated(b),
    ensures
        colon_separated(a + seq![':'] + b),
{
    let s = a + seq![':'] + b;
    assert(s[0] == a[0]);
    assert(s.last() == b.last());
    assert forall|i: int| 0 <= i < s.len() - 1 implies !(#[trigger] s[i] == ':' && s[i + 1]
        == ':') by {
        if i < a.len() - 1 {
            assert(s[i] == a[i] && s[i + 1] == a[i + 1]);
        } else if i == a.len() - 1 {
            assert(s[i] == a.last());
        } else if i == a.len() {
            assert(s[i + 1] == b[0]);
        } else {
            assert(s[i] == b[i - a.len() - 1] && s[i + 1] == b[i - a.len()]);
        }
    }
}

/// Groups written in hexadecimal, ':' between them.
proof fn lemma_hex_groups_shape(g: Seq<u16>)
    requires
        g.len() > 0,
    ensures
        colon_separated(hex_groups(g)),
        addr_chars(hex_groups(g)),
        !hex_groups(g).contains('.'),
        split(hex_groups(g), ':') == Seq::new(g.len(), |i: int| hex_text(g[i] as nat)),
    decreases g.len(),
{
    if g.len() == 1 {
        lemma_hex_text_chars(g[0] as nat);
        lemma_split_no_sep(hex_text(g[0] as nat), ':');
        assert(split(hex_groups(g), ':') =~= Seq::new(g.len(), |i: int| hex_text(g[i] as nat)));
    } else {
        let a = hex_groups(g.drop_last());
        let b = hex_text(g.last() as nat);
        lemma_hex_groups_shape(g.drop_last());
        lemma_hex_text_chars(g.last() as nat);
        lemma_colon_separated_join(a, b);
        lemma_addr_chars_concat(a, seq![':']);
        lemma_addr_chars_concat(a + seq![':'], b);
        lemma_split_concat(a, ':', b);
        lemma_split_no_sep(b, ':');
        let s = a + seq![':'] + b;
        if s.contains('.') {
            let j = choose|j: int| 0 <= j < s.len() && s[j] == '.';
            if j < a.len() {
                assert(s[j] == a[j]);
            } else if j > a.len() {
                assert(s[j] == b[j - a.len() - 1]);
            }
        }
        assert(split(hex_groups(g), ':') =~= Seq::new(g.len(), |i: int| hex_text(g[i] as nat)));
    }
}

proof fn lemma_hex_group_of_text(x: u16)
    ensures
        hex_group(hex_text(x as nat)) == Some(x),
{
    lemma_hex_text_digits(x as nat);
}

proof fn lemma_hex_group_list_texts(g: Seq<u16>)
    ensures
        hex_group_list(Seq::new(g.len(), |i: int| hex_text(g[i] as nat))) == Some(g),
    decreases g.len(),
{
    let parts = Seq::new(g.len(), |i: int| hex_text(g[i] as nat));
    if g.len() > 0 {
        lemma_hex_group_list_texts(g.drop_last());
        assert(parts.drop_last() =~= Seq::new(
            g.drop_last().len(),
            |i: int| hex_text(g.drop_last()[i] as nat),
        ));
        lemma_hex_group_of_text(g.last());
        assert(g.drop_last().push(g.last()) =~= g);
    } else {
        assert(g =~= Seq::<u16>::empty());
    }
}

/// Text without '.' is no IPv4 address.
proof fn lemma_parse_ipv4_no_dot(s: Seq<char>)
    requires
        !s.contains('.'),
    ensures
        parse_ipv4(s) is None,
{
    lemma_split_no_sep(s, '.');
}

/// Hexadecimal groups read back as the same groups.
proof fn lemma_groups_of_hex(g: Seq<u16>, allow_v4: bool)
    ensures
        groups_of(hex_groups(g), allow_v4) == Some(g),
{
    if g.len() == 0 {
        assert(hex_groups(g) =~= Seq::<char>::empty());
        assert(g =~= Seq::<u16>::empty());
    } else {
        lemma_hex_groups_shape(g);
        lemma_hex_group_list_texts(g);
        let parts = split(hex_groups(g), ':');
        lemma_hex_text_chars(g.last() as nat);
        assert(parts.last() == hex_text(g.last() as nat));
        lemma_parse_ipv4_no_dot(parts.last());
    }
}

/// A zero run lies inside the groups and holds only zeros.
proof fn lemma_zero_run(g: Seq<u16>, i: int)
    requires
        0 <= i <= g.len(),
    ensures
        i + zero_run(g, i) <= g.len(),
        forall|k: int| i <= k < i + zero_run(g, i) ==> g[k] == 0,
    decreases g.len() - i,
{
    if i < g.len() && g[i] == 0 {
        lemma_zero_run(g, i + 1);
    }
}

/// The run that `longest_zero_run` picks is a zero run of its length.
proof fn lemma_longest_zero_run(g: Seq<u16>, n: int)
    requires
        0 <= n <= g.len(),
    ensures
        0 <= longest_zero_run(g, n).0,
        longest_zero_run(g, n).1 > 0 ==> longest_zero_run(g, n).0 < n
            && longest_zero_run(g, n).1 == zero_run(g, longest_zero_run(g, n).0),
    decreases n,
{
    if n > 0 {
        lemma_longest_zero_run(g, n - 1);
    }
}

/// The first "::" at or after `i` is at `p`.
proof fn lemma_find_double_colon_at(s: Seq<char>, i: int, p: int)
    requires
        0 <= i <= p,
        p + 1 < s.len(),
        s[p] == ':' && s[p + 1] == ':',
        forall|j: int| i <= j < p ==> !(#[trigger] s[j] == ':' && s[j + 1] == ':'),
    ensures
        find_double_colon(s, i) == Some(p),
    decreases p - i,
{
    if i < p {
        lemma_find_double_colon_at(s, i + 1, p);
    }
}

/// Text with no "::" has none at or after `i`.
proof fn lemma_find_double_colon_none(s: Seq<char>, i: int)
    requires
        0 <= i,
        forall|j: int| i <= j < s.len() - 1 ==> !(#[trigger] s[j] == ':' && s[j + 1] == ':'),
    ensures
        find_double_colon(s, i) is None,
    decreases s.len() - i,
{
    if i + 1 < s.len() {
        lemma_find_double_colon_none(s, i + 1);
    }
}

proof fn lemma_byte_pair(a: u8, b: u8)
    ensures
        ((a as int * 256 + b as int) as u16) / 256 == a,
        ((a as int * 256 + b as int) as u16) % 256 == b,
{
    assert(0 <= a as int * 256 + b as int <= 0xffff) by (nonlinear_arith)
        requires
            0 <= a <= 255,
            0 <= b <= 255,
    ;
    let v = a as int * 256 + b as int;
    assert(v / 256 == a as int && v % 256 == b as int) by (nonlinear_arith)
        requires
            v == a as int * 256 + b as int,
            0 <= a <= 255,
            0 <= b <= 255,
    ;
}

/// Sixteen octets are the octets of their own groups.
proof fn lemma_octets_of_segments(o: Seq<u8>)
    requires
        o.len() == 16,
    ensures
        octets_of_groups(segments(o)) == o,
{
    let g = segments(o);
    assert forall|i: int| 0 <= i < 16 implies #[trigger] octets_of_groups(g)[i] == o[i] by {
        let k = i / 2;
        lemma_byte_pair(o[2 * k], o[2 * k + 1]);
        assert(g[k] == ((o[2 * k] as int * 256 + o[2 * k + 1] as int) as u16));
        if i % 2 == 0 {
            assert(i == 2 * k);
        } else {
            assert(i == 2 * k + 1);
        }
    }
    assert(octets_of_groups(g) =~= o);
}

/// Dotted-decimal text holds only digits and '.'.
pub proof fn lemma_ipv4_text_lacks(o: Seq<u8>, c: char)
    requires
        o.len() == 4,
        !is_digit(c),
        c != '.',
    ensures
        !ipv4_text(o).contains(c),
{
    let ip = ipv4_text(o);
    lemma_dec_text_lacks(o[0] as nat, c);
    lemma_dec_text_lacks(o[1] as nat, c);
    lemma_dec_text_lacks(o[2] as nat, c);
    lemma_dec_text_lacks(o[3] as nat, c);
    if ip.contains(c) {
        let j = choose|j: int| 0 <= j < ip.len() && ip[j] == c;
        let d0 = dec_text(o[0] as nat);
        let d1 = dec_text(o[1] as nat);
        let d2 = dec_text(o[2] as nat);
        let d3 = dec_text(o[3] as nat);
        if j < d0.len() {
            assert(ip[j] == d0[j]);
        } else if j == d0.len() {
        } else if j < d0.len() + 1 + d1.len() {
            assert(ip[j] == d1[j - d0.len() - 1]);
        } else if j == d0.len() + 1 + d1.len() {
        } else if j < d0.len() + 2 + d1.len() + d2.len() {
            assert(ip[j] == d2[j - d0.len() - 2 - d1.len()]);
        } else if j == d0.len() + 2 + d1.len() + d2.len() {
        } else {
            assert(ip[j] == d3[j - d0.len() - 3 - d1.len() - d2.len()]);
        }
    }
}

proof fn lemma_ipv6_mapped_roundtrip(o: Seq<u8>)
    requires
        o.len() == 16,
        is_ipv4_mapped(o),
    ensures
        parse_ipv6(ipv6_text(o)) == Some(o),
{
    let v4 = o.subrange(12, 16);
    let v = ipv4_text(v4);
    let f = seq!['f', 'f', 'f', 'f'];
    let s = ipv6_text(o);
    assert(s == seq![':', ':', 'f', 'f', 'f', 'f', ':'] + v);
    assert(find_double_colon(s, 0) == Some(0int));
    assert(s.subrange(0, 0) =~= Seq::<char>::empty());
    let tail = s.subrange(2, s.len() as int);
    assert(tail =~= f + seq![':'] + v);
    lemma_ipv4_text_lacks(v4, ':');
    lemma_split_no_sep(v, ':');
    assert(!f.contains(':')) by {
        if f.contains(':') {
            let j = choose|j: int| 0 <= j < f.len() && f[j] == ':';
            assert(f[j] == 'f');
        }
    }
    lemma_split_no_sep(f, ':');
    lemma_split_concat(f, ':', v);
    let parts = split(tail, ':');
    assert(parts =~= seq![f, v]);
    lemma_ipv4_text_roundtrip(v4);
    assert(parts.drop_last() =~= seq![f]);
    assert(hex_group(f) == Some(0xffffu16)) by {
        reveal_with_fuel(hex_text, 5);
        assert(hex_text(0xffff) =~= f);
        lemma_hex_group_of_text(0xffff);
    }
    let t = seq![0xffffu16] + ipv4_groups(v4);
    assert(hex_group_list(seq![f]) == Some(seq![0xffffu16])) by {
        assert(seq![f].drop_last() =~= Seq::<Seq<char>>::empty());
        assert(seq![f].last() == f);
        assert(hex_group_list(Seq::<Seq<char>>::empty()) == Some(Seq::<u16>::empty()));
        assert(Seq::<u16>::empty().push(0xffffu16) =~= seq![0xffffu16]);
    }
    assert(groups_of(tail, true) == Some(t));
    let all = Seq::<u16>::empty() + Seq::new(5, |i: int| 0u16) + t;
    lemma_byte_pair(o[12], o[13]);
    lemma_byte_pair(o[14], o[15]);
    assert(octets_of_groups(all) =~= o) by {
        assert forall|i: int| 0 <= i < 16 implies #[trigger] octets_of_groups(all)[i] == o[i] by {
            if i < 10 {
                assert(all[i / 2] == 0);
            } else if i < 12 {
                assert(all[i / 2] == 0xffffu16);
            } else if i < 14 {
                assert(all[i / 2] == ((o[12] as int * 256 + o[13] as int) as u16));
            } else {
                assert(all[i / 2] == ((o[14] as int * 256 + o[15] as int) as u16));
            }
        }
    }
}

/// Groups before and after "::" read back with zeros between them.
proof fn lemma_parse_compressed(h: Seq<u16>, t: Seq<u16>)
    requires
        h.len() + t.len() <= 7,
    ensures
        parse_ipv6(hex_groups(h) + seq![':', ':'] + hex_groups(t)) == Some(
            octets_of_groups(h + Seq::new((8 - h.len() - t.len()) as nat, |i: int| 0u16) + t),
        ),
{
    let hs = hex_groups(h);
    let ts = hex_groups(t);
    let s = hs + seq![':', ':'] + ts;
    let p = hs.len() as int;
    if h.len() > 0 {
        lemma_hex_groups_shape(h);
    } else {
        assert(hs =~= Seq::<char>::empty());
    }
    assert forall|j: int| 0 <= j < p implies !(#[trigger] s[j] == ':' && s[j + 1] == ':') by {
        assert(s[j] == hs[j]);
        if j < p - 1 {
            assert(s[j + 1] == hs[j + 1]);
        } else {
            assert(hs[j] == hs.last());
        }
    }
    lemma_find_double_colon_at(s, 0, p);
    assert(s.subrange(0, p) =~= hs);
    assert(s.subrange(p + 2, s.len() as int) =~= ts);
    lemma_groups_of_hex(h, false);
    lemma_groups_of_hex(t, true);
}

/// Eight groups without "::" read back as themselves.
proof fn lemma_parse_full(g: Seq<u16>)
    requires
        g.len() == 8,
    ensures
        parse_ipv6(hex_groups(g)) == Some(octets_of_groups(g)),
{
    lemma_hex_groups_shape(g);
    lemma_find_double_colon_none(hex_groups(g), 0);
    lemma_groups_of_hex(g, true);
}

/// The groups of an address that is not IPv4-mapped, with the zero groups
/// that its text leaves out in the middle.
proof fn lemma_ipv6_text_groups(o: Seq<u8>) -> (r: (Seq<u16>, Seq<u16>))
    requires
        o.len() == 16,
        !is_ipv4_mapped(o),
    ensures
        longest_zero_run(segments(o), 8).1 > 1 ==> {
            &&& r.0.len() + r.1.len() <= 7
            &&& ipv6_text(o) == hex_groups(r.0) + seq![':', ':'] + hex_groups(r.1)
            &&& r.0 + Seq::new((8 - r.0.len() - r.1.len()) as nat, |i: int| 0u16) + r.1
                == segments(o)
        },
        longest_zero_run(segments(o), 8).1 <= 1 ==> ipv6_text(o) == hex_groups(segments(o)),
{
    let g = segments(o);
    let st = longest_zero_run(g, 8).0;
    let l = longest_zero_run(g, 8).1;
    lemma_longest_zero_run(g, 8);
    let h = g.subrange(0, st);
    let t = g.subrange(st + l, 8);
    if l > 1 {
        lemma_zero_run(g, st);
        let z = Seq::new((8 - h.len() - t.len()) as nat, |i: int| 0u16);
        assert(h + z + t =~= g);
    }
    (h, t)
}

#[verifier::spinoff_prover]
#[verifier::rlimit(40)]
proof fn lemma_ipv6_groups_roundtrip(o: Seq<u8>)
    requires
        o.len() == 16,
        !is_ipv4_mapped(o),
    ensures
        parse_ipv6(ipv6_text(o)) == Some(o),
{
    let g = segments(o);
    lemma_octets_of_segments(o);
    let (h, t) = lemma_ipv6_text_groups(o);
    if longest_zero_run(g, 8).1 > 1 {
        lemma_parse_compressed(h, t);
    } else {
        lemma_parse_full(g);
    }
}

/// IPv6 text reads back as the same sixteen octets.
pub proof fn lemma_ipv6_text_roundtrip(o: Seq<u8>)
    requires
        o.len() == 16,
    ensures
        parse_ipv6(ipv6_text(o)) == Some(o),
{
    if is_ipv4_mapped(o) {
        lemma_ipv6_mapped_roundtrip(o);
    } else {
        lemma_ipv6_groups_roundtrip(o);
    }
}

/// The first part of a split starts with the text's first character, when
/// that is no separator.
proof fn lemma_split_first(s: Seq<char>, sep: char)
    requires
        s.len() > 0,
        s[0] != sep,
    ensures
        split(s, sep)[0].len() > 0,
        split(s, sep)[0][0] == s[0],
    decreases s.len(),
{
    let d = s.drop_last();
    lemma_split_nonempty(d, sep);
    if s.len() == 1 {
        assert(d =~= Seq::<char>::empty());
        assert(s.last() == s[0]);
    } else {
        lemma_split_first(d, sep);
        assert(d[0] == s[0]);
        let p = split(d, sep);
        if s.last() != sep && p.len() == 1 {
            assert(p.last() == p[0]);
            assert(p.last().push(s.last())[0] == p[0][0]);
        }
    }
}

/// Text that starts with neither a digit nor '.' is no IPv4 address.
proof fn lemma_parse_ipv4_bad_start(s: Seq<char>)
    requires
        s.len() > 0,
        !is_digit(s[0]),
        s[0] != '.',
    ensures
        parse_ipv4(s) is None,
{
    lemma_split_first(s, '.');
    let p0 = split(s, '.')[0];
    assert(!is_digit(p0[0]));
}

/// IPv6 text never reads as IPv4.
proof fn lemma_ipv6_text_not_ipv4(o: Seq<u8>)
    requires
        o.len() == 16,
    ensures
        parse_ipv4(ipv6_text(o)) is None,
{
    let s = ipv6_text(o);
    if is_ipv4_mapped(o) {
        assert(s[0] == ':');
        lemma_parse_ipv4_bad_start(s);
    } else {
        let g = segments(o);
        let (h, t) = lemma_ipv6_text_groups(o);
        if longest_zero_run(g, 8).1 > 1 {
            let hs = hex_groups(h);
            let ts = hex_groups(t);
            if h.len() > 0 {
                lemma_hex_groups_shape(h);
            } else {
                assert(hs =~= Seq::<char>::empty());
            }
            if t.len() > 0 {
                lemma_hex_groups_shape(t);
            } else {
                assert(ts =~= Seq::<char>::empty());
            }
            if s.contains('.') {
                let j = choose|j: int| 0 <= j < s.len() && s[j] == '.';
                if j < hs.len() {
                    assert(s[j] == hs[j]);
                } else if j >= hs.len() + 2 {
                    assert(s[j] == ts[j - hs.len() - 2]);
                }
            }
        } else {
            lemma_hex_groups_shape(g);
        }
        lemma_parse_ipv4_no_dot(s);
    }
}

/// The text of an IP address reads back as that address.
pub proof fn lemma_ip_text_roundtrip(ip: IpView)
    requires
        ip.wf(),
    ensures
        parse_ip(ip_text(ip)) == Some(ip),
{
    match ip {
        IpView::V4(o) => lemma_ipv4_text_roundtrip(o),
        IpView::V6(o) => {
            lemma_ipv6_text_not_ipv4(o);
            lemma_ipv6_text_roundtrip(o);
        },
    }
}

/// Dotted-decimal and IPv6 text hold only address characters.
proof fn lemma_ip_text_chars(ip: IpView)
    requires
        ip.wf(),
    ensures
        addr_chars(ip_text(ip)),
{
    match ip {
        IpView::V4(o) => lemma_ipv4_text_chars(o),
        IpView::V6(o) => {
            let s = ipv6_text(o);
            if is_ipv4_mapped(o) {
                let pre = seq![':', ':', 'f', 'f', 'f', 'f', ':'];
                assert forall|i: int| 0 <= i < pre.len() implies addr_char(#[trigger] pre[i]) by {}
                lemma_ipv4_text_chars(o.subrange(12, 16));
                lemma_addr_chars_concat(pre, ipv4_text(o.subrange(12, 16)));
            } else {
                let g = segments(o);
                let (h, t) = lemma_ipv6_text_groups(o);
                if longest_zero_run(g, 8).1 > 1 {
                    let hs = hex_groups(h);
                    let ts = hex_groups(t);
                    if h.len() > 0 {
                        lemma_hex_groups_shape(h);
                    } else {
                        assert(hs =~= Seq::<char>::empty());
                    }
                    if t.len() > 0 {
                        lemma_hex_groups_shape(t);
                    } else {
                        assert(ts =~= Seq::<char>::empty());
                    }
                    let cc = seq![':', ':'];
                    assert forall|i: int| 0 <= i < cc.len() implies addr_char(#[trigger] cc[i]) by {}
                    lemma_addr_chars_concat(hs, cc);
                    lemma_addr_chars_concat(hs + cc, ts);
                } else {
                    lemma_hex_groups_shape(g);
                }
            }
        },
    }
}

proof fn lemma_ipv4_text_chars(o: Seq<u8>)
    requires
        o.len() == 4,
    ensures
        addr_chars(ipv4_text(o)),
{
    let dot = seq!['.'];
    assert forall|i: int| 0 <= i < dot.len() implies addr_char(#[trigger] dot[i]) by {}
    lemma_dec_text_chars(o[0] as nat);
    lemma_dec_text_chars(o[1] as nat);
    lemma_dec_text_chars(o[2] as nat);
    lemma_dec_text_chars(o[3] as nat);
    let a = dec_text(o[0] as nat) + dot;
    lemma_addr_chars_concat(dec_text(o[0] as nat), dot);
    lemma_addr_chars_concat(a, dec_text(o[1] as nat));
    let b = a + dec_text(o[1] as nat);
    lemma_addr_chars_concat(b, dot);
    lemma_addr_chars_concat(b + dot, dec_text(o[2] as nat));
    let c = b + dot + dec_text(o[2] as nat);
    lemma_addr_chars_concat(c, dot);
    lemma_addr_chars_concat(c + dot, dec_text(o[3] as nat));
}

proof fn lemma_addr_chars_lack(s: Seq<char>, c: char)
    requires
        addr_chars(s),
        !addr_char(c),
    ensures
        !s.contains(c),
{
    if s.contains(c) {
        let j = choose|j: int| 0 <= j < s.len() && s[j] == c;
        assert(addr_char(s[j]));
    }
}

proof fn lemma_last_index_from(s: Seq<char>, c: char, p: int, i: int)
    requires
        0 <= p < i <= s.len(),
        s[p] == c,
        forall|j: int| p < j < i ==> s[j] != c,
    ensures
        last_index(s, c, i) == Some(p),
    decreases i,
{
    if i - 1 > p {
        lemma_last_index_from(s, c, p, i - 1);
    }
}

proof fn lemma_first_index_from(s: Seq<char>, c: char, i: int, p: int)
    requires
        0 <= i <= p < s.len(),
        s[p] == c,
        forall|j: int| i <= j < p ==> s[j] != c,
    ensures
        first_index(s, c, i) == Some(p),
    decreases p - i,
{
    if i < p {
        lemma_first_index_from(s, c, i + 1, p);
    }
}

/// The "host:port" text of a request reads back as the same request: for
/// every IP address, and for every domain that is not empty and does not
/// itself read as an IP address (such a domain reads back as that address).
pub proof fn lemma_target_roundtrip(r: RequestView)
    requires
        r.wf(),
        r.target matches TargetView::Domain(d) ==> d.len() > 0 && parse_ip(d) is None,
    ensures
        parse_target_text(target_text(r)) == Ok::<RequestView, TargetError>(r),
{
    let host = host_text(r.target);
    let p = dec_text(r.port as nat);
    let s = target_text(r);
    lemma_dec_text_lacks(r.port as nat, ':');
    lemma_dec_text_digits(r.port as nat);
    assert forall|j: int| host.len() < j < s.len() implies s[j] != ':' by {
        assert(s[j] == p[j - host.len() - 1]);
    }
    lemma_last_index_from(s, ':', host.len() as int, s.len() as int);
    assert(s.subrange(0, host.len() as int) =~= host);
    assert(s.subrange(host.len() as int + 1, s.len() as int) =~= p);
    assert(p[0] != '+') by {
        assert(is_digit(p[0]));
    }
    if let TargetView::Ip(ip) = r.target {
        lemma_ip_text_roundtrip(ip);
    }
}

proof fn lemma_bracket_shape(inner: Seq<char>, p: Seq<char>)
    requires
        !inner.contains(']'),
    ensures
        ({
            let s = seq!['['] + inner + seq![']', ':'] + p;
            let q = inner.len() as int + 1;
            &&& s.len() > 0 && s[0] == '['
            &&& first_index(s, ']', 0) == Some(q)
            &&& q + 1 < s.len() && s[q + 1] == ':'
            &&& s.subrange(1, q) == inner
            &&& s.subrange(q + 2, s.len() as int) == p
        }),
{
    let s = seq!['['] + inner + seq![']', ':'] + p;
    let q = inner.len() as int + 1;
    assert forall|j: int| 0 <= j < q implies s[j] != ']' by {
        if j > 0 {
            assert(s[j] == inner[j - 1]);
        }
    }
    lemma_first_index_from(s, ']', 0, q);
    assert(s.subrange(1, q) =~= inner);
    assert(s.subrange(q + 2, s.len() as int) =~= p);
}

/// Text that starts with '[' is no IPv4 socket address.
proof fn lemma_bracket_not_v4(s: Seq<char>)
    requires
        s.len() > 0,
        s[0] == '[',
    ensures
        parse_socket_v4(s) is None,
{
    lemma_split_nonempty(s, ':');
    lemma_split_first(s, ':');
    lemma_parse_ipv4_bad_start(split(s, ':')[0]);
}

/// What stands between the brackets of an IPv6 socket address.
proof fn lemma_scoped_inner(o: Seq<u8>, scope_id: u32) -> (inner: Seq<char>)
    requires
        o.len() == 16,
    ensures
        !inner.contains(']'),
        scope_id == 0 ==> inner == ipv6_text(o) && split(inner, '%').len() == 1,
        scope_id != 0 ==> inner == ipv6_text(o) + seq!['%'] + dec_text(scope_id as nat)
            && split(inner, '%') == seq![ipv6_text(o), dec_text(scope_id as nat)],
        scope_id != 0 ==> digits_within(dec_text(scope_id as nat), 0xffff_ffff) == Some(
            scope_id as nat,
        ),
{
    let ip = ipv6_text(o);
    lemma_ip_text_chars(IpView::V6(o));
    lemma_addr_chars_lack(ip, ']');
    lemma_addr_chars_lack(ip, '%');
    if scope_id == 0 {
        lemma_split_no_sep(ip, '%');
        ip
    } else {
        let d = dec_text(scope_id as nat);
        let inner = ip + seq!['%'] + d;
        lemma_dec_text_digits(scope_id as nat);
        lemma_dec_text_lacks(scope_id as nat, '%');
        lemma_dec_text_lacks(scope_id as nat, ']');
        lemma_split_no_sep(ip, '%');
        lemma_split_no_sep(d, '%');
        lemma_split_concat(ip, '%', d);
        if inner.contains(']') {
            let j = choose|j: int| 0 <= j < inner.len() && inner[j] == ']';
            if j < ip.len() {
                assert(inner[j] == ip[j]);
            } else if j > ip.len() {
                assert(inner[j] == d[j - ip.len() - 1]);
            }
        }
        inner
    }
}

#[verifier::spinoff_prover]
proof fn lemma_socket_v6_roundtrip(a: SocketView)
    requires
        a.ip.wf(),
        a.ip is V6,
    ensures
        parse_socket(socket_text(a)) == Some(a),
{
    let o = a.ip->V6_0;
    let p = dec_text(a.port as nat);
    lemma_dec_text_digits(a.port as nat);
    lemma_ipv6_text_roundtrip(o);
    let inner = lemma_scoped_inner(o, a.scope_id);
    let s = socket_text(a);
    assert(s == seq!['['] + inner + seq![']', ':'] + p);
    lemma_bracket_shape(inner, p);
    lemma_bracket_not_v4(s);
}

/// Socket address text reads back as the same address: every IPv6 address
/// with its scope, and every IPv4 address (which has no scope).
pub proof fn lemma_socket_roundtrip(a: SocketView)
    requires
        a.ip.wf(),
        a.ip is V4 ==> a.scope_id == 0,
    ensures
        parse_socket(socket_text(a)) == Some(a),
{
    match a.ip {
        IpView::V4(o) => {
            let s = socket_text(a);
            let p = dec_text(a.port as nat);
            let ip = ipv4_text(o);
            lemma_dec_text_digits(a.port as nat);
            lemma_dec_text_lacks(a.port as nat, ':');
            lemma_ipv4_text_roundtrip(o);
            lemma_ipv4_text_lacks(o, ':');
            lemma_split_no_sep(ip, ':');
            lemma_split_no_sep(p, ':');
            lemma_split_concat(ip, ':', p);
            assert(split(s, ':') =~= seq![ip, p]);
        },
        IpView::V6(o) => lemma_socket_v6_roundtrip(a),
    }
}

} // verus!
