//! What the networks sent through the TUN device on macOS cover, read from
//! their text as "a.b.c.d/len".

use vstd::prelude::*;
use vstd::arithmetic::power2::{lemma2_to64, pow2};

use crate::net::{ipv4_text, lemma_ipv4_text_roundtrip, parse_ipv4};
use crate::net_laws::lemma_ipv4_text_lacks;
use crate::panel::macos_routes;
use crate::text::{
    dec_text, digits_within, lemma_dec_text_digits, lemma_dec_text_lacks, lemma_split_concat,
    lemma_split_no_sep, split,
};

verus! {

/// The number an IPv4 address stands for.
pub open spec fn ipv4_value(o: Seq<u8>) -> int {
    o[0] as int * 16777216 + o[1] as int * 65536 + o[2] as int * 256 + o[3] as int
}

/// The address and prefix length of "a.b.c.d/len" text, if it reads as one.
pub open spec fn cidr_parts(t: Seq<char>) -> Option<(Seq<u8>, nat)> {
    let parts = split(t, '/');
    if parts.len() == 2 && parse_ipv4(parts[0]) is Some && digits_within(parts[1], 32) is Some {
        Some((parse_ipv4(parts[0]).unwrap(), digits_within(parts[1], 32).unwrap()))
    } else {
        None
    }
}

/// The network written as `t` holds the address numbered `x`: both agree in
/// the first `len` bits.
pub open spec fn cidr_covers(t: Seq<char>, x: int) -> bool {
    match cidr_parts(t) {
        Some((o, l)) => x / (pow2((32 - l) as nat) as int) == ipv4_value(o) / (pow2(
            (32 - l) as nat,
        ) as int),
        None => false,
    }
}

proof fn lemma_cidr_of(a: u8, l: nat)
    requires
        l <= 32,
    ensures
        cidr_parts(ipv4_text(seq![a, 0u8, 0u8, 0u8]) + seq!['/'] + dec_text(l)) == Some(
            (seq![a, 0u8, 0u8, 0u8], l),
        ),
{
    let o = seq![a, 0u8, 0u8, 0u8];
    let ip = ipv4_text(o);
    let d = dec_text(l);
    lemma_ipv4_text_roundtrip(o);
    lemma_ipv4_text_lacks(o, '/');
    lemma_dec_text_lacks(l, '/');
    lemma_dec_text_digits(l);
    lemma_split_no_sep(ip, '/');
    lemma_split_no_sep(d, '/');
    lemma_split_concat(ip, '/', d);
    assert(split(ip + seq!['/'] + d, '/') =~= seq![ip, d]);
}

/// The text of the `i`-th of the first eight networks: 2^i.0.0.0/(8 - i).
proof fn lemma_route_text(i: int)
    requires
        0 <= i < 8,
    ensures
        i == 0 ==> macos_routes()[i] == ipv4_text(seq![1u8, 0u8, 0u8, 0u8]) + seq!['/'] + dec_text(8),
        i == 1 ==> macos_routes()[i] == ipv4_text(seq![2u8, 0u8, 0u8, 0u8]) + seq!['/'] + dec_text(7),
        i == 2 ==> macos_routes()[i] == ipv4_text(seq![4u8, 0u8, 0u8, 0u8]) + seq!['/'] + dec_text(6),
        i == 3 ==> macos_routes()[i] == ipv4_text(seq![8u8, 0u8, 0u8, 0u8]) + seq!['/'] + dec_text(5),
        i == 4 ==> macos_routes()[i] == ipv4_text(seq![16u8, 0u8, 0u8, 0u8]) + seq!['/'] + dec_text(4),
        i == 5 ==> macos_routes()[i] == ipv4_text(seq![32u8, 0u8, 0u8, 0u8]) + seq!['/'] + dec_text(3),
        i == 6 ==> macos_routes()[i] == ipv4_text(seq![64u8, 0u8, 0u8, 0u8]) + seq!['/'] + dec_text(2),
        i == 7 ==> macos_routes()[i] == ipv4_text(seq![128u8, 0u8, 0u8, 0u8]) + seq!['/'] + dec_text(1),
{
    reveal_with_fuel(dec_text, 4);
    if i == 0 {
        reveal_strlit("1.0.0.0/8");
        assert(macos_routes()[i] =~= ipv4_text(seq![1u8, 0u8, 0u8, 0u8]) + seq!['/'] + dec_text(8));
    } else if i == 1 {
        reveal_strlit("2.0.0.0/7");
        assert(macos_routes()[i] =~= ipv4_text(seq![2u8, 0u8, 0u8, 0u8]) + seq!['/'] + dec_text(7));
    } else if i == 2 {
        reveal_strlit("4.0.0.0/6");
        assert(macos_routes()[i] =~= ipv4_text(seq![4u8, 0u8, 0u8, 0u8]) + seq!['/'] + dec_text(6));
    } else if i == 3 {
        reveal_strlit("8.0.0.0/5");
        assert(macos_routes()[i] =~= ipv4_text(seq![8u8, 0u8, 0u8, 0u8]) + seq!['/'] + dec_text(5));
    } else if i == 4 {
        reveal_strlit("16.0.0.0/4");
        assert(macos_routes()[i] =~= ipv4_text(seq![16u8, 0u8, 0u8, 0u8]) + seq!['/'] + dec_text(4));
    } else if i == 5 {
        reveal_strlit("32.0.0.0/3");
        assert(macos_routes()[i] =~= ipv4_text(seq![32u8, 0u8, 0u8, 0u8]) + seq!['/'] + dec_text(3));
    } else if i == 6 {
        reveal_strlit("64.0.0.0/2");
        assert(macos_routes()[i] =~= ipv4_text(seq![64u8, 0u8, 0u8, 0u8]) + seq!['/'] + dec_text(2));
    } else {
        reveal_strlit("128.0.0.0/1");
        assert(macos_routes()[i] =~= ipv4_text(seq![128u8, 0u8, 0u8, 0u8]) + seq!['/'] + dec_text(1));
    }
}

proof fn lemma_div_is_one(x: int, d: int)
    requires
        d > 0,
    ensures
        (x / d == 1) <==> (d <= x < 2 * d),
{
    assert((x / d == 1) <==> (d <= x < 2 * d)) by (nonlinear_arith)
        requires
            d > 0,
    ;
}

/// The first octet of the `i`-th of the first eight networks: 2^i.
pub open spec fn route_octet(i: int) -> u8 {
    if i == 0 {
        1
    } else if i == 1 {
        2
    } else if i == 2 {
        4
    } else if i == 3 {
        8
    } else if i == 4 {
        16
    } else if i == 5 {
        32
    } else if i == 6 {
        64
    } else {
        128
    }
}

/// The `i`-th of the first eight networks holds exactly the addresses from
/// 2^(24 + i) up to, not including, 2^(25 + i).
proof fn lemma_route_covers(i: int, x: int)
    requires
        0 <= i < 8,
    ensures
        cidr_covers(macos_routes()[i], x) <==> (pow2((24 + i) as nat) <= x < pow2((25 + i) as nat)),
{
    lemma2_to64();
    lemma_route_text(i);
    let a = route_octet(i);
    let l = (8 - i) as nat;
    let o = seq![a, 0u8, 0u8, 0u8];
    lemma_cidr_of(a, l);
    assert(macos_routes()[i] == ipv4_text(o) + seq!['/'] + dec_text(l));
    let d = pow2((24 + i) as nat) as int;
    assert(ipv4_value(o) == d);
    assert((32 - l) as nat == (24 + i) as nat);
    assert(pow2((25 + i) as nat) == 2 * d);
    lemma_div_is_one(x, d);
    lemma_div_is_one(d, d);
}

/// Some one of the first eight networks holds the address numbered `x`.
pub open spec fn routed_to_tun(x: int) -> bool {
    exists|i: int| 0 <= i < 8 && #[trigger] cidr_covers(macos_routes()[i], x)
}

/// The networks that TUN mode sends to the TUN device on macOS (the first
/// eight routes; the ninth is the benchmark range) take every IPv4 address
/// but those of 0.0.0.0/8, each address through exactly one of them.
pub proof fn lemma_macos_routes_partition()
    ensures
        forall|x: int| 16777216 <= x < 4294967296 ==> #[trigger] routed_to_tun(x),
        forall|x: int, i: int, j: int|
            0 <= i < 8 && 0 <= j < 8 && #[trigger] cidr_covers(macos_routes()[i], x)
                && #[trigger] cidr_covers(macos_routes()[j], x) ==> i == j,
        forall|x: int, i: int|
            0 <= i < 8 && x < 16777216 ==> !#[trigger] cidr_covers(macos_routes()[i], x),
{
    lemma2_to64();
    assert forall|i: int, x: int| 0 <= i < 8 implies (#[trigger] cidr_covers(macos_routes()[i], x)
        <==> pow2((24 + i) as nat) <= x < pow2((25 + i) as nat)) by {
        lemma_route_covers(i, x);
    }
    assert forall|x: int| 16777216 <= x < 4294967296 implies #[trigger] routed_to_tun(x) by {
        let i: int = if x < 0x2000000 {
            0
        } else if x < 0x4000000 {
            1
        } else if x < 0x8000000 {
            2
        } else if x < 0x10000000 {
            3
        } else if x < 0x20000000 {
            4
        } else if x < 0x40000000 {
            5
        } else if x < 0x80000000 {
            6
        } else {
            7
        };
        assert(cidr_covers(macos_routes()[i], x));
    }
    assert forall|x: int, i: int, j: int|
        0 <= i < 8 && 0 <= j < 8 && #[trigger] cidr_covers(macos_routes()[i], x)
            && #[trigger] cidr_covers(macos_routes()[j], x) implies i == j by {
        if i < j {
            assert(pow2((25 + i) as nat) <= pow2((24 + j) as nat));
        } else if j < i {
            assert(pow2((25 + j) as nat) <= pow2((24 + i) as nat));
        }
    }
}

} // verus!
