//! Command-line handling of the programs (server, client runtime, benchmark,
//! DNS helper) and the DNS-over-TCP framing of the DNS helper.

use vstd::prelude::*;

use crate::bytes::{be16_bytes, push_all, push_be16};
use crate::net::{parse_socket, read_socket_addr, SocketAddr, SocketView};
use crate::proto::{IpAddr, IpView};
use crate::runtime::string_texts;
use crate::text::{chars_of, parse_unsigned, push_str_chars, std_unsigned_value, str_eq, string_of};

verus! {

/// The value after the first occurrence of `name` that has one.
pub open spec fn flag_value(args: Seq<Seq<char>>, name: Seq<char>, i: int) -> Option<Seq<char>>
    decreases args.len() - i,
{
    if i < 0 || i + 1 >= args.len() {
        None
    } else if args[i] == name {
        Some(args[i + 1])
    } else {
        flag_value(args, name, i + 1)
    }
}

/// The value following the first `name` among `args`, if any.
pub fn get_flag(args: &Vec<String>, name: &str) -> (r: Option<String>)
    ensures
        match r {
            Some(v) => flag_value(string_texts(args@), name@, 0) == Some(v@),
            None => flag_value(string_texts(args@), name@, 0) is None,
        },
{
    let ghost t = string_texts(args@);
    let mut i: usize = 0;
    while args.len() > 0 && i < args.len() - 1
        invariant
            i <= args@.len(),
            t == string_texts(args@),
            flag_value(t, name@, 0) == flag_value(t, name@, i as int),
        decreases args@.len() - i,
    {
        if str_eq(args[i].as_str(), name) {
            assert(t[i as int] == args@[i as int]@);
            assert(t[i + 1] == args@[i + 1]@);
            return Some(args[i + 1].clone());
        }
        i = i + 1;
    }
    None
}

/// The path after "--config", or `default_path`.
pub fn config_path_from_args(args: &Vec<String>, default_path: &str) -> (r: String)
    ensures
        r@ == match flag_value(string_texts(args@), "--config"@, 0) {
            Some(v) => v,
            None => default_path@,
        },
{
    match get_flag(args, "--config") {
        Some(v) => v,
        None => String::from_str(default_path),
    }
}

/// Index of the sample at `percentile` percent among `len` sorted samples.
pub open spec fn percentile_index(len: nat, percentile: nat) -> int {
    ((len - 1) * percentile) / 100
}

/// Index of the sample at `percentile` percent among `len` sorted samples.
pub fn percentile_rank(len: usize, percentile: usize) -> (r: usize)
    requires
        len >= 1,
        (len - 1) * percentile <= usize::MAX,
    ensures
        r == percentile_index(len as nat, percentile as nat),
        percentile <= 100 ==> r < len,
{
    proof {
        if percentile <= 100 {
            lemma_percentile_index(len as nat, percentile as nat, 100);
        }
    }
    ((len - 1) * percentile) / 100
}

/// Percentile indexes grow with the percentile and stay among the samples:
/// 0 percent is the first (smallest) sample and 100 percent the last.
pub proof fn lemma_percentile_index(len: nat, p: nat, q: nat)
    requires
        len >= 1,
        p <= q <= 100,
    ensures
        0 <= percentile_index(len, p) <= percentile_index(len, q) < len,
        percentile_index(len, 0) == 0,
        percentile_index(len, 100) == len - 1,
{
    assert(0 <= (len - 1) * p <= (len - 1) * q <= (len - 1) * 100) by (nonlinear_arith)
        requires
            len >= 1,
            p <= q <= 100,
    ;
    let a = (len - 1) * p;
    let b = (len - 1) * q;
    assert(0 <= a / 100 <= b / 100) by (nonlinear_arith)
        requires
            0 <= a <= b,
    ;
    assert(b / 100 <= len - 1) by (nonlinear_arith)
        requires
            b <= (len - 1) * 100,
            len >= 1,
    ;
    assert(((len - 1) * 100) / 100 == len - 1) by (nonlinear_arith)
        requires
            len >= 1,
    ;
}

/// Settings of the DNS helper.
pub struct DnsHelperConfig {
    pub listen_addr: SocketAddr,
    pub socks_addr: SocketAddr,
    pub upstreams: Vec<SocketAddr>,
    pub timeout_ms: u64,
}

pub struct DnsConfigView {
    pub listen_addr: SocketView,
    pub socks_addr: SocketView,
    pub upstreams: Seq<SocketView>,
    pub timeout_ms: u64,
}

impl View for DnsHelperConfig {
    type V = DnsConfigView;

    open spec fn view(&self) -> DnsConfigView {
        DnsConfigView {
            listen_addr: self.listen_addr@,
            socks_addr: self.socks_addr@,
            upstreams: Seq::new(self.upstreams@.len(), |i: int| self.upstreams@[i]@),
            timeout_ms: self.timeout_ms,
        }
    }
}

pub open spec fn v4(a: u8, b: u8, c: u8, d: u8, port: u16) -> SocketView {
    SocketView { ip: IpView::V4(seq![a, b, c, d]), port, scope_id: 0 }
}

/// Reading the arguments from `i` on, starting from `c`.
#[verifier::opaque]
pub open spec fn dns_args(args: Seq<Seq<char>>, i: int, c: DnsConfigView) -> Result<
    DnsConfigView,
    Seq<char>,
>
    decreases args.len() - i,
{
    if i < 0 || i >= args.len() {
        Ok(c)
    } else {
        let arg = args[i];
        let has_value = i + 1 < args.len();
        if arg == "--listen"@ {
            if !has_value {
                Err("missing value for --listen"@)
            } else {
                match parse_socket(args[i + 1]) {
                    Some(a) => dns_args(args, i + 2, DnsConfigView { listen_addr: a, ..c }),
                    None => Err("invalid --listen address"@),
                }
            }
        } else if arg == "--socks"@ {
            if !has_value {
                Err("missing value for --socks"@)
            } else {
                match parse_socket(args[i + 1]) {
                    Some(a) => dns_args(args, i + 2, DnsConfigView { socks_addr: a, ..c }),
                    None => Err("invalid --socks address"@),
                }
            }
        } else if arg == "--upstream"@ {
            if !has_value {
                Err("missing value for --upstream"@)
            } else {
                match parse_socket(args[i + 1]) {
                    Some(a) => dns_args(
                        args,
                        i + 2,
                        DnsConfigView { upstreams: c.upstreams.push(a), ..c },
                    ),
                    None => Err("invalid --upstream address"@),
                }
            }
        } else if arg == "--timeout-ms"@ {
            if !has_value {
                Err("missing value for --timeout-ms"@)
            } else {
                match std_unsigned_value(args[i + 1], 0xffff_ffff_ffff_ffff) {
                    Some(v) => dns_args(args, i + 2, DnsConfigView { timeout_ms: v as u64, ..c }),
                    None => Err("invalid --timeout-ms"@),
                }
            }
        } else {
            Err("unknown argument: "@ + arg)
        }
    }
}

/// Reading past the last argument leaves the settings as they are.
pub proof fn lemma_dns_args_done(args: Seq<Seq<char>>, i: int, c: DnsConfigView)
    requires
        i >= args.len(),
    ensures
        dns_args(args, i, c) == Ok::<DnsConfigView, Seq<char>>(c),
{
    reveal_with_fuel(dns_args, 1);
}

/// The DNS helper's settings from its arguments: listen on 127.0.0.1:53,
/// reach SOCKS5 at 127.0.0.1:7777, five-second timeout, and 1.1.1.1:53 then
/// 8.8.8.8:53 when no upstream is given.
pub open spec fn dns_config_from_args(args: Seq<Seq<char>>) -> Result<DnsConfigView, Seq<char>> {
    let start = DnsConfigView {
        listen_addr: v4(127, 0, 0, 1, 53),
        socks_addr: v4(127, 0, 0, 1, 7777),
        upstreams: Seq::empty(),
        timeout_ms: 5000,
    };
    match dns_args(args, 0, start) {
        Ok(c) => if c.upstreams.len() == 0 {
            Ok(DnsConfigView { upstreams: seq![v4(1, 1, 1, 1, 53), v4(8, 8, 8, 8, 53)], ..c })
        } else {
            Ok(c)
        },
        Err(e) => Err(e),
    }
}

/// The addresses given with "--upstream", in the order they are given,
/// reading the arguments from `i` as flag and value pairs.
pub open spec fn upstream_flags(args: Seq<Seq<char>>, i: int) -> Seq<SocketView>
    decreases args.len() - i,
{
    if i < 0 || i + 1 >= args.len() {
        Seq::empty()
    } else if args[i] == "--upstream"@ {
        seq![parse_socket(args[i + 1]).unwrap()] + upstream_flags(args, i + 2)
    } else {
        upstream_flags(args, i + 2)
    }
}

proof fn lemma_flag_names_differ()
    ensures
        "--listen"@ != "--upstream"@,
        "--socks"@ != "--upstream"@,
        "--timeout-ms"@ != "--upstream"@,
        "--socks"@ != "--listen"@,
        "--timeout-ms"@ != "--listen"@,
        "--timeout-ms"@ != "--socks"@,
{
    reveal_strlit("--listen");
    reveal_strlit("--socks");
    reveal_strlit("--upstream");
    reveal_strlit("--timeout-ms");
    assert("--listen"@.len() != "--upstream"@.len());
    assert("--socks"@.len() != "--upstream"@.len());
    assert("--timeout-ms"@.len() != "--upstream"@.len());
    assert("--socks"@.len() != "--listen"@.len());
    assert("--timeout-ms"@.len() != "--listen"@.len());
    assert("--timeout-ms"@.len() != "--socks"@.len());
}

proof fn lemma_dns_args_upstreams(args: Seq<Seq<char>>, i: int, c: DnsConfigView)
    requires
        0 <= i,
    ensures
        dns_args(args, i, c) matches Ok(d) ==> d.upstreams == c.upstreams + upstream_flags(args, i),
    decreases args.len() - i,
{
    if i < args.len() && i + 1 < args.len() {
        lemma_flag_names_differ();
        let arg = args[i];
        let value = args[i + 1];
        if arg == "--upstream"@ {
            if let Some(a) = parse_socket(value) {
                let next = DnsConfigView { upstreams: c.upstreams.push(a), ..c };
                assert(dns_args(args, i, c) == dns_args(args, i + 2, next)) by {
                    reveal_with_fuel(dns_args, 1);
                }
                lemma_dns_args_upstreams(args, i + 2, next);
                assert(c.upstreams.push(a) + upstream_flags(args, i + 2) =~= c.upstreams + (seq![a]
                    + upstream_flags(args, i + 2)));
            } else {
                assert(dns_args(args, i, c) is Err) by {
                    reveal_with_fuel(dns_args, 1);
                }
            }
        } else {
            assert(upstream_flags(args, i) == upstream_flags(args, i + 2));
            let next = if arg == "--listen"@ && parse_socket(value) is Some {
                Some(DnsConfigView { listen_addr: parse_socket(value).unwrap(), ..c })
            } else if arg == "--socks"@ && parse_socket(value) is Some {
                Some(DnsConfigView { socks_addr: parse_socket(value).unwrap(), ..c })
            } else if arg == "--timeout-ms"@ && std_unsigned_value(value, 0xffff_ffff_ffff_ffff) is Some {
                Some(
                    DnsConfigView {
                        timeout_ms: std_unsigned_value(value, 0xffff_ffff_ffff_ffff).unwrap() as u64,
                        ..c
                    },
                )
            } else {
                None
            };
            match next {
                Some(n) => {
                    assert(dns_args(args, i, c) == dns_args(args, i + 2, n)) by {
                        reveal_with_fuel(dns_args, 1);
                    }
                    lemma_dns_args_upstreams(args, i + 2, n);
                },
                None => {
                    assert(dns_args(args, i, c) is Err) by {
                        reveal_with_fuel(dns_args, 1);
                    }
                },
            }
        }
    } else if i < args.len() {
        assert(dns_args(args, i, c) is Err) by {
            reveal_with_fuel(dns_args, 1);
            lemma_flag_names_differ();
        }
    } else {
        assert(dns_args(args, i, c) == Ok::<DnsConfigView, Seq<char>>(c)) by {
            reveal_with_fuel(dns_args, 1);
        }
        assert(c.upstreams + upstream_flags(args, i) =~= c.upstreams);
    }
}

/// Every "--upstream" adds its address after those given before it, so the
/// helper asks the upstreams in the order given; only when none is given does
/// it ask 1.1.1.1:53 and then 8.8.8.8:53.
pub proof fn lemma_upstreams_in_order(args: Seq<Seq<char>>)
    ensures
        dns_config_from_args(args) matches Ok(c) ==> c.upstreams == if upstream_flags(args, 0).len()
            == 0 {
            seq![v4(1, 1, 1, 1, 53), v4(8, 8, 8, 8, 53)]
        } else {
            upstream_flags(args, 0)
        },
{
    let start = DnsConfigView {
        listen_addr: v4(127, 0, 0, 1, 53),
        socks_addr: v4(127, 0, 0, 1, 7777),
        upstreams: Seq::empty(),
        timeout_ms: 5000,
    };
    lemma_dns_args_upstreams(args, 0, start);
    assert(Seq::<SocketView>::empty() + upstream_flags(args, 0) =~= upstream_flags(args, 0));
}

fn v4_addr(a: u8, b: u8, c: u8, d: u8, port: u16) -> (r: SocketAddr)
    ensures
        r@ == v4(a, b, c, d, port),
{
    let o: [u8; 4] = [a, b, c, d];
    assert(o@ =~= seq![a, b, c, d]);
    SocketAddr { ip: IpAddr::V4(o), port, scope_id: 0 }
}

fn arg_error(prefix: &str, arg: &String) -> (r: String)
    ensures
        r@ == prefix@ + arg@,
{
    let mut out: Vec<char> = Vec::new();
    push_str_chars(&mut out, prefix);
    push_str_chars(&mut out, arg.as_str());
    string_of(out.as_slice())
}

/// Takes the argument at `i` (and its value) into `c`.
fn apply_dns_arg(c: &mut DnsHelperConfig, args: &Vec<String>, i: usize) -> (r: Result<(), String>)
    requires
        i < args@.len(),
    ensures
        r is Ok ==> dns_args(string_texts(args@), i as int, old(c)@) == dns_args(
            string_texts(args@),
            i + 2,
            final(c)@,
        ),
        r matches Err(e) ==> dns_args(string_texts(args@), i as int, old(c)@) == Err::<
            DnsConfigView,
            Seq<char>,
        >(e@),
{
    let ghost t = string_texts(args@);
    let arg = &args[i];
    assert(t[i as int] == arg@);
    let has_value = i < args.len() - 1;
    if has_value {
        assert(t[i + 1] == args@[i + 1]@);
    }
    proof {
        reveal_with_fuel(dns_args, 1);
    }
    if str_eq(arg.as_str(), "--listen") {
        if !has_value {
            return Err(String::from_str("missing value for --listen"));
        }
        match read_socket_addr(args[i + 1].as_str()) {
            Some(a) => {
                c.listen_addr = a;
                Ok(())
            },
            None => Err(String::from_str("invalid --listen address")),
        }
    } else if str_eq(arg.as_str(), "--socks") {
        if !has_value {
            return Err(String::from_str("missing value for --socks"));
        }
        match read_socket_addr(args[i + 1].as_str()) {
            Some(a) => {
                c.socks_addr = a;
                Ok(())
            },
            None => Err(String::from_str("invalid --socks address")),
        }
    } else if str_eq(arg.as_str(), "--upstream") {
        if !has_value {
            return Err(String::from_str("missing value for --upstream"));
        }
        match read_socket_addr(args[i + 1].as_str()) {
            Some(a) => {
                let ghost before = c@;
                c.upstreams.push(a);
                assert(c@.upstreams =~= before.upstreams.push(a@));
                assert(c@ == DnsConfigView { upstreams: before.upstreams.push(a@), ..before });
                Ok(())
            },
            None => Err(String::from_str("invalid --upstream address")),
        }
    } else if str_eq(arg.as_str(), "--timeout-ms") {
        if !has_value {
            return Err(String::from_str("missing value for --timeout-ms"));
        }
        let v = chars_of(args[i + 1].as_str());
        match parse_unsigned(v.as_slice(), 0xffff_ffff_ffff_ffff) {
            Some(ms) => {
                c.timeout_ms = ms;
                Ok(())
            },
            None => Err(String::from_str("invalid --timeout-ms")),
        }
    } else {
        Err(arg_error("unknown argument: ", arg))
    }
}

/// Reads the DNS helper's arguments (without the program name).
pub fn dns_helper_config_from_args(args: &Vec<String>) -> (r: Result<DnsHelperConfig, String>)
    ensures
        match r {
            Ok(c) => dns_config_from_args(string_texts(args@)) == Ok::<DnsConfigView, Seq<char>>(
                c@,
            ),
            Err(e) => dns_config_from_args(string_texts(args@)) == Err::<
                DnsConfigView,
                Seq<char>,
            >(e@),
        },
{
    let ghost t = string_texts(args@);
    let mut c = DnsHelperConfig {
        listen_addr: v4_addr(127, 0, 0, 1, 53),
        socks_addr: v4_addr(127, 0, 0, 1, 7777),
        upstreams: Vec::new(),
        timeout_ms: 5000,
    };
    let ghost start = c@;
    assert(start.upstreams =~= Seq::<SocketView>::empty());
    assert(start == DnsConfigView {
        listen_addr: v4(127, 0, 0, 1, 53),
        socks_addr: v4(127, 0, 0, 1, 7777),
        upstreams: Seq::empty(),
        timeout_ms: 5000,
    });
    let mut i: usize = 0;
    while i < args.len()
        invariant
            t == string_texts(args@),
            start == (DnsConfigView {
                listen_addr: v4(127, 0, 0, 1, 53),
                socks_addr: v4(127, 0, 0, 1, 7777),
                upstreams: Seq::empty(),
                timeout_ms: 5000,
            }),
            dns_args(t, 0, start) == dns_args(t, i as int, c@),
        decreases args@.len() - i,
    {
        match apply_dns_arg(&mut c, args, i) {
            Ok(()) => {},
            Err(e) => {
                return Err(e);
            },
        }
        if args.len() - i < 2 {
            proof {
                lemma_dns_args_done(t, i + 2, c@);
            }
            i = args.len();
            proof {
                lemma_dns_args_done(t, i as int, c@);
            }
        } else {
            i = i + 2;
        }
    }
    proof {
        lemma_dns_args_done(t, i as int, c@);
    }
    if c.upstreams.len() == 0 {
        c.upstreams.push(v4_addr(1, 1, 1, 1, 53));
        c.upstreams.push(v4_addr(8, 8, 8, 8, 53));
        assert(c@.upstreams =~= seq![v4(1, 1, 1, 1, 53), v4(8, 8, 8, 8, 53)]);
    }
    Ok(c)
}

/// A DNS query framed for TCP: its length as a big-endian u16, then the
/// query; `None` when it is longer than 65535 bytes.
pub fn frame_dns_query(query: &[u8]) -> (r: Option<Vec<u8>>)
    ensures
        query@.len() <= 65535 ==> (r matches Some(v) && v@ == be16_bytes(query@.len() as u16)
            + query@),
        query@.len() > 65535 ==> r is None,
{
    if query.len() > 65535 {
        return None;
    }
    let mut out: Vec<u8> = Vec::new();
    push_be16(&mut out, query.len() as u16);
    push_all(&mut out, query);
    Some(out)
}

/// What the DNS helper does next with a query.
pub enum FallbackAction {
    /// Send the query to the upstream with this index.
    Ask(usize),
    /// Answer the client with this response.
    Answer(Vec<u8>),
    /// Give up on the query with this error.
    GiveUp(String),
}

/// A query starts with the first upstream; with none configured it fails.
pub fn fallback_first(upstreams: usize) -> (r: FallbackAction)
    ensures
        upstreams == 0 ==> (r matches FallbackAction::GiveUp(e) && e@
            == "no dns upstream configured"@),
        upstreams > 0 ==> r == FallbackAction::Ask(0),
{
    if upstreams == 0 {
        FallbackAction::GiveUp(String::from_str("no dns upstream configured"))
    } else {
        FallbackAction::Ask(0)
    }
}

/// After the upstream at `asked` answered (or failed with an error, its
/// timeout included): the first answer goes to the client; a failure moves
/// on to the next upstream, and the last one's failure is the query's error.
pub fn fallback_next(upstreams: usize, asked: usize, outcome: Result<Vec<u8>, String>) -> (r:
    FallbackAction)
    requires
        asked < upstreams,
    ensures
        outcome matches Ok(a) ==> r == FallbackAction::Answer(a),
        outcome matches Err(e) ==> if asked + 1 < upstreams {
            r == FallbackAction::Ask((asked + 1) as usize)
        } else {
            r == FallbackAction::GiveUp(e)
        },
{
    match outcome {
        Ok(a) => FallbackAction::Answer(a),
        Err(e) => {
            if asked + 1 < upstreams {
                FallbackAction::Ask(asked + 1)
            } else {
                FallbackAction::GiveUp(e)
            }
        },
    }
}

} // verus!
