//! The local SOCKS5 front end (no authentication, CONNECT only), read from
//! byte buffers, with the replies it writes, and the client side of the same
//! exchange as the tools and the control panel speak it.

use vstd::prelude::*;
use vstd::utf8::*;

use crate::bytes::{
    be16_bytes, be16_value, copy_range, decode_utf8_text, lemma_be16_roundtrip, push_all,
    push_be16, read_be16, utf8_bytes,
};
use crate::proto::{ConnectRequest, IpAddr, IpView, RequestView, StatusCode, TargetAddr, TargetView};

verus! {

broadcast use vstd::utf8::group_utf8_lib;

pub const SOCKS_VERSION: u8 = 5;

/// Why a SOCKS5 message cannot be taken (yet).
#[derive(Clone, Copy, Debug, PartialEq, Eq, Structural)]
pub enum Socks5Error {
    /// A valid beginning; the message needs this many bytes in all.
    Incomplete(usize),
    /// The greeting names another SOCKS version.
    UnsupportedVersion(u8),
    /// The greeting does not offer "no authentication".
    NoAcceptableMethod,
    /// The request names another SOCKS version.
    InvalidRequestVersion(u8),
    /// The request is not a CONNECT.
    UnsupportedCommand,
    UnsupportedAddressType(u8),
    InvalidDomainUtf8,
}

/// Reading the client's greeting: version, method count, methods.
pub open spec fn parse_greeting(b: Seq<u8>) -> Result<int, Socks5Error> {
    if b.len() < 1 {
        Err(Socks5Error::Incomplete(1))
    } else if b[0] != SOCKS_VERSION {
        Err(Socks5Error::UnsupportedVersion(b[0]))
    } else if b.len() < 2 {
        Err(Socks5Error::Incomplete(2))
    } else if b.len() < 2 + b[1] {
        Err(Socks5Error::Incomplete((2 + b[1]) as usize))
    } else if b.subrange(2, 2 + b[1] as int).contains(0u8) {
        Ok(2 + b[1] as int)
    } else {
        Err(Socks5Error::NoAcceptableMethod)
    }
}

/// Reading the CONNECT request: version, command, reserved, address type,
/// address, port. A domain is checked for UTF-8 before its port is read.
pub open spec fn parse_request(b: Seq<u8>) -> Result<(int, RequestView), Socks5Error> {
    if b.len() < 1 {
        Err(Socks5Error::Incomplete(1))
    } else if b[0] != SOCKS_VERSION {
        Err(Socks5Error::InvalidRequestVersion(b[0]))
    } else if b.len() < 2 {
        Err(Socks5Error::Incomplete(2))
    } else if b[1] != 1 {
        Err(Socks5Error::UnsupportedCommand)
    } else if b.len() < 4 {
        Err(Socks5Error::Incomplete(4))
    } else if b[3] == 1 {
        if b.len() < 10 {
            Err(Socks5Error::Incomplete(10))
        } else {
            Ok(
                (
                    10,
                    RequestView {
                        target: TargetView::Ip(IpView::V4(b.subrange(4, 8))),
                        port: be16_value(b[8], b[9]),
                    },
                ),
            )
        }
    } else if b[3] == 3 {
        if b.len() < 5 {
            Err(Socks5Error::Incomplete(5))
        } else if b.len() < 5 + b[4] {
            Err(Socks5Error::Incomplete((5 + b[4]) as usize))
        } else if !valid_utf8(b.subrange(5, 5 + b[4] as int)) {
            Err(Socks5Error::InvalidDomainUtf8)
        } else if b.len() < 7 + b[4] {
            Err(Socks5Error::Incomplete((7 + b[4]) as usize))
        } else {
            let n = 5 + b[4] as int;
            Ok(
                (
                    n + 2,
                    RequestView {
                        target: TargetView::Domain(decode_utf8(b.subrange(5, n))),
                        port: be16_value(b[n], b[n + 1]),
                    },
                ),
            )
        }
    } else if b[3] == 4 {
        if b.len() < 22 {
            Err(Socks5Error::Incomplete(22))
        } else {
            Ok(
                (
                    22,
                    RequestView {
                        target: TargetView::Ip(IpView::V6(b.subrange(4, 20))),
                        port: be16_value(b[20], b[21]),
                    },
                ),
            )
        }
    } else {
        Err(Socks5Error::UnsupportedAddressType(b[3]))
    }
}

/// The promises a stream reader relies on.
pub open spec fn reads_prefix<V>(s: Result<(int, V), Socks5Error>, len: int) -> bool {
    &&& s matches Ok((n, _)) ==> 0 < n <= len
    &&& s matches Err(Socks5Error::Incomplete(k)) ==> k > len
}

/// Reads the greeting from the front of `buf`; on success, the bytes it takes.
pub fn read_greeting(buf: &[u8]) -> (r: Result<usize, Socks5Error>)
    ensures
        match r {
            Ok(n) => parse_greeting(buf@) == Ok::<int, Socks5Error>(n as int),
            Err(e) => parse_greeting(buf@) == Err::<int, Socks5Error>(e),
        },
        r matches Ok(n) ==> 2 <= n <= buf@.len(),
        r matches Err(Socks5Error::Incomplete(k)) ==> k > buf@.len(),
{
    if buf.len() < 1 {
        return Err(Socks5Error::Incomplete(1));
    }
    if buf[0] != SOCKS_VERSION {
        return Err(Socks5Error::UnsupportedVersion(buf[0]));
    }
    if buf.len() < 2 {
        return Err(Socks5Error::Incomplete(2));
    }
    let n = buf[1] as usize;
    if buf.len() < 2 + n {
        return Err(Socks5Error::Incomplete(2 + n));
    }
    let ghost methods = buf@.subrange(2, 2 + n as int);
    let mut i: usize = 2;
    while i < 2 + n
        invariant
            2 <= i <= 2 + n <= buf@.len(),
            n == buf@[1],
            buf@[0] == SOCKS_VERSION,
            methods == buf@.subrange(2, 2 + n as int),
            forall|j: int| 2 <= j < i ==> buf@[j] != 0u8,
        decreases 2 + n - i,
    {
        if buf[i] == 0u8 {
            assert(methods[i - 2] == 0u8);
            assert(methods.contains(0u8));
            return Ok(2 + n);
        }
        i = i + 1;
    }
    assert(!methods.contains(0u8)) by {
        assert forall|j: int| 0 <= j < methods.len() implies methods[j] != 0u8 by {
            assert(methods[j] == buf@[j + 2]);
        }
    }
    Err(Socks5Error::NoAcceptableMethod)
}

/// Reads the CONNECT request from the front of `buf`.
pub fn read_request(buf: &[u8]) -> (r: Result<(usize, ConnectRequest), Socks5Error>)
    ensures
        match r {
            Ok((n, v)) => parse_request(buf@) == Ok::<(int, RequestView), Socks5Error>(
                (n as int, v@),
            ),
            Err(e) => parse_request(buf@) == Err::<(int, RequestView), Socks5Error>(e),
        },
        reads_prefix(parse_request(buf@), buf@.len() as int),
{
    let ghost b = buf@;
    if buf.len() < 1 {
        return Err(Socks5Error::Incomplete(1));
    }
    if buf[0] != SOCKS_VERSION {
        return Err(Socks5Error::InvalidRequestVersion(buf[0]));
    }
    if buf.len() < 2 {
        return Err(Socks5Error::Incomplete(2));
    }
    if buf[1] != 1 {
        return Err(Socks5Error::UnsupportedCommand);
    }
    if buf.len() < 4 {
        return Err(Socks5Error::Incomplete(4));
    }
    let atyp = buf[3];
    if atyp == 1 {
        if buf.len() < 10 {
            return Err(Socks5Error::Incomplete(10));
        }
        let octets: [u8; 4] = [buf[4], buf[5], buf[6], buf[7]];
        assert(octets@ =~= b.subrange(4, 8));
        let port = read_be16(buf, 8);
        Ok((10, ConnectRequest { target: TargetAddr::Ip(IpAddr::V4(octets)), port }))
    } else if atyp == 3 {
        if buf.len() < 5 {
            return Err(Socks5Error::Incomplete(5));
        }
        let len = buf[4] as usize;
        if buf.len() < 5 + len {
            return Err(Socks5Error::Incomplete(5 + len));
        }
        let raw = copy_range(buf, 5, 5 + len);
        match decode_utf8_text(raw.as_slice()) {
            Some(domain) => {
                if buf.len() < 7 + len {
                    return Err(Socks5Error::Incomplete(7 + len));
                }
                let port = read_be16(buf, 5 + len);
                Ok((7 + len, ConnectRequest { target: TargetAddr::Domain(domain), port }))
            },
            None => Err(Socks5Error::InvalidDomainUtf8),
        }
    } else if atyp == 4 {
        if buf.len() < 22 {
            return Err(Socks5Error::Incomplete(22));
        }
        let octets: [u8; 16] = [
            buf[4],
            buf[5],
            buf[6],
            buf[7],
            buf[8],
            buf[9],
            buf[10],
            buf[11],
            buf[12],
            buf[13],
            buf[14],
            buf[15],
            buf[16],
            buf[17],
            buf[18],
            buf[19],
        ];
        assert(octets@ =~= b.subrange(4, 20));
        let port = read_be16(buf, 20);
        Ok((22, ConnectRequest { target: TargetAddr::Ip(IpAddr::V6(octets)), port }))
    } else {
        Err(Socks5Error::UnsupportedAddressType(atyp))
    }
}

/// The ten-byte reply with the given code and an all-zero IPv4 bound address.
pub open spec fn reply_bytes(code: u8) -> Seq<u8> {
    seq![SOCKS_VERSION, code, 0u8, 1u8, 0u8, 0u8, 0u8, 0u8, 0u8, 0u8]
}

fn reply(code: u8) -> (r: Vec<u8>)
    ensures
        r@ == reply_bytes(code),
{
    let r = vec![SOCKS_VERSION, code, 0u8, 1u8, 0u8, 0u8, 0u8, 0u8, 0u8, 0u8];
    assert(r@ =~= reply_bytes(code));
    r
}

/// The answer to an accepted greeting: "no authentication".
pub open spec fn greeting_accept_bytes() -> Seq<u8> {
    seq![SOCKS_VERSION, 0u8]
}

pub fn greeting_accept_reply() -> (r: Vec<u8>)
    ensures
        r@ == greeting_accept_bytes(),
{
    let r = vec![SOCKS_VERSION, 0u8];
    assert(r@ =~= greeting_accept_bytes());
    r
}

/// What the front end writes before giving up on a message, if anything.
pub open spec fn error_reply_bytes(e: Socks5Error) -> Option<Seq<u8>> {
    match e {
        Socks5Error::NoAcceptableMethod => Some(seq![SOCKS_VERSION, 0xffu8]),
        Socks5Error::UnsupportedCommand => Some(reply_bytes(0x07)),
        Socks5Error::UnsupportedAddressType(_) => Some(reply_bytes(0x08)),
        _ => None,
    }
}

pub fn error_reply(e: Socks5Error) -> (r: Option<Vec<u8>>)
    ensures
        match r {
            Some(v) => error_reply_bytes(e) == Some(v@),
            None => error_reply_bytes(e) is None,
        },
{
    match e {
        Socks5Error::NoAcceptableMethod => {
            let v = vec![SOCKS_VERSION, 0xffu8];
            assert(v@ =~= seq![SOCKS_VERSION, 0xffu8]);
            Some(v)
        },
        Socks5Error::UnsupportedCommand => Some(reply(0x07)),
        Socks5Error::UnsupportedAddressType(_) => Some(reply(0x08)),
        _ => None,
    }
}

/// The reply sent once the upstream stream is ready.
pub fn success_reply() -> (r: Vec<u8>)
    ensures
        r@ == reply_bytes(0),
{
    reply(0)
}

/// The reply sent when the upstream stream cannot be opened.
pub fn failure_reply(code: u8) -> (r: Vec<u8>)
    ensures
        r@ == reply_bytes(code),
{
    reply(code)
}

/// The SOCKS5 reply code for a tunnel status.
pub open spec fn socks_code_for_status(s: StatusCode) -> u8 {
    match s {
        StatusCode::Success => 0x00,
        StatusCode::BadRequest => 0x01,
        StatusCode::TlsAuthFailed => 0x01,
        StatusCode::InternalError => 0x01,
        StatusCode::TargetConnectFailed => 0x05,
        StatusCode::Timeout => 0x04,
    }
}

pub fn map_upstream_status_to_socks(status: StatusCode) -> (r: u8)
    ensures
        r == socks_code_for_status(status),
{
    match status {
        StatusCode::Success => 0x00,
        StatusCode::BadRequest | StatusCode::TlsAuthFailed | StatusCode::InternalError => 0x01,
        StatusCode::TargetConnectFailed => 0x05,
        StatusCode::Timeout => 0x04,
    }
}

/// A refused tunnel is never reported to the SOCKS client as success, and only
/// success is.
pub proof fn lemma_only_success_maps_to_zero(s: StatusCode)
    ensures
        (socks_code_for_status(s) == 0) <==> (s == StatusCode::Success),
{
}

// ---- the client side ----
/// The greeting a client sends: version 5, one method, "no authentication".
pub open spec fn client_greeting_bytes() -> Seq<u8> {
    seq![SOCKS_VERSION, 1u8, 0u8]
}

pub fn client_greeting() -> (r: Vec<u8>)
    ensures
        r@ == client_greeting_bytes(),
{
    let r = vec![SOCKS_VERSION, 1u8, 0u8];
    assert(r@ =~= client_greeting_bytes());
    r
}

/// The server chose "no authentication".
pub fn greeting_accepted(answer: &[u8]) -> (r: bool)
    ensures
        r == (answer@ == greeting_accept_bytes()),
{
    if answer.len() == 2 && answer[0] == SOCKS_VERSION && answer[1] == 0u8 {
        assert(answer@ =~= greeting_accept_bytes());
        true
    } else {
        false
    }
}

/// The CONNECT request a client writes for `r`; a domain carries its UTF-8
/// length, which `domain_fits_socks` keeps within the 8-bit field (requests
/// are written only for such targets).
pub open spec fn client_request_bytes(r: RequestView) -> Seq<u8> {
    match r.target {
        TargetView::Ip(IpView::V4(o)) => seq![SOCKS_VERSION, 1u8, 0u8, 1u8] + o + be16_bytes(
            r.port,
        ),
        TargetView::Ip(IpView::V6(o)) => seq![SOCKS_VERSION, 1u8, 0u8, 4u8] + o + be16_bytes(
            r.port,
        ),
        TargetView::Domain(d) => seq![
            SOCKS_VERSION,
            1u8,
            0u8,
            3u8,
            (encode_utf8(d).len() % 256) as u8,
        ] + encode_utf8(d) + be16_bytes(r.port),
    }
}

/// The CONNECT request a client sends for `request`; none for a domain whose
/// UTF-8 form is longer than the 8-bit length field can describe.
pub fn client_connect_request(request: &ConnectRequest) -> (r: Option<Vec<u8>>)
    ensures
        domain_fits_socks(request@) ==> (r matches Some(v) && v@ == client_request_bytes(request@)),
        !domain_fits_socks(request@) ==> r is None,
{
    let mut out: Vec<u8> = Vec::new();
    out.push(SOCKS_VERSION);
    out.push(1u8);
    out.push(0u8);
    match &request.target {
        TargetAddr::Ip(IpAddr::V4(o)) => {
            out.push(1u8);
            push_all(&mut out, o.as_slice());
        },
        TargetAddr::Ip(IpAddr::V6(o)) => {
            out.push(4u8);
            push_all(&mut out, o.as_slice());
        },
        TargetAddr::Domain(d) => {
            let bytes = utf8_bytes(d);
            if bytes.len() > 255 {
                return None;
            }
            out.push(3u8);
            out.push(bytes.len() as u8);
            push_all(&mut out, bytes.as_slice());
        },
    }
    push_be16(&mut out, request.port);
    assert(out@ =~= client_request_bytes(request@));
    Some(out)
}

/// The domain of a request fits the 8-bit length field.
pub open spec fn domain_fits_socks(r: RequestView) -> bool {
    r.target matches TargetView::Domain(d) ==> encode_utf8(d).len() <= 255
}

/// A request written by the client side is read back by the front end as the
/// same request, taking exactly the bytes written. Holds when a domain's UTF-8
/// length fits in eight bits.
pub proof fn lemma_client_request_roundtrip(r: RequestView, rest: Seq<u8>)
    requires
        r.wf(),
        domain_fits_socks(r),
    ensures
        parse_request(client_request_bytes(r) + rest) == Ok::<(int, RequestView), Socks5Error>(
            (client_request_bytes(r).len() as int, r),
        ),
{
    let w = client_request_bytes(r);
    let b = w + rest;
    lemma_be16_roundtrip(r.port);
    match r.target {
        TargetView::Ip(IpView::V4(o)) => {
            assert(b.subrange(4, 8) =~= o);
            assert(b[8] == be16_bytes(r.port)[0]);
            assert(b[9] == be16_bytes(r.port)[1]);
        },
        TargetView::Ip(IpView::V6(o)) => {
            assert(b.subrange(4, 20) =~= o);
            assert(b[20] == be16_bytes(r.port)[0]);
            assert(b[21] == be16_bytes(r.port)[1]);
        },
        TargetView::Domain(d) => {
            let e = encode_utf8(d);
            let n: int = 5 + e.len() as int;
            assert(b[4] == e.len());
            assert(b.subrange(5, n) =~= e);
            assert(b[n] == be16_bytes(r.port)[0]);
            assert(b[n + 1] == be16_bytes(r.port)[1]);
        },
    }
}

/// The greeting a client sends is accepted, and takes all three bytes.
pub proof fn lemma_client_greeting_accepted(rest: Seq<u8>)
    ensures
        parse_greeting(client_greeting_bytes() + rest) == Ok::<int, Socks5Error>(3),
{
    let b = client_greeting_bytes() + rest;
    assert(b.subrange(2, 3) =~= seq![0u8]);
    assert(b.subrange(2, 3)[0] == 0u8);
}

/// The reply code a client sees in a reply; `Ok` for success.
pub fn check_reply_code(answer: &[u8]) -> (r: Result<(), u8>)
    requires
        answer@.len() >= 2,
    ensures
        r is Ok <==> answer@[1] == 0,
        r matches Err(code) ==> code == answer@[1],
{
    if answer[1] == 0u8 {
        Ok(())
    } else {
        Err(answer[1])
    }
}

/// Why a client cannot take the server's reply.
#[derive(Clone, Copy, Debug, PartialEq, Eq, Structural)]
pub enum ReplyError {
    Incomplete(usize),
    /// The server reported failure with this code.
    Failed(u8),
    UnexpectedAddressType(u8),
}

/// Reading a reply as a client: the four-byte head, then the bound address
/// by its type, then the port. On success, the bytes the reply takes.
pub open spec fn parse_reply(b: Seq<u8>) -> Result<int, ReplyError> {
    if b.len() < 4 {
        Err(ReplyError::Incomplete(4))
    } else if b[1] != 0 {
        Err(ReplyError::Failed(b[1]))
    } else if b[3] == 1 {
        if b.len() < 10 {
            Err(ReplyError::Incomplete(10))
        } else {
            Ok(10)
        }
    } else if b[3] == 4 {
        if b.len() < 22 {
            Err(ReplyError::Incomplete(22))
        } else {
            Ok(22)
        }
    } else if b[3] == 3 {
        if b.len() < 5 {
            Err(ReplyError::Incomplete(5))
        } else if b.len() < 7 + b[4] {
            Err(ReplyError::Incomplete((7 + b[4]) as usize))
        } else {
            Ok(7 + b[4] as int)
        }
    } else {
        Err(ReplyError::UnexpectedAddressType(b[3]))
    }
}

pub fn read_reply(buf: &[u8]) -> (r: Result<usize, ReplyError>)
    ensures
        match r {
            Ok(n) => parse_reply(buf@) == Ok::<int, ReplyError>(n as int),
            Err(e) => parse_reply(buf@) == Err::<int, ReplyError>(e),
        },
        r matches Ok(n) ==> n <= buf@.len(),
        r matches Err(ReplyError::Incomplete(k)) ==> k > buf@.len(),
{
    if buf.len() < 4 {
        return Err(ReplyError::Incomplete(4));
    }
    if buf[1] != 0u8 {
        return Err(ReplyError::Failed(buf[1]));
    }
    let atyp = buf[3];
    if atyp == 1 {
        if buf.len() < 10 {
            Err(ReplyError::Incomplete(10))
        } else {
            Ok(10)
        }
    } else if atyp == 4 {
        if buf.len() < 22 {
            Err(ReplyError::Incomplete(22))
        } else {
            Ok(22)
        }
    } else if atyp == 3 {
        if buf.len() < 5 {
            return Err(ReplyError::Incomplete(5));
        }
        let n = 7 + buf[4] as usize;
        if buf.len() < n {
            Err(ReplyError::Incomplete(n))
        } else {
            Ok(n)
        }
    } else {
        Err(ReplyError::UnexpectedAddressType(atyp))
    }
}

/// The address a SOCKS5 server reports as bound in its reply.
pub enum BoundAddr {
    V4(Seq<u8>),
    V6(Seq<u8>),
    Domain(Seq<u8>),
}

/// Four octets, sixteen octets, or a name of at most 255 bytes.
pub open spec fn bound_addr_wf(a: BoundAddr) -> bool {
    match a {
        BoundAddr::V4(o) => o.len() == 4,
        BoundAddr::V6(o) => o.len() == 16,
        BoundAddr::Domain(d) => d.len() <= 255,
    }
}

/// A success reply as a SOCKS5 server writes it: version, code 0, reserved,
/// the bound address with its type byte, and the bound port.
pub open spec fn success_reply_with(a: BoundAddr, port: u16) -> Seq<u8> {
    seq![SOCKS_VERSION, 0u8, 0u8] + match a {
        BoundAddr::V4(o) => seq![1u8] + o,
        BoundAddr::V6(o) => seq![4u8] + o,
        BoundAddr::Domain(d) => seq![3u8, d.len() as u8] + d,
    } + be16_bytes(port)
}

/// A client takes a success reply whole, whatever address the server
/// reports and whatever follows on the stream: the bytes it takes are exactly
/// the reply's, so none of the reply is left to be taken as relayed data and
/// none of the relayed data is swallowed.
pub proof fn lemma_success_reply_taken_whole(a: BoundAddr, port: u16, rest: Seq<u8>)
    requires
        bound_addr_wf(a),
    ensures
        parse_reply(success_reply_with(a, port) + rest) == Ok::<int, ReplyError>(
            success_reply_with(a, port).len() as int,
        ),
{
    let b = success_reply_with(a, port) + rest;
    assert(b[0] == SOCKS_VERSION && b[1] == 0u8);
    match a {
        BoundAddr::V4(o) => {
            assert(b[3] == 1u8);
        },
        BoundAddr::V6(o) => {
            assert(b[3] == 4u8);
        },
        BoundAddr::Domain(d) => {
            assert(b[3] == 3u8);
            assert(b[4] == d.len() as u8);
        },
    }
}

/// What the front end answers is what a client reads: the success reply is
/// taken whole, and a failure reply reports its code.
pub proof fn lemma_reply_seen_by_client(code: u8, rest: Seq<u8>)
    ensures
        code == 0 ==> parse_reply(reply_bytes(code) + rest) == Ok::<int, ReplyError>(10),
        code != 0 ==> parse_reply(reply_bytes(code) + rest) == Err::<int, ReplyError>(
            ReplyError::Failed(code),
        ),
{
}

} // verus!
