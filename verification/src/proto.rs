//! The private tunnel protocol: the first packet a client sends over TLS
//! (`ConnectRequest`) and the server's four-byte answer (`ConnectResponse`).
//!
//! Request layout: magic "PXT1", version, cmd, addr_type, reserved,
//! port (u16 BE), addr_len (u16 BE), address bytes.
//! Response layout: status, reserved, reason (u16 BE).

use vstd::prelude::*;
use vstd::utf8::*;

use crate::bytes::{
    be16_bytes, be16_value, copy_range, decode_utf8_text, lemma_be16_bytes_of_value,
    lemma_be16_roundtrip, push_all, push_be16, read_be16, utf8_bytes,
};

verus! {

broadcast use vstd::utf8::group_utf8_lib;

pub const VERSION: u8 = 1;

pub const CMD_CONNECT: u8 = 1;

/// Address type byte of an IPv4 target.
pub const ADDR_IPV4: u8 = 1;

/// Address type byte of an IPv6 target.
pub const ADDR_IPV6: u8 = 2;

/// Address type byte of a domain target.
pub const ADDR_DOMAIN: u8 = 3;

/// The four magic bytes "PXT1".
pub open spec fn magic_seq() -> Seq<u8> {
    seq![0x50u8, 0x58u8, 0x54u8, 0x31u8]
}

/// Outcome codes of a connect attempt, as carried in the response status byte.
#[derive(Clone, Copy, Debug, PartialEq, Eq, Structural)]
pub enum StatusCode {
    /// The target is connected (status byte 0).
    Success,
    BadRequest,
    TlsAuthFailed,
    TargetConnectFailed,
    Timeout,
    InternalError,
}

/// The status byte of each code.
pub open spec fn status_byte(s: StatusCode) -> u8 {
    match s {
        StatusCode::Success => 0,
        StatusCode::BadRequest => 1,
        StatusCode::TlsAuthFailed => 2,
        StatusCode::TargetConnectFailed => 3,
        StatusCode::Timeout => 4,
        StatusCode::InternalError => 5,
    }
}

/// The code a status byte stands for, if any.
pub open spec fn status_from_byte(b: u8) -> Option<StatusCode> {
    if b == 0 {
        Some(StatusCode::Success)
    } else if b == 1 {
        Some(StatusCode::BadRequest)
    } else if b == 2 {
        Some(StatusCode::TlsAuthFailed)
    } else if b == 3 {
        Some(StatusCode::TargetConnectFailed)
    } else if b == 4 {
        Some(StatusCode::Timeout)
    } else if b == 5 {
        Some(StatusCode::InternalError)
    } else {
        None
    }
}

impl StatusCode {
    pub fn from_u8(value: u8) -> (r: Option<Self>)
        ensures
            r == status_from_byte(value),
    {
        match value {
            0 => Some(StatusCode::Success),
            1 => Some(StatusCode::BadRequest),
            2 => Some(StatusCode::TlsAuthFailed),
            3 => Some(StatusCode::TargetConnectFailed),
            4 => Some(StatusCode::Timeout),
            5 => Some(StatusCode::InternalError),
            _ => None,
        }
    }

    /// The byte this code is written as.
    pub fn to_u8(self) -> (r: u8)
        ensures
            r == status_byte(self),
    {
        match self {
            StatusCode::Success => 0,
            StatusCode::BadRequest => 1,
            StatusCode::TlsAuthFailed => 2,
            StatusCode::TargetConnectFailed => 3,
            StatusCode::Timeout => 4,
            StatusCode::InternalError => 5,
        }
    }
}

/// Every status code is read back from its own byte.
pub proof fn lemma_status_byte_roundtrip(s: StatusCode)
    ensures
        status_from_byte(status_byte(s)) == Some(s),
{
}

/// A byte that names a status code is that code's byte: the two maps are inverse.
pub proof fn lemma_status_from_byte_inverse(b: u8)
    ensures
        status_from_byte(b) matches Some(s) ==> status_byte(s) == b,
        status_from_byte(b) is None <==> b > 5,
{
}

/// Why a buffer does not (yet) hold a valid message.
#[derive(Clone, Copy, Debug, PartialEq, Eq, Structural)]
pub enum WireError {
    /// The buffer is a valid beginning; the message needs this many bytes in all.
    Incomplete(usize),
    InvalidMagic,
    InvalidVersion,
    UnsupportedCommand,
    UnsupportedAddressType,
    InvalidUtf8,
    InvalidStatus,
    /// A domain too long for the 16-bit length field of the first packet.
    DomainTooLong,
}

/// An IP address, by its octets in network order.
#[derive(Clone, Copy, Debug, PartialEq, Eq)]
pub enum IpAddr {
    V4([u8; 4]),
    V6([u8; 16]),
}

/// The octets of an IP address.
pub enum IpView {
    V4(Seq<u8>),
    V6(Seq<u8>),
}

impl View for IpAddr {
    type V = IpView;

    open spec fn view(&self) -> IpView {
        match self {
            IpAddr::V4(a) => IpView::V4(a@),
            IpAddr::V6(a) => IpView::V6(a@),
        }
    }
}

impl IpView {
    /// Four octets for IPv4, sixteen for IPv6.
    pub open spec fn wf(self) -> bool {
        match self {
            IpView::V4(o) => o.len() == 4,
            IpView::V6(o) => o.len() == 16,
        }
    }
}

#[derive(Clone, Debug, PartialEq, Eq)]
pub enum TargetAddr {
    Ip(IpAddr),
    Domain(String),
}

pub enum TargetView {
    Ip(IpView),
    Domain(Seq<char>),
}

impl View for TargetAddr {
    type V = TargetView;

    open spec fn view(&self) -> TargetView {
        match self {
            TargetAddr::Ip(ip) => TargetView::Ip(ip@),
            TargetAddr::Domain(d) => TargetView::Domain(d@),
        }
    }
}

#[derive(Clone, Debug, PartialEq, Eq)]
pub struct ConnectRequest {
    pub target: TargetAddr,
    pub port: u16,
}

pub struct RequestView {
    pub target: TargetView,
    pub port: u16,
}

impl View for ConnectRequest {
    type V = RequestView;

    open spec fn view(&self) -> RequestView {
        RequestView { target: self.target@, port: self.port }
    }
}

impl RequestView {
    pub open spec fn wf(self) -> bool {
        self.target matches TargetView::Ip(ip) ==> ip.wf()
    }
}

/// The bytes of the first packet for `r`. An IP target carries addr_len 0;
/// a domain carries its UTF-8 length, which `domain_fits` keeps within the
/// 16-bit field (packets are written only for such requests).
pub open spec fn request_bytes(r: RequestView) -> Seq<u8> {
    magic_seq() + seq![VERSION, CMD_CONNECT] + match r.target {
        TargetView::Ip(IpView::V4(o)) => seq![ADDR_IPV4, 0u8] + be16_bytes(r.port) + seq![0u8, 0u8]
            + o,
        TargetView::Ip(IpView::V6(o)) => seq![ADDR_IPV6, 0u8] + be16_bytes(r.port) + seq![0u8, 0u8]
            + o,
        TargetView::Domain(d) => seq![ADDR_DOMAIN, 0u8] + be16_bytes(r.port) + be16_bytes(
            (encode_utf8(d).len() % 65536) as u16,
        ) + encode_utf8(d),
    }
}

pub open spec fn has_magic(b: Seq<u8>) -> bool {
    b[0] == 0x50u8 && b[1] == 0x58u8 && b[2] == 0x54u8 && b[3] == 0x31u8
}

/// What reading a first packet from the front of `b` gives: the bytes it
/// takes and the request, or why it cannot be read. The checks come in the
/// order the fields arrive; the twelve-byte header is read in full before the
/// address type is looked at.
pub open spec fn parse_request(b: Seq<u8>) -> Result<(int, RequestView), WireError> {
    if b.len() < 4 {
        Err(WireError::Incomplete(4))
    } else if !has_magic(b) {
        Err(WireError::InvalidMagic)
    } else if b.len() < 5 {
        Err(WireError::Incomplete(5))
    } else if b[4] != VERSION {
        Err(WireError::InvalidVersion)
    } else if b.len() < 6 {
        Err(WireError::Incomplete(6))
    } else if b[5] != CMD_CONNECT {
        Err(WireError::UnsupportedCommand)
    } else if b.len() < 12 {
        Err(WireError::Incomplete(12))
    } else {
        let port = be16_value(b[8], b[9]);
        let addr_len = be16_value(b[10], b[11]) as int;
        if b[6] == ADDR_IPV4 {
            if b.len() < 16 {
                Err(WireError::Incomplete(16))
            } else {
                Ok(
                    (
                        16,
                        RequestView {
                            target: TargetView::Ip(IpView::V4(b.subrange(12, 16))),
                            port,
                        },
                    ),
                )
            }
        } else if b[6] == ADDR_IPV6 {
            if b.len() < 28 {
                Err(WireError::Incomplete(28))
            } else {
                Ok(
                    (
                        28,
                        RequestView {
                            target: TargetView::Ip(IpView::V6(b.subrange(12, 28))),
                            port,
                        },
                    ),
                )
            }
        } else if b[6] == ADDR_DOMAIN {
            if b.len() < 12 + addr_len {
                Err(WireError::Incomplete((12 + addr_len) as usize))
            } else if !valid_utf8(b.subrange(12, 12 + addr_len)) {
                Err(WireError::InvalidUtf8)
            } else {
                Ok(
                    (
                        12 + addr_len,
                        RequestView {
                            target: TargetView::Domain(decode_utf8(b.subrange(12, 12 + addr_len))),
                            port,
                        },
                    ),
                )
            }
        } else {
            Err(WireError::UnsupportedAddressType)
        }
    }
}

/// An executable parse result agrees with a spec one, through the view.
pub open spec fn parsed_as<T: View>(
    r: Result<(usize, T), WireError>,
    s: Result<(int, T::V), WireError>,
) -> bool {
    match r {
        Ok((n, v)) => s == Ok::<(int, T::V), WireError>((n as int, v@)),
        Err(e) => s == Err::<(int, T::V), WireError>(e),
    }
}

/// The promises a reader of a byte stream relies on: a message is read from a
/// prefix of what it is given, and more bytes are asked for only when fewer
/// are present.
pub open spec fn reads_prefix<V>(s: Result<(int, V), WireError>, len: int) -> bool {
    &&& s matches Ok((n, _)) ==> 0 < n <= len
    &&& s matches Err(WireError::Incomplete(k)) ==> k > len
}

impl ConnectRequest {
    /// Reads the first packet from the front of `buf`.
    pub fn read_from(buf: &[u8]) -> (r: Result<(usize, ConnectRequest), WireError>)
        ensures
            parsed_as(r, parse_request(buf@)),
            reads_prefix(parse_request(buf@), buf@.len() as int),
    {
        let ghost b = buf@;
        if buf.len() < 4 {
            return Err(WireError::Incomplete(4));
        }
        if !(buf[0] == 0x50u8 && buf[1] == 0x58u8 && buf[2] == 0x54u8 && buf[3] == 0x31u8) {
            return Err(WireError::InvalidMagic);
        }
        if buf.len() < 5 {
            return Err(WireError::Incomplete(5));
        }
        if buf[4] != VERSION {
            return Err(WireError::InvalidVersion);
        }
        if buf.len() < 6 {
            return Err(WireError::Incomplete(6));
        }
        if buf[5] != CMD_CONNECT {
            return Err(WireError::UnsupportedCommand);
        }
        if buf.len() < 12 {
            return Err(WireError::Incomplete(12));
        }
        let addr_type = buf[6];
        let port = read_be16(buf, 8);
        let addr_len = read_be16(buf, 10) as usize;
        if addr_type == ADDR_IPV4 {
            if buf.len() < 16 {
                return Err(WireError::Incomplete(16));
            }
            let octets: [u8; 4] = [buf[12], buf[13], buf[14], buf[15]];
            assert(octets@ =~= b.subrange(12, 16));
            Ok((16, ConnectRequest { target: TargetAddr::Ip(IpAddr::V4(octets)), port }))
        } else if addr_type == ADDR_IPV6 {
            if buf.len() < 28 {
                return Err(WireError::Incomplete(28));
            }
            let octets: [u8; 16] = [
                buf[12],
                buf[13],
                buf[14],
                buf[15],
                buf[16],
                buf[17],
                buf[18],
                buf[19],
                buf[20],
                buf[21],
                buf[22],
                buf[23],
                buf[24],
                buf[25],
                buf[26],
                buf[27],
            ];
            assert(octets@ =~= b.subrange(12, 28));
            Ok((28, ConnectRequest { target: TargetAddr::Ip(IpAddr::V6(octets)), port }))
        } else if addr_type == ADDR_DOMAIN {
            if buf.len() < 12 + addr_len {
                return Err(WireError::Incomplete(12 + addr_len));
            }
            let raw = copy_range(buf, 12, 12 + addr_len);
            match decode_utf8_text(raw.as_slice()) {
                Some(domain) => Ok(
                    (12 + addr_len, ConnectRequest { target: TargetAddr::Domain(domain), port }),
                ),
                None => Err(WireError::InvalidUtf8),
            }
        } else {
            Err(WireError::UnsupportedAddressType)
        }
    }

    /// Appends the first packet for this request to `out`. A domain whose
    /// UTF-8 form is longer than the 16-bit length field can describe has no
    /// packet: it is refused and `out` is left as it was.
    pub fn write_to(&self, out: &mut Vec<u8>) -> (r: Result<(), WireError>)
        ensures
            domain_fits(self@) ==> r is Ok && final(out)@ == old(out)@ + request_bytes(self@),
            !domain_fits(self@) ==> r == Err::<(), WireError>(WireError::DomainTooLong)
                && final(out)@ == old(out)@,
    {
        let ghost start = out@;
        let domain_bytes = match &self.target {
            TargetAddr::Domain(d) => {
                let bytes = utf8_bytes(d);
                if bytes.len() > 65535 {
                    return Err(WireError::DomainTooLong);
                }
                Some(bytes)
            },
            _ => None,
        };
        out.push(0x50u8);
        out.push(0x58u8);
        out.push(0x54u8);
        out.push(0x31u8);
        out.push(VERSION);
        out.push(CMD_CONNECT);
        match &self.target {
            TargetAddr::Ip(IpAddr::V4(o)) => {
                out.push(ADDR_IPV4);
                out.push(0u8);
                push_be16(out, self.port);
                push_be16(out, 0);
                push_all(out, o.as_slice());
            },
            TargetAddr::Ip(IpAddr::V6(o)) => {
                out.push(ADDR_IPV6);
                out.push(0u8);
                push_be16(out, self.port);
                push_be16(out, 0);
                push_all(out, o.as_slice());
            },
            TargetAddr::Domain(d) => {
                let bytes = match domain_bytes {
                    Some(b) => b,
                    None => utf8_bytes(d),
                };
                out.push(ADDR_DOMAIN);
                out.push(0u8);
                push_be16(out, self.port);
                push_be16(out, bytes.len() as u16);
                push_all(out, bytes.as_slice());
            },
        }
        assert(out@ =~= start + request_bytes(self@));
        Ok(())
    }
}

/// The domain of a request fits the 16-bit length field.
pub open spec fn domain_fits(r: RequestView) -> bool {
    r.target matches TargetView::Domain(d) ==> encode_utf8(d).len() <= 65535
}

/// What a client writes, the server reads back: the same request, taking
/// exactly the bytes written, whatever follows them on the stream. Holds for
/// every request whose domain's UTF-8 length fits in 16 bits (a longer one
/// has its length field truncated).
pub proof fn lemma_request_roundtrip(r: RequestView, rest: Seq<u8>)
    requires
        r.wf(),
        domain_fits(r),
    ensures
        parse_request(request_bytes(r) + rest) == Ok::<(int, RequestView), WireError>(
            (request_bytes(r).len() as int, r),
        ),
{
    let b = request_bytes(r) + rest;
    let w = request_bytes(r);
    lemma_be16_roundtrip(r.port);
    assert(b[8] == be16_bytes(r.port)[0]);
    assert(b[9] == be16_bytes(r.port)[1]);
    match r.target {
        TargetView::Ip(IpView::V4(o)) => {
            assert(b.subrange(12, 16) =~= o);
        },
        TargetView::Ip(IpView::V6(o)) => {
            assert(b.subrange(12, 28) =~= o);
        },
        TargetView::Domain(d) => {
            let e = encode_utf8(d);
            let n = (e.len() % 65536) as u16;
            lemma_be16_roundtrip(n);
            assert(b[10] == be16_bytes(n)[0]);
            assert(b[11] == be16_bytes(n)[1]);
            assert(w.len() == 12 + e.len());
            assert(b.subrange(12, 12 + e.len() as int) =~= e);
        },
    }
}

/// A read request is written back as exactly the bytes it was read from,
/// when the reserved byte is zero and an IP request carries addr_len 0 (the
/// reader ignores those bytes, the writer always sends zero).
pub proof fn lemma_request_reencode(b: Seq<u8>)
    requires
        parse_request(b) is Ok,
        b[7] == 0,
        parse_request(b)->Ok_0.1.target is Ip ==> b[10] == 0 && b[11] == 0,
    ensures
        request_bytes(parse_request(b)->Ok_0.1) == b.subrange(0, parse_request(b)->Ok_0.0),
{
    let (n, r) = parse_request(b)->Ok_0;
    lemma_be16_bytes_of_value(b[8], b[9]);
    lemma_be16_bytes_of_value(b[10], b[11]);
    if b[6] == ADDR_DOMAIN {
        let raw = b.subrange(12, n);
        let len = be16_value(b[10], b[11]) as int;
        assert(encode_utf8(decode_utf8(raw)) == raw);
        assert((raw.len() % 65536) as u16 == be16_value(b[10], b[11]));
    }
    assert(request_bytes(r) =~= b.subrange(0, n));
}

/// A read never depends on the bytes after the message.
pub proof fn lemma_request_prefix_stable(b: Seq<u8>, rest: Seq<u8>)
    requires
        parse_request(b) is Ok,
    ensures
        parse_request(b + rest) == parse_request(b),
{
    let (n, r) = parse_request(b)->Ok_0;
    let c = b + rest;
    assert(c.subrange(0, b.len() as int) =~= b);
    if b[6] == ADDR_IPV4 {
        assert(c.subrange(12, 16) =~= b.subrange(12, 16));
    } else if b[6] == ADDR_IPV6 {
        assert(c.subrange(12, 28) =~= b.subrange(12, 28));
    } else {
        assert(c.subrange(12, n) =~= b.subrange(12, n));
    }
}

/// The server's answer to a first packet.
#[derive(Clone, Copy, Debug, PartialEq, Eq, Structural)]
pub struct ConnectResponse {
    pub status: StatusCode,
    pub reason: u16,
}

/// The four bytes of a response.
pub open spec fn response_bytes(r: ConnectResponse) -> Seq<u8> {
    seq![status_byte(r.status), 0u8] + be16_bytes(r.reason)
}

/// Reading a response: all four bytes are read before the status is checked.
pub open spec fn parse_response(b: Seq<u8>) -> Result<(int, ConnectResponse), WireError> {
    if b.len() < 4 {
        Err(WireError::Incomplete(4))
    } else {
        match status_from_byte(b[0]) {
            Some(status) => Ok((4, ConnectResponse { status, reason: be16_value(b[2], b[3]) })),
            None => Err(WireError::InvalidStatus),
        }
    }
}

impl ConnectResponse {
    /// Reads a response from the front of `buf`.
    pub fn read_from(buf: &[u8]) -> (r: Result<(usize, ConnectResponse), WireError>)
        ensures
            match r {
                Ok((n, v)) => parse_response(buf@) == Ok::<(int, ConnectResponse), WireError>(
                    (n as int, v),
                ),
                Err(e) => parse_response(buf@) == Err::<(int, ConnectResponse), WireError>(e),
            },
            reads_prefix(parse_response(buf@), buf@.len() as int),
    {
        if buf.len() < 4 {
            return Err(WireError::Incomplete(4));
        }
        let reason = read_be16(buf, 2);
        match StatusCode::from_u8(buf[0]) {
            Some(status) => Ok((4, ConnectResponse { status, reason })),
            None => Err(WireError::InvalidStatus),
        }
    }

    /// Appends the four bytes of this response to `out`.
    pub fn write_to(&self, out: &mut Vec<u8>)
        ensures
            final(out)@ == old(out)@ + response_bytes(*self),
    {
        let ghost start = out@;
        out.push(self.status.to_u8());
        out.push(0u8);
        push_be16(out, self.reason);
        assert(out@ =~= start + response_bytes(*self));
    }
}

/// Every response is read back as itself, from exactly its four bytes.
pub proof fn lemma_response_roundtrip(r: ConnectResponse, rest: Seq<u8>)
    ensures
        parse_response(response_bytes(r) + rest) == Ok::<(int, ConnectResponse), WireError>(
            (4, r),
        ),
{
    lemma_be16_roundtrip(r.reason);
    let b = response_bytes(r) + rest;
    assert(b[0] == status_byte(r.status));
    assert(b[2] == be16_bytes(r.reason)[0]);
    assert(b[3] == be16_bytes(r.reason)[1]);
}

/// A read response is written back as its bytes when the reserved byte is zero.
pub proof fn lemma_response_reencode(b: Seq<u8>)
    requires
        parse_response(b) is Ok,
        b[1] == 0,
    ensures
        response_bytes(parse_response(b)->Ok_0.1) == b.subrange(0, 4),
{
    lemma_be16_bytes_of_value(b[2], b[3]);
    assert(response_bytes(parse_response(b)->Ok_0.1) =~= b.subrange(0, 4));
}

} // verus!
