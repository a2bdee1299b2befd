use px_core::bytes::utf8_bytes;
use px_core::proto::{
    ConnectRequest, ConnectResponse, IpAddr, StatusCode, TargetAddr, WireError,
};

fn encode(request: &ConnectRequest) -> Vec<u8> {
    let mut out = Vec::new();
    request.write_to(&mut out).unwrap();
    out
}

#[test]
fn status_code_bytes_map_both_ways() {
    let codes = [
        StatusCode::Success,
        StatusCode::BadRequest,
        StatusCode::TlsAuthFailed,
        StatusCode::TargetConnectFailed,
        StatusCode::Timeout,
        StatusCode::InternalError,
    ];
    for (i, code) in codes.iter().enumerate() {
        assert_eq!(code.to_u8(), i as u8);
        assert_eq!(StatusCode::from_u8(i as u8), Some(*code));
    }
    assert_eq!(StatusCode::from_u8(6), None);
    assert_eq!(StatusCode::from_u8(255), None);
}

#[test]
fn ipv4_request_bytes() {
    let request = ConnectRequest { target: TargetAddr::Ip(IpAddr::V4([93, 184, 216, 34])), port: 443 };
    assert_eq!(
        encode(&request),
        vec![b'P', b'X', b'T', b'1', 1, 1, 1, 0, 0x01, 0xbb, 0, 0, 93, 184, 216, 34]
    );
}

#[test]
fn ipv6_request_bytes() {
    let mut octets = [0u8; 16];
    octets[15] = 1;
    let request = ConnectRequest { target: TargetAddr::Ip(IpAddr::V6(octets)), port: 80 };
    let bytes = encode(&request);
    assert_eq!(bytes.len(), 28);
    assert_eq!(&bytes[..12], &[b'P', b'X', b'T', b'1', 1, 1, 2, 0, 0, 80, 0, 0]);
    assert_eq!(&bytes[12..], &octets);
}

#[test]
fn domain_request_bytes() {
    let request = ConnectRequest { target: TargetAddr::Domain("example.com".to_string()), port: 80 };
    let mut expected = vec![b'P', b'X', b'T', b'1', 1, 1, 3, 0, 0, 80, 0, 11];
    expected.extend_from_slice(b"example.com");
    assert_eq!(encode(&request), expected);
}

#[test]
fn request_round_trips_for_each_target() {
    let requests = vec![
        ConnectRequest { target: TargetAddr::Ip(IpAddr::V4([10, 0, 0, 1])), port: 1 },
        ConnectRequest { target: TargetAddr::Ip(IpAddr::V6([0xfe; 16])), port: 65535 },
        ConnectRequest { target: TargetAddr::Domain("例子.测试".to_string()), port: 8080 },
        ConnectRequest { target: TargetAddr::Domain(String::new()), port: 0 },
    ];
    for request in requests {
        let mut bytes = encode(&request);
        let len = bytes.len();
        bytes.extend_from_slice(&[9, 9, 9]);
        let (n, back) = ConnectRequest::read_from(&bytes).unwrap();
        assert_eq!(n, len);
        assert_eq!(back, request);
    }
}

#[test]
fn request_asks_for_more_bytes() {
    assert_eq!(ConnectRequest::read_from(&[]), Err(WireError::Incomplete(4)));
    assert_eq!(ConnectRequest::read_from(b"PXT1"), Err(WireError::Incomplete(5)));
    assert_eq!(ConnectRequest::read_from(&[b'P', b'X', b'T', b'1', 1]), Err(WireError::Incomplete(6)));
    assert_eq!(
        ConnectRequest::read_from(&[b'P', b'X', b'T', b'1', 1, 1, 1]),
        Err(WireError::Incomplete(12))
    );
    let header = [b'P', b'X', b'T', b'1', 1, 1, 1, 0, 0, 80, 0, 0, 1, 2];
    assert_eq!(ConnectRequest::read_from(&header), Err(WireError::Incomplete(16)));
    let header = [b'P', b'X', b'T', b'1', 1, 1, 2, 0, 0, 80, 0, 0];
    assert_eq!(ConnectRequest::read_from(&header), Err(WireError::Incomplete(28)));
    let header = [b'P', b'X', b'T', b'1', 1, 1, 3, 0, 0, 80, 0, 5, b'a'];
    assert_eq!(ConnectRequest::read_from(&header), Err(WireError::Incomplete(17)));
}

#[test]
fn request_errors() {
    assert_eq!(ConnectRequest::read_from(b"PXT2\x01\x01"), Err(WireError::InvalidMagic));
    assert_eq!(ConnectRequest::read_from(b"PXT1\x02\x01"), Err(WireError::InvalidVersion));
    assert_eq!(ConnectRequest::read_from(b"PXT1\x01\x02"), Err(WireError::UnsupportedCommand));
    let bad_type = [b'P', b'X', b'T', b'1', 1, 1, 9, 0, 0, 80, 0, 0];
    assert_eq!(ConnectRequest::read_from(&bad_type), Err(WireError::UnsupportedAddressType));
    let bad_utf8 = [b'P', b'X', b'T', b'1', 1, 1, 3, 0, 0, 80, 0, 2, 0xff, 0xfe];
    assert_eq!(ConnectRequest::read_from(&bad_utf8), Err(WireError::InvalidUtf8));
}

#[test]
fn response_bytes_and_round_trip() {
    let response = ConnectResponse { status: StatusCode::TargetConnectFailed, reason: 0x0102 };
    let mut out = Vec::new();
    response.write_to(&mut out);
    assert_eq!(out, vec![3, 0, 1, 2]);
    assert_eq!(ConnectResponse::read_from(&out), Ok((4, response)));
    let ok = ConnectResponse { status: StatusCode::Success, reason: 0 };
    let mut out = Vec::new();
    ok.write_to(&mut out);
    assert_eq!(out, vec![0, 0, 0, 0]);
}

#[test]
fn response_errors() {
    assert_eq!(ConnectResponse::read_from(&[0, 0]), Err(WireError::Incomplete(4)));
    assert_eq!(ConnectResponse::read_from(&[6, 0, 0, 0]), Err(WireError::InvalidStatus));
}

#[test]
fn domain_text_is_decoded_from_utf8() {
    let mut bytes = vec![b'P', b'X', b'T', b'1', 1, 1, 3, 0, 0, 80, 0, 6];
    bytes.extend_from_slice("héllo".as_bytes());
    let (n, request) = ConnectRequest::read_from(&bytes).unwrap();
    assert_eq!(n, 18);
    assert_eq!(request.target, TargetAddr::Domain("héllo".to_string()));
    let truncated = [b'P', b'X', b'T', b'1', 1, 1, 3, 0, 0, 80, 0, 1, 0xc3];
    assert_eq!(ConnectRequest::read_from(&truncated), Err(WireError::InvalidUtf8));
    assert_eq!(utf8_bytes(&"中".to_string()), vec![0xe4, 0xb8, 0xad]);
}

#[test]
fn a_domain_too_long_for_the_length_field_is_refused() {
    let request = ConnectRequest { target: TargetAddr::Domain("a".repeat(65536)), port: 80 };
    let mut out = vec![7u8];
    assert_eq!(request.write_to(&mut out), Err(WireError::DomainTooLong));
    assert_eq!(out, vec![7u8]);
    let longest = ConnectRequest { target: TargetAddr::Domain("a".repeat(65535)), port: 80 };
    let bytes = encode(&longest);
    assert_eq!(&bytes[10..12], &[0xff, 0xff]);
    assert_eq!(ConnectRequest::read_from(&bytes), Ok((bytes.len(), longest)));
}
