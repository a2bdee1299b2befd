use px_core::proto::{ConnectRequest, IpAddr, StatusCode, TargetAddr};
use px_core::socks5::{
    check_reply_code, client_connect_request, client_greeting, error_reply, failure_reply,
    greeting_accept_reply, greeting_accepted, map_upstream_status_to_socks, read_greeting,
    read_reply, read_request, success_reply, ReplyError, Socks5Error,
};

#[test]
fn greeting_with_no_auth_is_accepted() {
    assert_eq!(read_greeting(&[5, 1, 0]), Ok(3));
    assert_eq!(read_greeting(&[5, 3, 2, 1, 0, 7]), Ok(5));
    assert_eq!(greeting_accept_reply(), vec![5, 0]);
}

#[test]
fn greeting_errors() {
    assert_eq!(read_greeting(&[]), Err(Socks5Error::Incomplete(1)));
    assert_eq!(read_greeting(&[4, 1, 0]), Err(Socks5Error::UnsupportedVersion(4)));
    assert_eq!(read_greeting(&[5]), Err(Socks5Error::Incomplete(2)));
    assert_eq!(read_greeting(&[5, 2, 0]), Err(Socks5Error::Incomplete(4)));
    assert_eq!(read_greeting(&[5, 2, 1, 2]), Err(Socks5Error::NoAcceptableMethod));
    assert_eq!(read_greeting(&[5, 0]), Err(Socks5Error::NoAcceptableMethod));
    assert_eq!(error_reply(Socks5Error::NoAcceptableMethod), Some(vec![5, 0xff]));
}

#[test]
fn connect_requests_of_each_address_type() {
    let v4 = [5, 1, 0, 1, 127, 0, 0, 1, 0x1f, 0x90];
    assert_eq!(
        read_request(&v4),
        Ok((10, ConnectRequest { target: TargetAddr::Ip(IpAddr::V4([127, 0, 0, 1])), port: 8080 }))
    );
    let mut domain = vec![5, 1, 0, 3, 11];
    domain.extend_from_slice(b"example.com");
    domain.extend_from_slice(&[0, 80, 0xaa]);
    assert_eq!(
        read_request(&domain),
        Ok((18, ConnectRequest { target: TargetAddr::Domain("example.com".to_string()), port: 80 }))
    );
    let mut v6 = vec![5, 1, 0, 4];
    v6.extend_from_slice(&[0x20, 0x01, 0x0d, 0xb8, 0, 0, 0, 0, 0, 0, 0, 0, 0, 0, 0, 1]);
    v6.extend_from_slice(&[1, 0xbb]);
    let mut octets = [0u8; 16];
    octets[..4].copy_from_slice(&[0x20, 0x01, 0x0d, 0xb8]);
    octets[15] = 1;
    assert_eq!(
        read_request(&v6),
        Ok((22, ConnectRequest { target: TargetAddr::Ip(IpAddr::V6(octets)), port: 443 }))
    );
}

#[test]
fn connect_request_errors() {
    assert_eq!(read_request(&[]), Err(Socks5Error::Incomplete(1)));
    assert_eq!(read_request(&[4, 1, 0, 1]), Err(Socks5Error::InvalidRequestVersion(4)));
    assert_eq!(read_request(&[5]), Err(Socks5Error::Incomplete(2)));
    assert_eq!(read_request(&[5, 2, 0, 1]), Err(Socks5Error::UnsupportedCommand));
    assert_eq!(read_request(&[5, 1, 0]), Err(Socks5Error::Incomplete(4)));
    assert_eq!(read_request(&[5, 1, 0, 1, 1, 2]), Err(Socks5Error::Incomplete(10)));
    assert_eq!(read_request(&[5, 1, 0, 3]), Err(Socks5Error::Incomplete(5)));
    assert_eq!(read_request(&[5, 1, 0, 3, 3, b'a']), Err(Socks5Error::Incomplete(8)));
    assert_eq!(read_request(&[5, 1, 0, 3, 1, b'a']), Err(Socks5Error::Incomplete(8)));
    assert_eq!(read_request(&[5, 1, 0, 3, 1, 0xff, 0, 80]), Err(Socks5Error::InvalidDomainUtf8));
    assert_eq!(read_request(&[5, 1, 0, 4, 0]), Err(Socks5Error::Incomplete(22)));
    assert_eq!(read_request(&[5, 1, 0, 9]), Err(Socks5Error::UnsupportedAddressType(9)));
    assert_eq!(error_reply(Socks5Error::UnsupportedCommand), Some(vec![5, 7, 0, 1, 0, 0, 0, 0, 0, 0]));
    assert_eq!(
        error_reply(Socks5Error::UnsupportedAddressType(9)),
        Some(vec![5, 8, 0, 1, 0, 0, 0, 0, 0, 0])
    );
    assert_eq!(error_reply(Socks5Error::InvalidDomainUtf8), None);
    assert_eq!(error_reply(Socks5Error::Incomplete(3)), None);
}

#[test]
fn replies_carry_the_code() {
    assert_eq!(success_reply(), vec![5, 0, 0, 1, 0, 0, 0, 0, 0, 0]);
    assert_eq!(failure_reply(5), vec![5, 5, 0, 1, 0, 0, 0, 0, 0, 0]);
}

#[test]
fn upstream_status_maps_to_socks_codes() {
    assert_eq!(map_upstream_status_to_socks(StatusCode::Success), 0x00);
    assert_eq!(map_upstream_status_to_socks(StatusCode::BadRequest), 0x01);
    assert_eq!(map_upstream_status_to_socks(StatusCode::TlsAuthFailed), 0x01);
    assert_eq!(map_upstream_status_to_socks(StatusCode::InternalError), 0x01);
    assert_eq!(map_upstream_status_to_socks(StatusCode::TargetConnectFailed), 0x05);
    assert_eq!(map_upstream_status_to_socks(StatusCode::Timeout), 0x04);
}

#[test]
fn client_side_messages() {
    assert_eq!(client_greeting(), vec![5, 1, 0]);
    assert!(greeting_accepted(&[5, 0]));
    assert!(!greeting_accepted(&[5, 0xff]));
    assert!(!greeting_accepted(&[5, 0, 0]));
    let request = ConnectRequest { target: TargetAddr::Domain("example.com".to_string()), port: 80 };
    let mut expected = vec![5, 1, 0, 3, 11];
    expected.extend_from_slice(b"example.com");
    expected.extend_from_slice(&[0, 80]);
    assert_eq!(client_connect_request(&request), Some(expected));
    let v4 = ConnectRequest { target: TargetAddr::Ip(IpAddr::V4([1, 1, 1, 1])), port: 53 };
    assert_eq!(client_connect_request(&v4), Some(vec![5, 1, 0, 1, 1, 1, 1, 1, 0, 53]));
    let long = ConnectRequest { target: TargetAddr::Domain("d".repeat(256)), port: 80 };
    assert_eq!(client_connect_request(&long), None);
    let longest = ConnectRequest { target: TargetAddr::Domain("d".repeat(255)), port: 80 };
    assert_eq!(client_connect_request(&longest).unwrap()[4], 255);
}

#[test]
fn client_request_is_read_back_by_the_front_end() {
    let request = ConnectRequest { target: TargetAddr::Domain("a.example".to_string()), port: 8443 };
    let bytes = client_connect_request(&request).unwrap();
    assert_eq!(read_request(&bytes), Ok((bytes.len(), request)));
    assert_eq!(read_greeting(&client_greeting()), Ok(3));
}

#[test]
fn client_reads_replies() {
    assert_eq!(check_reply_code(&[5, 0]), Ok(()));
    assert_eq!(check_reply_code(&[5, 4, 0, 1]), Err(4));
    assert_eq!(read_reply(&success_reply()), Ok(10));
    assert_eq!(read_reply(&failure_reply(5)), Err(ReplyError::Failed(5)));
    assert_eq!(read_reply(&[5, 0]), Err(ReplyError::Incomplete(4)));
    assert_eq!(read_reply(&[5, 0, 0, 1, 0]), Err(ReplyError::Incomplete(10)));
    assert_eq!(read_reply(&[5, 0, 0, 4]), Err(ReplyError::Incomplete(22)));
    assert_eq!(read_reply(&[5, 0, 0, 3]), Err(ReplyError::Incomplete(5)));
    assert_eq!(read_reply(&[5, 0, 0, 3, 2, b'a']), Err(ReplyError::Incomplete(9)));
    assert_eq!(read_reply(&[5, 0, 0, 3, 2, b'a', b'b', 0, 1]), Ok(9));
    assert_eq!(read_reply(&[5, 0, 0, 7]), Err(ReplyError::UnexpectedAddressType(7)));
}
