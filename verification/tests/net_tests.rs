use px_core::net::{
    format_target, ip_to_string, parse_target, read_ip, read_ipv4, read_ipv6, read_socket_addr,
    socket_addr_to_string, SocketAddr, TargetError,
};
use px_core::proto::{ConnectRequest, IpAddr, TargetAddr};

fn chars(s: &str) -> Vec<char> {
    s.chars().collect()
}

fn v6(groups: [u16; 8]) -> [u8; 16] {
    let mut o = [0u8; 16];
    for (i, g) in groups.iter().enumerate() {
        o[2 * i] = (g >> 8) as u8;
        o[2 * i + 1] = (g & 0xff) as u8;
    }
    o
}

#[test]
fn ipv4_text_both_ways() {
    assert_eq!(ip_to_string(&IpAddr::V4([192, 168, 0, 1])), "192.168.0.1");
    assert_eq!(read_ipv4(&chars("10.0.0.255")), Some([10, 0, 0, 255]));
    assert_eq!(read_ipv4(&chars("256.0.0.1")), None);
    assert_eq!(read_ipv4(&chars("01.2.3.4")), None);
    assert_eq!(read_ipv4(&chars("1.2.3")), None);
    assert_eq!(read_ipv4(&chars("1.2.3.4.5")), None);
    assert_eq!(read_ipv4(&chars("1..3.4")), None);
    assert_eq!(read_ipv4(&chars("0.0.0.0")), Some([0, 0, 0, 0]));
}

#[test]
fn ipv6_text_is_written_as_std_writes_it() {
    assert_eq!(ip_to_string(&IpAddr::V6([0; 16])), "::");
    assert_eq!(ip_to_string(&IpAddr::V6(v6([0, 0, 0, 0, 0, 0, 0, 1]))), "::1");
    assert_eq!(ip_to_string(&IpAddr::V6(v6([0x2001, 0xdb8, 0, 0, 0, 0, 0, 1]))), "2001:db8::1");
    assert_eq!(ip_to_string(&IpAddr::V6(v6([1, 0, 0, 2, 0, 0, 3, 4]))), "1::2:0:0:3:4");
    assert_eq!(ip_to_string(&IpAddr::V6(v6([1, 0, 2, 3, 4, 5, 6, 7]))), "1:0:2:3:4:5:6:7");
    assert_eq!(ip_to_string(&IpAddr::V6(v6([1, 2, 3, 4, 5, 6, 0, 0]))), "1:2:3:4:5:6::");
    assert_eq!(
        ip_to_string(&IpAddr::V6(v6([0, 0, 0, 0, 0, 0xffff, 0x0102, 0x0304]))),
        "::ffff:1.2.3.4"
    );
    assert_eq!(
        ip_to_string(&IpAddr::V6(v6([0xfe80, 0, 0, 0, 0xabcd, 0xef01, 0x2345, 0x6789]))),
        "fe80::abcd:ef01:2345:6789"
    );
}

#[test]
fn ipv6_text_is_read_as_std_reads_it() {
    assert_eq!(read_ipv6(&chars("::")), Some([0; 16]));
    assert_eq!(read_ipv6(&chars("::1")), Some(v6([0, 0, 0, 0, 0, 0, 0, 1])));
    assert_eq!(read_ipv6(&chars("2001:DB8::1")), Some(v6([0x2001, 0xdb8, 0, 0, 0, 0, 0, 1])));
    assert_eq!(read_ipv6(&chars("1:2:3:4:5:6:7:8")), Some(v6([1, 2, 3, 4, 5, 6, 7, 8])));
    assert_eq!(read_ipv6(&chars("::ffff:1.2.3.4")), Some(v6([0, 0, 0, 0, 0, 0xffff, 0x0102, 0x0304])));
    assert_eq!(read_ipv6(&chars("1:2:3:4:5:6:1.2.3.4")), Some(v6([1, 2, 3, 4, 5, 6, 0x0102, 0x0304])));
    assert_eq!(read_ipv6(&chars("1:2:3:4:5:6:7")), None);
    assert_eq!(read_ipv6(&chars("1:2:3:4:5:6:7:8:9")), None);
    assert_eq!(read_ipv6(&chars("1::2::3")), None);
    assert_eq!(read_ipv6(&chars("12345::")), None);
    assert_eq!(read_ipv6(&chars("1:2:3:4:5:6:7::8")), None);
    assert_eq!(read_ipv6(&chars("g::")), None);
}

#[test]
fn written_addresses_read_back() {
    let samples = [
        IpAddr::V4([8, 8, 4, 4]),
        IpAddr::V6([0; 16]),
        IpAddr::V6(v6([0, 0, 0, 0, 0, 0xffff, 0xc0a8, 0x0001])),
        IpAddr::V6(v6([1, 0, 0, 2, 0, 0, 3, 4])),
        IpAddr::V6(v6([0xffff; 8])),
    ];
    for ip in samples {
        let text = ip_to_string(&ip);
        assert_eq!(read_ip(&chars(&text)), Some(ip));
    }
}

#[test]
fn socket_addresses_both_ways() {
    let a = read_socket_addr("127.0.0.1:7777").unwrap();
    assert_eq!(a, SocketAddr { ip: IpAddr::V4([127, 0, 0, 1]), port: 7777, scope_id: 0 });
    assert_eq!(socket_addr_to_string(&a), "127.0.0.1:7777");
    let b = read_socket_addr("[::1]:443").unwrap();
    assert_eq!(b, SocketAddr { ip: IpAddr::V6(v6([0, 0, 0, 0, 0, 0, 0, 1])), port: 443, scope_id: 0 });
    assert_eq!(socket_addr_to_string(&b), "[::1]:443");
    let c = read_socket_addr("[fe80::1%3]:80").unwrap();
    assert_eq!(c.scope_id, 3);
    assert_eq!(socket_addr_to_string(&c), "[fe80::1%3]:80");
    assert_eq!(read_socket_addr("127.0.0.1"), None);
    assert_eq!(read_socket_addr("127.0.0.1:65536"), None);
    assert_eq!(read_socket_addr("localhost:80"), None);
    assert_eq!(read_socket_addr("::1:80"), None);
    assert_eq!(read_socket_addr("[::1]80"), None);
}

#[test]
fn targets_are_read_from_host_and_port() {
    assert_eq!(
        parse_target("example.com:443"),
        Ok(ConnectRequest { target: TargetAddr::Domain("example.com".to_string()), port: 443 })
    );
    assert_eq!(
        parse_target("1.2.3.4:80"),
        Ok(ConnectRequest { target: TargetAddr::Ip(IpAddr::V4([1, 2, 3, 4])), port: 80 })
    );
    assert_eq!(
        parse_target("::1:22"),
        Ok(ConnectRequest { target: TargetAddr::Ip(IpAddr::V6(v6([0, 0, 0, 0, 0, 0, 0, 1]))), port: 22 })
    );
    assert_eq!(
        parse_target("host:+8"),
        Ok(ConnectRequest { target: TargetAddr::Domain("host".to_string()), port: 8 })
    );
}

#[test]
fn target_errors() {
    assert_eq!(parse_target("example.com"), Err(TargetError::MissingPort));
    assert_eq!(parse_target("example.com:http"), Err(TargetError::InvalidPort));
    assert_eq!(parse_target("example.com:70000"), Err(TargetError::InvalidPort));
    assert_eq!(parse_target("example.com:"), Err(TargetError::InvalidPort));
    assert_eq!(parse_target(":80"), Err(TargetError::EmptyHost));
}

#[test]
fn formatted_targets_read_back() {
    let requests = [
        ConnectRequest { target: TargetAddr::Domain("example.com".to_string()), port: 80 },
        ConnectRequest { target: TargetAddr::Ip(IpAddr::V4([10, 1, 2, 3])), port: 65535 },
        ConnectRequest { target: TargetAddr::Ip(IpAddr::V6(v6([0x2001, 0xdb8, 0, 0, 0, 0, 0, 1]))), port: 0 },
    ];
    assert_eq!(format_target(&requests[0]), "example.com:80");
    assert_eq!(format_target(&requests[2]), "2001:db8::1:0");
    for request in requests {
        assert_eq!(parse_target(&format_target(&request)), Ok(request.clone()));
    }
}
