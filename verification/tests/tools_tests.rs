use px_core::config::{default_client_config, TargetOs, TunConfig};
use px_core::logbuf::{utf8_width, LogBuffer, LOG_LIMIT};
use px_core::net::read_socket_addr;
use px_core::tools::{
    config_path_from_args, dns_helper_config_from_args, fallback_first, fallback_next, frame_dns_query,
    get_flag, percentile_rank, FallbackAction,
};

fn args(v: &[&str]) -> Vec<String> {
    v.iter().map(|s| s.to_string()).collect()
}

#[test]
fn flags_are_found_by_name() {
    let a = args(&["--config", "c.toml", "--target", "example.com:80", "--count"]);
    assert_eq!(get_flag(&a, "--target"), Some("example.com:80".to_string()));
    assert_eq!(get_flag(&a, "--config"), Some("c.toml".to_string()));
    assert_eq!(get_flag(&a, "--count"), None);
    assert_eq!(get_flag(&a, "--missing"), None);
    assert_eq!(config_path_from_args(&a, "config/client.toml"), "c.toml");
    assert_eq!(config_path_from_args(&args(&["run"]), "config/client.toml"), "config/client.toml");
}

#[test]
fn percentile_ranks() {
    assert_eq!(percentile_rank(100, 50), 49);
    assert_eq!(percentile_rank(100, 95), 94);
    assert_eq!(percentile_rank(1, 99), 0);
    assert_eq!(percentile_rank(20, 99), 18);
    assert_eq!(percentile_rank(20, 0), 0);
    assert_eq!(percentile_rank(20, 100), 19);
    let mut last = 0;
    for p in 0..=100 {
        let r = percentile_rank(37, p);
        assert!(last <= r && r < 37);
        last = r;
    }
}

#[test]
fn dns_fallback_steps() {
    match fallback_first(0) {
        FallbackAction::GiveUp(e) => assert_eq!(e, "no dns upstream configured"),
        _ => panic!("no upstream, yet something to ask"),
    }
    assert!(matches!(fallback_first(2), FallbackAction::Ask(0)));
    assert!(matches!(fallback_next(2, 0, Err("timed out".to_string())), FallbackAction::Ask(1)));
    match fallback_next(2, 1, Err("refused".to_string())) {
        FallbackAction::GiveUp(e) => assert_eq!(e, "refused"),
        _ => panic!("the last upstream failed, yet no failure"),
    }
    match fallback_next(2, 0, Ok(vec![1, 2])) {
        FallbackAction::Answer(a) => assert_eq!(a, vec![1, 2]),
        _ => panic!("an answer was dropped"),
    }
}

#[test]
fn dns_helper_defaults() {
    let c = dns_helper_config_from_args(&Vec::new()).unwrap();
    assert_eq!(c.listen_addr, read_socket_addr("127.0.0.1:53").unwrap());
    assert_eq!(c.socks_addr, read_socket_addr("127.0.0.1:7777").unwrap());
    assert_eq!(c.upstreams, vec![read_socket_addr("1.1.1.1:53").unwrap(), read_socket_addr("8.8.8.8:53").unwrap()]);
    assert_eq!(c.timeout_ms, 5000);
}

#[test]
fn dns_helper_arguments() {
    let a = args(&[
        "--listen", "127.0.0.1:5353", "--socks", "[::1]:1080", "--upstream", "9.9.9.9:53",
        "--timeout-ms", "250",
    ]);
    let c = dns_helper_config_from_args(&a).unwrap();
    assert_eq!(c.listen_addr, read_socket_addr("127.0.0.1:5353").unwrap());
    assert_eq!(c.socks_addr, read_socket_addr("[::1]:1080").unwrap());
    assert_eq!(c.upstreams, vec![read_socket_addr("9.9.9.9:53").unwrap()]);
    assert_eq!(c.timeout_ms, 250);
}

#[test]
fn dns_helper_argument_errors() {
    let err = |v: &[&str]| match dns_helper_config_from_args(&args(v)) {
        Err(e) => e,
        Ok(_) => panic!("arguments accepted"),
    };
    assert_eq!(err(&["--listen"]), "missing value for --listen");
    assert_eq!(err(&["--listen", "nowhere"]), "invalid --listen address");
    assert_eq!(err(&["--socks", "1.2.3.4"]), "invalid --socks address");
    assert_eq!(err(&["--upstream"]), "missing value for --upstream");
    assert_eq!(err(&["--timeout-ms", "-1"]), "invalid --timeout-ms");
    assert_eq!(err(&["--verbose"]), "unknown argument: --verbose");
}

#[test]
fn dns_queries_are_framed() {
    assert_eq!(frame_dns_query(&[1, 2, 3]), Some(vec![0, 3, 1, 2, 3]));
    assert_eq!(frame_dns_query(&[]), Some(vec![0, 0]));
    let big = vec![7u8; 300];
    let framed = frame_dns_query(&big).unwrap();
    assert_eq!(&framed[..2], &[1, 44]);
    assert_eq!(framed.len(), 302);
    assert_eq!(frame_dns_query(&vec![0u8; 65536]), None);
}

#[test]
fn log_buffer_keeps_lines() {
    let mut log = LogBuffer::new();
    assert_eq!(log.to_string(), "");
    log.append_log_line("runtime", "started");
    log.append_log_line("tun", "路由");
    assert_eq!(log.to_string(), "[runtime] started\n[tun] 路由");
    assert_eq!(log.len(), "[runtime] started\n[tun] 路由".len());
    log.clear();
    assert_eq!(log.to_string(), "");
    assert_eq!(log.len(), 0);
}

#[test]
fn log_buffer_keeps_the_newest_tail() {
    let mut log = LogBuffer::new();
    let line = "x".repeat(1000);
    for _ in 0..20 {
        log.append_log_line("s", &line);
    }
    let text = log.to_string();
    assert!(text.len() <= LOG_LIMIT);
    assert_eq!(text.len(), LOG_LIMIT);
    assert!(text.ends_with(&format!("\n[s] {}", line)));
    let mut wide = LogBuffer::new();
    let chinese = "中".repeat(6000);
    wide.append_log_line("s", &chinese);
    let t = wide.to_string();
    assert!(t.len() <= LOG_LIMIT);
    assert!(LOG_LIMIT - t.len() < 3);
    assert!(t.chars().all(|c| c == '中'));
    assert_eq!(utf8_width('a'), 1);
    assert_eq!(utf8_width('é'), 2);
    assert_eq!(utf8_width('中'), 3);
    assert_eq!(utf8_width('😀'), 4);
}

#[test]
fn default_configurations() {
    let tun = TunConfig::default_for(TargetOs::Windows);
    assert!(!tun.enabled);
    assert_eq!(tun.helper_path, "bin/px-tun-helper.exe");
    assert_eq!(tun.device_name, "wintun");
    assert_eq!(tun.ipv4_addr, "192.168.123.1");
    assert_eq!(tun.mtu, 1500);
    let mac = TunConfig::default_for(TargetOs::MacOs);
    assert_eq!(mac.helper_path, "bin/px-tun-helper");
    assert_eq!(mac.device_name, "utun233");
    assert_eq!(mac.ipv4_addr, "198.18.0.1");
    let other = TunConfig::default_for(TargetOs::Other);
    assert_eq!(other.helper_path, "bin/tun2socks");
    assert_eq!(other.primary_interface, "");
    let c = default_client_config(TargetOs::Other);
    assert_eq!(c.server_addr, "127.0.0.1:6666");
    assert_eq!(c.server_cert_path, "config/server-cert.pem");
    assert_eq!(c.local_socks_addr, "127.0.0.1:7777");
    assert_eq!(c.connect_timeout_ms, 5000);
    assert_eq!(c.log_level, "info");
}
