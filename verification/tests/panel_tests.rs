use px_core::config::{default_client_config, ClientConfig, TargetOs, TunConfig};
use px_core::net::read_socket_addr;
use px_core::panel::{
    check_tun_prerequisites, check_windows_default_route, current_local_proxy_endpoint,
    detect_tun_helper_kind, dns_helper_relative_path, format_tun_summary, helper_relative_path,
    interpret_privileged_output, is_explicit_utun_name, last_lines, local_helper_invocation,
    macos_tun_routes, map_tun_log_level, parse_helper_pid, parse_macos_default_route,
    parse_pid_file, plan_tun_routes, privileged_start_command, privileged_stop_command,
    process_listed, repair_script_name, routes_applied_message, suggested_ingress_bind_addr,
    translate_socks_connect_error, translate_start_error_text, tun_route_cleanup_commands,
    tun_route_setup_commands, validate_client_start, ConfigLoad, HelperFiles, IoErrorKind,
    PrivilegedPaths, TunHelperKind, TunRoutePlan,
};

fn config_with(local: &str) -> ClientConfig {
    let mut c = default_client_config(TargetOs::MacOs);
    c.local_socks_addr = local.to_string();
    c
}

fn plan() -> TunRoutePlan {
    TunRoutePlan {
        device_name: "utun233".to_string(),
        tun_ipv4: "198.18.0.1".to_string(),
        primary_interface: "en0".to_string(),
        primary_gateway: "192.168.1.1".to_string(),
        server_ip: "203.0.113.5".to_string(),
    }
}

fn strings(v: &[&str]) -> Vec<String> {
    v.iter().map(|s| s.to_string()).collect()
}

#[test]
fn log_levels_for_the_helpers() {
    assert_eq!(map_tun_log_level("error"), "error");
    assert_eq!(map_tun_log_level("warn"), "warn");
    assert_eq!(map_tun_log_level("debug"), "debug");
    assert_eq!(map_tun_log_level("trace"), "debug");
    assert_eq!(map_tun_log_level("info"), "info");
    assert_eq!(map_tun_log_level("verbose"), "info");
}

#[test]
fn utun_names() {
    assert!(is_explicit_utun_name("utun233"));
    assert!(is_explicit_utun_name("utun0"));
    assert!(!is_explicit_utun_name("utun"));
    assert!(!is_explicit_utun_name("utunx"));
    assert!(!is_explicit_utun_name("tun0"));
    assert!(!is_explicit_utun_name("utun1a"));
}

#[test]
fn helpers_by_platform_and_name() {
    assert_eq!(helper_relative_path(TargetOs::Windows), "bin/px-tun-helper.exe");
    assert_eq!(helper_relative_path(TargetOs::MacOs), "bin/px-tun-helper");
    assert_eq!(helper_relative_path(TargetOs::Other), "bin/tun2socks");
    assert_eq!(dns_helper_relative_path(TargetOs::Windows), "bin/px-dns-helper.exe");
    assert_eq!(dns_helper_relative_path(TargetOs::MacOs), "bin/px-dns-helper");
    assert_eq!(detect_tun_helper_kind(Some("px-tun-helper")), TunHelperKind::PxTunHelper);
    assert_eq!(detect_tun_helper_kind(Some("px-tun-helper.exe")), TunHelperKind::PxTunHelper);
    assert_eq!(detect_tun_helper_kind(Some("tun2socks")), TunHelperKind::Tun2Socks);
    assert_eq!(detect_tun_helper_kind(None), TunHelperKind::Tun2Socks);
}

#[test]
fn tun_summary_text() {
    let tun = TunConfig {
        enabled: true,
        helper_path: "bin/px-tun-helper".to_string(),
        device_name: "utun9".to_string(),
        primary_interface: "en1".to_string(),
        ipv4_addr: "198.18.0.1".to_string(),
        mtu: 1400,
    };
    assert_eq!(format_tun_summary(&tun), "device=utun9, interface=en1, ipv4=198.18.0.1, mtu=1400");
}

#[test]
fn local_endpoint_and_ingress_address() {
    let c = config_with("127.0.0.1:7777");
    let e = current_local_proxy_endpoint(&c);
    assert_eq!(e.addr, "127.0.0.1:7777");
    assert_eq!(e.helper_proxy_arg, "socks5://127.0.0.1:7777");
    assert_eq!(e.display, "socks5://127.0.0.1:7777");
    assert_eq!(suggested_ingress_bind_addr(&c), "127.0.0.1:7778");
    assert_eq!(suggested_ingress_bind_addr(&config_with("0.0.0.0:1080")), "0.0.0.0:1081");
    assert_eq!(suggested_ingress_bind_addr(&config_with("[::1]:9000")), "[::1]:9001");
    assert_eq!(suggested_ingress_bind_addr(&config_with("127.0.0.1:65535")), "127.0.0.1:7778");
    assert_eq!(suggested_ingress_bind_addr(&config_with("localhost:1080")), "127.0.0.1:7778");
}

#[test]
fn start_errors_are_translated() {
    let addr = "127.0.0.1:7777";
    assert_eq!(
        translate_start_error_text("failed to bind 127.0.0.1:7777: Address already in use (os error 48)", addr),
        "本地 SOCKS5 端口已被占用，请更换 127.0.0.1:7777 或先停止占用该端口的程序。"
    );
    assert_eq!(translate_start_error_text("Permission denied (os error 13)", addr), "没有权限监听本地地址 127.0.0.1:7777。");
    assert_eq!(translate_start_error_text("server_addr must be IP:port", addr), "服务端地址格式错误，请填写 IP:端口。");
    assert_eq!(translate_start_error_text("boom", addr), "启动客户端失败: boom");
}

#[test]
fn socks_connect_errors_are_translated() {
    let addr = "127.0.0.1:7777";
    assert_eq!(
        translate_socks_connect_error(IoErrorKind::ConnectionRefused, "refused", addr),
        "本地 SOCKS5 未监听 127.0.0.1:7777，请先启动客户端。"
    );
    assert_eq!(translate_socks_connect_error(IoErrorKind::TimedOut, "t", addr), "连接本地 SOCKS5 超时: 127.0.0.1:7777。");
    assert_eq!(translate_socks_connect_error(IoErrorKind::NotFound, "n", addr), "未找到本地 SOCKS5 地址。");
    assert_eq!(
        translate_socks_connect_error(IoErrorKind::Other, "reset", addr),
        "连接本地 SOCKS5 失败 127.0.0.1:7777: reset"
    );
}

#[test]
fn client_start_checks() {
    match validate_client_start(ConfigLoad::Missing, String::new(), true) {
        Err(e) => assert_eq!(e, "当前运行目录下缺少 config/client.toml，请先在界面保存配置。"),
        Ok(_) => panic!("missing config accepted"),
    }
    match validate_client_start(ConfigLoad::Unreadable, String::new(), true) {
        Err(e) => assert_eq!(e, "读取客户端配置失败，请重新保存配置。"),
        Ok(_) => panic!("unreadable config accepted"),
    }
    let mut blank = default_client_config(TargetOs::Other);
    blank.server_addr = "   ".to_string();
    match validate_client_start(ConfigLoad::Loaded(blank), String::new(), true) {
        Err(e) => assert_eq!(e, "服务端地址为空，请先填写服务端地址。"),
        Ok(_) => panic!("blank server accepted"),
    }
    let c = default_client_config(TargetOs::Other);
    match validate_client_start(ConfigLoad::Loaded(c.clone()), "/rt/config/server-cert.pem".to_string(), false) {
        Err(e) => assert_eq!(e, "未找到服务端证书，请先点击“导入证书”或检查证书路径。"),
        Ok(_) => panic!("missing certificate accepted"),
    }
    match validate_client_start(ConfigLoad::Loaded(c), "/rt/config/server-cert.pem".to_string(), true) {
        Ok(d) => {
            assert_eq!(d.server_cert_path, "/rt/config/server-cert.pem");
            assert_eq!(d.server_addr, "127.0.0.1:6666");
        },
        Err(e) => panic!("{}", e),
    }
}

#[test]
fn tun_prerequisites() {
    let mut c = default_client_config(TargetOs::Windows);
    let files = HelperFiles {
        helper_exists: true,
        helper_path: "C:/rt/bin/px-tun-helper.exe".to_string(),
        wintun_exists: false,
        wintun_path: "C:/rt/bin/wintun.dll".to_string(),
    };
    match check_tun_prerequisites(&c, &files, TargetOs::Windows) {
        Err(e) => assert_eq!(e, "TUN 未启用，请先勾选“启用 TUN 全局 TCP”。"),
        Ok(_) => panic!("disabled TUN accepted"),
    }
    c.tun.enabled = true;
    match check_tun_prerequisites(&c, &files, TargetOs::Windows) {
        Err(e) => assert!(e.starts_with("未找到 wintun.dll: C:/rt/bin/wintun.dll")),
        Ok(_) => panic!("missing wintun accepted"),
    }
    let missing = HelperFiles { helper_exists: false, ..files };
    match check_tun_prerequisites(&c, &missing, TargetOs::Windows) {
        Err(e) => assert!(e.starts_with("未找到 TUN helper: C:/rt/bin/px-tun-helper.exe。")),
        Ok(_) => panic!("missing helper accepted"),
    }
    let present = HelperFiles { helper_exists: true, wintun_exists: true, ..missing };
    match check_tun_prerequisites(&c, &present, TargetOs::Windows) {
        Ok(a) => assert_eq!(a, read_socket_addr("127.0.0.1:6666").unwrap()),
        Err(e) => panic!("{}", e),
    }
    c.server_addr = "example.com:6666".to_string();
    match check_tun_prerequisites(&c, &present, TargetOs::MacOs) {
        Err(e) => assert_eq!(e, "服务端地址格式错误，请填写 IP:端口。"),
        Ok(_) => panic!("host name accepted as server address"),
    }
}

#[test]
fn route_plans() {
    let mut c = default_client_config(TargetOs::MacOs);
    c.tun.device_name = "utun7".to_string();
    let server = read_socket_addr("203.0.113.5:6666").unwrap();
    match plan_tun_routes(&c, &server, "en0".to_string(), "192.168.1.1".to_string(), TunHelperKind::PxTunHelper, TargetOs::MacOs) {
        Ok(p) => {
            assert_eq!(p.device_name, "utun7");
            assert_eq!(p.tun_ipv4, "198.18.0.1");
            assert_eq!(p.primary_interface, "en0");
            assert_eq!(p.primary_gateway, "192.168.1.1");
            assert_eq!(p.server_ip, "203.0.113.5");
        },
        Err(e) => panic!("{}", e),
    }
    c.tun.device_name = "tun0".to_string();
    c.tun.primary_interface = " en5 ".to_string();
    match plan_tun_routes(&c, &server, "en0".to_string(), "gw".to_string(), TunHelperKind::PxTunHelper, TargetOs::MacOs) {
        Err(e) => assert!(e.starts_with("px-tun-helper 当前要求显式 utun 设备名")),
        Ok(_) => panic!("device name without utun accepted"),
    }
    match plan_tun_routes(&c, &server, "en0".to_string(), "gw".to_string(), TunHelperKind::Tun2Socks, TargetOs::MacOs) {
        Ok(p) => assert_eq!(p.primary_interface, "en5"),
        Err(e) => panic!("{}", e),
    }
    // the name is checked as written, and trimmed in the plan
    c.tun.device_name = " utun7 ".to_string();
    assert!(plan_tun_routes(&c, &server, "en0".to_string(), "gw".to_string(), TunHelperKind::PxTunHelper, TargetOs::MacOs).is_err());
    match plan_tun_routes(&c, &server, "en0".to_string(), "gw".to_string(), TunHelperKind::PxTunHelper, TargetOs::Windows) {
        Ok(p) => assert_eq!(p.device_name, "utun7"),
        Err(e) => panic!("{}", e),
    }
}

#[test]
fn default_routes_are_read() {
    let text = "   route to: default\ndestination: default\n    gateway: 192.168.1.1\n  interface: en0\n      flags: <UP,GATEWAY>\n";
    assert_eq!(parse_macos_default_route(text), Ok(("en0".to_string(), "192.168.1.1".to_string())));
    assert_eq!(parse_macos_default_route("interface: en0\n"), Err("解析系统默认路由失败。".to_string()));
    assert_eq!(
        check_windows_default_route("Ethernet".to_string(), "10.0.0.1".to_string()),
        Ok(("Ethernet".to_string(), "10.0.0.1".to_string()))
    );
    assert_eq!(check_windows_default_route(" ".to_string(), "10.0.0.1".to_string()), Err("解析系统默认路由失败。".to_string()));
}

#[test]
fn route_commands_for_macos() {
    let setup = tun_route_setup_commands(&plan(), TargetOs::MacOs).unwrap();
    assert_eq!(setup.len(), 11);
    assert_eq!(setup[0].program, "ifconfig");
    assert_eq!(setup[0].args, strings(&["utun233", "198.18.0.1", "198.18.0.1", "up"]));
    assert_eq!(setup[1].program, "route");
    assert_eq!(setup[1].args, strings(&["-n", "add", "-host", "203.0.113.5", "192.168.1.1"]));
    assert_eq!(setup[2].args, strings(&["-n", "add", "-net", "1.0.0.0/8", "198.18.0.1"]));
    assert_eq!(setup[10].args, strings(&["-n", "add", "-net", "198.18.0.0/15", "198.18.0.1"]));
    let cleanup = tun_route_cleanup_commands(&plan(), TargetOs::MacOs).unwrap();
    assert_eq!(cleanup.len(), 11);
    assert_eq!(cleanup[0].args, strings(&["-n", "delete", "-host", "203.0.113.5", "192.168.1.1"]));
    assert_eq!(cleanup[10].program, "ifconfig");
    assert_eq!(cleanup[10].args, strings(&["utun233", "down"]));
    assert_eq!(macos_tun_routes().len(), 9);
    assert_eq!(macos_tun_routes()[7], "128.0.0.0/1");
}

#[test]
fn route_commands_for_windows_and_others() {
    let setup = tun_route_setup_commands(&plan(), TargetOs::Windows).unwrap();
    assert_eq!(setup.len(), 3);
    assert_eq!(setup[0].program, "netsh");
    assert_eq!(
        setup[0].args,
        strings(&["interface", "ipv4", "set", "address", "name=utun233", "source=static", "addr=198.18.0.1", "mask=255.255.255.0"])
    );
    assert_eq!(setup[1].args, strings(&["ADD", "203.0.113.5", "MASK", "255.255.255.255", "192.168.1.1"]));
    assert_eq!(setup[2].args, strings(&["interface", "ipv4", "add", "route", "0.0.0.0/0", "utun233", "198.18.0.1", "metric=1"]));
    let cleanup = tun_route_cleanup_commands(&plan(), TargetOs::Windows).unwrap();
    assert_eq!(cleanup.len(), 2);
    assert_eq!(cleanup[1].args, strings(&["DELETE", "203.0.113.5", "MASK", "255.255.255.255", "192.168.1.1"]));
    match tun_route_setup_commands(&plan(), TargetOs::Other) {
        Err(e) => assert_eq!(e, "当前平台暂未接入 TUN。"),
        Ok(_) => panic!("routes for an unsupported platform"),
    }
    match tun_route_cleanup_commands(&plan(), TargetOs::Other) {
        Err(e) => assert_eq!(e, "当前平台暂未接入 TUN。"),
        Ok(_) => panic!("routes for an unsupported platform"),
    }
    assert_eq!(routes_applied_message(&plan()), "TUN 路由已生效: server=203.0.113.5 走 en0，其余 TCP 走 utun233");
}

#[test]
fn helper_command_lines() {
    let mut c = config_with("127.0.0.1:7777");
    c.log_level = "trace".to_string();
    let (args, display) = local_helper_invocation(TunHelperKind::PxTunHelper, &c, "en0");
    assert_eq!(
        args,
        strings(&[
            "-device", "utun233", "-tun-ipv4", "198.18.0.1", "-ingress", "127.0.0.1:7778",
            "-primary-interface", "en0", "-mtu", "1500", "-connect-timeout-ms", "5000",
            "-log-level", "debug",
        ])
    );
    assert_eq!(display, "ingress://127.0.0.1:7778");
    let (args, display) = local_helper_invocation(TunHelperKind::Tun2Socks, &c, "eth0");
    assert_eq!(
        args,
        strings(&["-device", "utun233", "-proxy", "socks5://127.0.0.1:7777", "-interface", "eth0", "-mtu", "1500", "-loglevel", "debug"])
    );
    assert_eq!(display, "socks5://127.0.0.1:7777");
    let paths = PrivilegedPaths {
        script: "/rt/scripts/macos-tun-helper.sh".to_string(),
        helper: "/rt/bin/px-tun-helper".to_string(),
        dns_helper: "/rt/bin/px-dns-helper".to_string(),
        log: "/rt/logs/tun-helper.log".to_string(),
        pid: "/rt/logs/tun-helper.pid".to_string(),
    };
    assert_eq!(
        privileged_start_command(TunHelperKind::PxTunHelper, &c, &plan(), &paths),
        strings(&[
            "/bin/bash", "/rt/scripts/macos-tun-helper.sh", "start", "/rt/bin/px-tun-helper",
            "/rt/bin/px-dns-helper", "ingress", "127.0.0.1:7778", "utun233", "en0", "1500", "debug",
            "198.18.0.1", "192.168.1.1", "203.0.113.5", "/rt/logs/tun-helper.log", "/rt/logs/tun-helper.pid",
        ])
    );
    assert_eq!(privileged_start_command(TunHelperKind::Tun2Socks, &c, &plan(), &paths)[5], "socks5");
    assert_eq!(privileged_start_command(TunHelperKind::Tun2Socks, &c, &plan(), &paths)[6], "127.0.0.1:7777");
    assert_eq!(
        privileged_stop_command("/rt/scripts/macos-tun-helper.sh", &plan(), "/rt/logs/tun-helper.pid", 4321),
        strings(&[
            "bash", "/rt/scripts/macos-tun-helper.sh", "stop", "utun233", "198.18.0.1", "192.168.1.1",
            "203.0.113.5", "/rt/logs/tun-helper.pid", "4321",
        ])
    );
}

#[test]
fn privileged_script_results() {
    assert_eq!(interpret_privileged_output(true, " 4321\n", ""), Ok("4321".to_string()));
    assert_eq!(
        interpret_privileged_output(false, "", "execution error: User canceled. (-128)"),
        Err("已取消管理员授权，TUN 未启动。".to_string())
    );
    assert_eq!(interpret_privileged_output(false, "  ", "\n"), Err("管理员权限脚本执行失败。".to_string()));
    assert_eq!(interpret_privileged_output(false, "out", " "), Err("管理员权限脚本执行失败: out".to_string()));
    assert_eq!(interpret_privileged_output(false, "out", "err"), Err("管理员权限脚本执行失败: err".to_string()));
}

#[test]
fn pids_are_read() {
    assert_eq!(parse_helper_pid(" 123\n"), Ok(123));
    assert_eq!(parse_helper_pid("abc"), Err("提权 helper 返回了无效 pid: abc".to_string()));
    assert_eq!(parse_pid_file("77\n", "/rt/logs/tun-helper.pid"), Ok(77));
    assert_eq!(parse_pid_file("", "/p"), Err("无效的 TUN pid 文件: /p".to_string()));
    assert_eq!(parse_pid_file("4294967296", "/p"), Err("无效的 TUN pid 文件: /p".to_string()));
    assert!(process_listed(true, "  123\n"));
    assert!(!process_listed(true, "   "));
    assert!(!process_listed(false, "123"));
}

#[test]
fn repair_scripts_by_platform() {
    assert_eq!(repair_script_name(TargetOs::Windows, false), Ok("repair-tun-helper.ps1"));
    assert_eq!(repair_script_name(TargetOs::MacOs, true), Ok("install-dev-px-tun-helper.sh"));
    assert!(repair_script_name(TargetOs::MacOs, false).is_err());
    assert!(repair_script_name(TargetOs::Other, true).is_err());
}

#[test]
fn last_lines_of_a_log() {
    assert_eq!(last_lines("a\nb\r\nc\n", 2), strings(&["b", "c"]));
    assert_eq!(last_lines("a\nb", 8), strings(&["a", "b"]));
    assert_eq!(last_lines("", 8), Vec::<String>::new());
    assert_eq!(last_lines("x\n\ny", 2), strings(&["", "y"]));
}

#[test]
fn cleanup_deletes_what_setup_adds() {
    let setup = tun_route_setup_commands(&plan(), TargetOs::MacOs).unwrap();
    let cleanup = tun_route_cleanup_commands(&plan(), TargetOs::MacOs).unwrap();
    for i in 1..11 {
        let mut expected = setup[i].args.clone();
        assert_eq!(expected[1], "add");
        expected[1] = "delete".to_string();
        assert_eq!(cleanup[i - 1].program, setup[i].program);
        assert_eq!(cleanup[i - 1].args, expected);
    }
    let setup = tun_route_setup_commands(&plan(), TargetOs::Windows).unwrap();
    let cleanup = tun_route_cleanup_commands(&plan(), TargetOs::Windows).unwrap();
    let mut expected = setup[2].args.clone();
    expected[2] = "delete".to_string();
    expected.pop();
    assert_eq!(cleanup[0].args, expected);
    let mut expected = setup[1].args.clone();
    expected[0] = "DELETE".to_string();
    assert_eq!(cleanup[1].args, expected);
}
