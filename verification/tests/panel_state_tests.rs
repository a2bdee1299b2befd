use px_core::config::{default_client_config, TargetOs};
use px_core::panel::TunHelperKind;
use px_core::panel_state::{
    check_launched_alive, check_repair_allowed, check_tun_ingress, client_start_report,
    client_stop_report, connectivity_verdict, imported_cert_config, ingress_probe_verdict,
    launched_pid, pick_runtime_dir, poll_runtime, poll_tun, repair_outcome, repair_script_error,
    runtime_dir_levels, script_not_found_message, status_debug_name, tun_start_report,
    tun_stop_report, RuntimeSlot, StatusReport, TunProbe,
};
use px_core::proto::{ConnectResponse, StatusCode};

fn check(r: &StatusReport, running: bool, pid: Option<u32>, message: &str) {
    assert_eq!(r.running, running);
    assert_eq!(r.pid, pid);
    assert_eq!(r.message, message);
}

#[test]
fn runtime_polls() {
    let p = poll_runtime(RuntimeSlot::Empty);
    check(&p.report, false, None, "客户端未启动");
    assert!(!p.keep_runtime && p.log.is_none());
    let p = poll_runtime(RuntimeSlot::Started { primary_finished: true, ingress: Some(false) });
    check(&p.report, false, None, "客户端已退出，请查看最近日志。");
    assert!(!p.keep_runtime);
    let p = poll_runtime(RuntimeSlot::Started { primary_finished: false, ingress: Some(true) });
    check(&p.report, true, None, "客户端运行中");
    assert!(p.keep_runtime && !p.keep_ingress);
    assert_eq!(p.log.as_deref(), Some("预留 ingress listener 已退出，当前仍保留 SOCKS5 主路径。"));
    let p = poll_runtime(RuntimeSlot::Started { primary_finished: false, ingress: Some(false) });
    assert!(p.keep_runtime && p.keep_ingress && p.log.is_none());
    let p = poll_runtime(RuntimeSlot::Started { primary_finished: false, ingress: None });
    assert!(p.keep_runtime && !p.keep_ingress && p.log.is_none());
}

#[test]
fn tun_polls() {
    let p = poll_tun(None);
    check(&p.report, false, None, "TUN 未启动");
    let p = poll_tun(Some(TunProbe { pid: 42, alive: true, local: true }));
    check(&p.report, true, Some(42), "TUN 已运行");
    assert!(p.keep && !p.cleanup_routes);
    let p = poll_tun(Some(TunProbe { pid: 42, alive: false, local: true }));
    check(&p.report, false, Some(42), "TUN helper 已退出，请查看最近日志。");
    assert!(!p.keep && p.cleanup_routes);
    let p = poll_tun(Some(TunProbe { pid: 7, alive: false, local: false }));
    assert!(!p.keep && !p.cleanup_routes);
}

#[test]
fn start_and_stop_reports() {
    check(&client_start_report(true), true, None, "客户端已在运行");
    check(&client_start_report(false), true, None, "客户端已启动");
    check(&client_stop_report(true), false, None, "客户端已停止");
    check(&client_stop_report(false), false, None, "客户端未运行");
    check(&tun_start_report(true, Some(9)), true, Some(9), "TUN 已在运行");
    check(&tun_start_report(false, Some(9)), true, Some(9), "TUN 已启动");
    check(&tun_stop_report(Some(9)), false, Some(9), "TUN 已停止");
    check(&tun_stop_report(None), false, None, "TUN 未运行");
}

#[test]
fn guards_before_tun_work() {
    assert_eq!(check_repair_allowed(true), Err("TUN 正在运行，请先停止 TUN，再更新 helper。".to_string()));
    assert_eq!(check_repair_allowed(false), Ok(()));
    let missing = Err("px-tun-helper 需要本地预留 ingress listener，但当前 ingress 未启动，请先重启客户端。".to_string());
    assert_eq!(check_tun_ingress(TunHelperKind::PxTunHelper, Some(false)), Ok(()));
    assert_eq!(check_tun_ingress(TunHelperKind::PxTunHelper, Some(true)), missing);
    assert_eq!(check_tun_ingress(TunHelperKind::PxTunHelper, None), missing);
    assert_eq!(check_tun_ingress(TunHelperKind::Tun2Socks, None), Ok(()));
}

#[test]
fn connectivity_probe_verdicts() {
    let ok_reply = [5, 0, 0, 1, 0, 0, 0, 0, 0, 0];
    assert_eq!(
        connectivity_verdict(&[5, 0], &ok_reply),
        Ok("代理链路正常，已通过本地 SOCKS5 成功连通 example.com:80。".to_string())
    );
    assert_eq!(connectivity_verdict(&[5, 0xff], &ok_reply), Err("SOCKS5 鉴权协商失败".to_string()));
    assert_eq!(
        connectivity_verdict(&[5, 0], &[5, 5, 0, 1, 0, 0, 0, 0, 0, 0]),
        Err("代理链路失败，SOCKS5 返回码 5".to_string())
    );
}

#[test]
fn ingress_probe_verdicts() {
    let ok = ConnectResponse { status: StatusCode::Success, reason: 0 };
    assert_eq!(ingress_probe_verdict(&ok, "example.com", 80), Ok(()));
    let bad = ConnectResponse { status: StatusCode::TargetConnectFailed, reason: 3 };
    assert_eq!(
        ingress_probe_verdict(&bad, "example.com", 80),
        Err("ingress 返回状态 TargetConnectFailed，reason=3, target=example.com:80".to_string())
    );
    assert_eq!(status_debug_name(StatusCode::Success), "Ok");
    assert_eq!(status_debug_name(StatusCode::Timeout), "Timeout");
}

#[test]
fn certificate_import_updates_the_config() {
    let mut c = default_client_config(TargetOs::Windows);
    c.server_cert_path = "old.pem".to_string();
    c.server_addr = "10.0.0.1:6666".to_string();
    let updated = imported_cert_config(Some(c), TargetOs::Windows);
    assert_eq!(updated.server_cert_path, "config/server-cert.pem");
    assert_eq!(updated.server_addr, "10.0.0.1:6666");
    let fresh = imported_cert_config(None, TargetOs::MacOs);
    assert_eq!(fresh.server_cert_path, "config/server-cert.pem");
    assert_eq!(fresh.local_socks_addr, "127.0.0.1:7777");
    assert_eq!(fresh.tun.device_name, "utun233");
}

#[test]
fn runtime_directory_candidates() {
    assert_eq!(runtime_dir_levels(5, false), vec![0, 1, 2]);
    assert_eq!(runtime_dir_levels(5, true), vec![0, 1, 2, 3, 4]);
    assert_eq!(runtime_dir_levels(3, true), vec![0, 1, 2, 3]);
    assert_eq!(runtime_dir_levels(1, true), vec![0, 1]);
    assert_eq!(runtime_dir_levels(0, false), vec![0]);
    assert_eq!(pick_runtime_dir(&vec![(0, false), (1, true), (2, true)]), 1);
    assert_eq!(pick_runtime_dir(&vec![(0, false), (1, false), (2, false)]), 0);
    assert_eq!(pick_runtime_dir(&vec![(0, false), (3, true)]), 3);
}

#[test]
fn repair_verdicts() {
    match repair_outcome(TargetOs::Windows, true, true, "C:/rt/bin/px-tun-helper.exe", true, "C:/rt/bin/wintun.dll") {
        Ok(r) => {
            assert_eq!(r.helper_path, "bin/px-tun-helper.exe");
            assert_eq!(r.wintun_path.as_deref(), Some("bin/wintun.dll"));
            assert_eq!(r.message, "TUN helper 已修复到当前运行目录的 bin/。");
        },
        Err(e) => panic!("{}", e),
    }
    match repair_outcome(TargetOs::Windows, true, true, "h", false, "C:/rt/bin/wintun.dll") {
        Err(e) => assert_eq!(e, "修复完成后仍未找到 wintun.dll: C:/rt/bin/wintun.dll"),
        Ok(_) => panic!("missing wintun accepted"),
    }
    match repair_outcome(TargetOs::MacOs, true, false, "/rt/bin/px-tun-helper", false, "") {
        Err(e) => assert_eq!(e, "修复完成后仍未找到 helper: /rt/bin/px-tun-helper"),
        Ok(_) => panic!("missing helper accepted"),
    }
    match repair_outcome(TargetOs::Other, false, true, "h", true, "w") {
        Err(e) => assert_eq!(e, "修复 helper 失败，请检查脚本权限、Go 构建环境或下载源可达性。"),
        Ok(_) => panic!("failed script accepted"),
    }
    match repair_outcome(TargetOs::MacOs, true, true, "h", false, "w") {
        Ok(r) => assert!(r.wintun_path.is_none()),
        Err(e) => panic!("{}", e),
    }
    assert_eq!(repair_script_error(TargetOs::Other, "x"), "x");
    assert!(repair_script_error(TargetOs::MacOs, "x").starts_with("x macOS 正式发布包默认已自带 px-tun-helper"));
    assert_eq!(
        script_not_found_message("repair-tun-helper.ps1"),
        "未找到 repair-tun-helper.ps1，请确认当前运行目录是发布目录，或在开发环境从 apps/tauri-ui 启动 GUI。"
    );
}

#[test]
fn privileged_launch_results() {
    assert_eq!(launched_pid(Ok(" 88 ".to_string()), None), Ok(88));
    assert_eq!(launched_pid(Ok("x".to_string()), Some(5)), Err("提权 helper 返回了无效 pid: x".to_string()));
    assert_eq!(launched_pid(Err("denied".to_string()), Some(5)), Ok(5));
    assert_eq!(launched_pid(Err("denied".to_string()), None), Err("denied".to_string()));
    assert_eq!(check_launched_alive(true), Ok(()));
    assert_eq!(check_launched_alive(false), Err("TUN helper 提权启动失败，请查看最近日志。".to_string()));
}
