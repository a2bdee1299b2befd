//! The control panel's state transitions: what it reports about the client
//! runtime and the TUN helper, what it keeps of them, and how it judges the
//! answers of a connectivity probe. The panel performs each action and
//! hands the outcome back as plain values.

use vstd::prelude::*;

use crate::config::{
    default_client_config, default_device_name, default_helper_path, default_tun_ipv4,
    ClientConfig, TargetOs,
};
use crate::panel::{
    concat_str, decimal_string, fails_with, helper_relative, helper_relative_path, parse_helper_pid,
    pid_value, TunHelperKind,
};
use crate::proto::{ConnectResponse, StatusCode};
use crate::text::dec_text;

verus! {

/// What the panel shows for the client runtime or the TUN helper.
pub struct StatusReport {
    pub running: bool,
    pub pid: Option<u32>,
    pub message: String,
}

pub open spec fn reports(r: StatusReport, running: bool, pid: Option<u32>, m: Seq<char>) -> bool {
    r.running == running && r.pid == pid && r.message@ == m
}

fn report(running: bool, pid: Option<u32>, message: &str) -> (r: StatusReport)
    ensures
        reports(r, running, pid, message@),
{
    StatusReport { running, pid, message: String::from_str(message) }
}

/// What a status poll of the client runtime found.
pub enum RuntimeSlot {
    /// No runtime was started.
    Empty,
    /// A runtime was started: whether its SOCKS5 listener has finished, and
    /// whether it has an ingress listener and that listener has finished.
    Started { primary_finished: bool, ingress: Option<bool> },
}

/// The outcome of a status poll of the client runtime.
pub struct RuntimePoll {
    pub report: StatusReport,
    /// The runtime stays recorded.
    pub keep_runtime: bool,
    /// The ingress listener stays recorded.
    pub keep_ingress: bool,
    /// A line for the "runtime" log.
    pub log: Option<String>,
}

/// A finished SOCKS5 listener ends the runtime; a finished ingress listener
/// is dropped with a log line while the runtime goes on.
pub fn poll_runtime(slot: RuntimeSlot) -> (r: RuntimePoll)
    ensures
        slot is Empty ==> reports(r.report, false, None, "客户端未启动"@) && !r.keep_runtime
            && !r.keep_ingress && r.log is None,
        slot matches RuntimeSlot::Started { primary_finished, ingress } ==> if primary_finished {
            reports(r.report, false, None, "客户端已退出，请查看最近日志。"@) && !r.keep_runtime
                && !r.keep_ingress && r.log is None
        } else {
            &&& reports(r.report, true, None, "客户端运行中"@)
            &&& r.keep_runtime
            &&& r.keep_ingress == (ingress == Some(false))
            &&& if ingress == Some(true) {
                (r.log matches Some(l) && l@ == "预留 ingress listener 已退出，当前仍保留 SOCKS5 主路径。"@)
            } else {
                r.log is None
            }
        },
{
    match slot {
        RuntimeSlot::Empty => RuntimePoll {
            report: report(false, None, "客户端未启动"),
            keep_runtime: false,
            keep_ingress: false,
            log: None,
        },
        RuntimeSlot::Started { primary_finished, ingress } => {
            if primary_finished {
                RuntimePoll {
                    report: report(false, None, "客户端已退出，请查看最近日志。"),
                    keep_runtime: false,
                    keep_ingress: false,
                    log: None,
                }
            } else {
                let (keep_ingress, log) = match ingress {
                    Some(true) => (
                        false,
                        Some(String::from_str("预留 ingress listener 已退出，当前仍保留 SOCKS5 主路径。")),
                    ),
                    Some(false) => (true, None),
                    None => (false, None),
                };
                RuntimePoll {
                    report: report(true, None, "客户端运行中"),
                    keep_runtime: true,
                    keep_ingress,
                    log,
                }
            }
        },
    }
}

/// What a status poll of the TUN helper found: the helper's pid, whether it
/// is still running, and whether the panel started it itself (rather than
/// through the privileged macOS launcher).
pub struct TunProbe {
    pub pid: u32,
    pub alive: bool,
    pub local: bool,
}

/// The outcome of a status poll of the TUN helper.
pub struct TunPoll {
    pub report: StatusReport,
    /// The helper stays recorded.
    pub keep: bool,
    /// The routes the panel installed are to be removed.
    pub cleanup_routes: bool,
}

/// A helper that has exited is forgotten; the panel removes the routes of
/// one it started itself.
pub fn poll_tun(probe: Option<TunProbe>) -> (r: TunPoll)
    ensures
        probe is None ==> reports(r.report, false, None, "TUN 未启动"@) && !r.keep
            && !r.cleanup_routes,
        probe matches Some(p) ==> if p.alive {
            reports(r.report, true, Some(p.pid), "TUN 已运行"@) && r.keep && !r.cleanup_routes
        } else {
            reports(r.report, false, Some(p.pid), "TUN helper 已退出，请查看最近日志。"@) && !r.keep
                && r.cleanup_routes == p.local
        },
{
    match probe {
        None => TunPoll { report: report(false, None, "TUN 未启动"), keep: false, cleanup_routes: false },
        Some(p) => {
            if p.alive {
                TunPoll { report: report(true, Some(p.pid), "TUN 已运行"), keep: true, cleanup_routes: false }
            } else {
                TunPoll {
                    report: report(false, Some(p.pid), "TUN helper 已退出，请查看最近日志。"),
                    keep: false,
                    cleanup_routes: p.local,
                }
            }
        },
    }
}

/// How a request to start the client ended: it was already running (before
/// the start, or another start won the race), or this start recorded it.
pub fn client_start_report(already_running: bool) -> (r: StatusReport)
    ensures
        already_running ==> reports(r, true, None, "客户端已在运行"@),
        !already_running ==> reports(r, true, None, "客户端已启动"@),
{
    if already_running {
        report(true, None, "客户端已在运行")
    } else {
        report(true, None, "客户端已启动")
    }
}

/// How a request to stop the client ended.
pub fn client_stop_report(was_running: bool) -> (r: StatusReport)
    ensures
        was_running ==> reports(r, false, None, "客户端已停止"@),
        !was_running ==> reports(r, false, None, "客户端未运行"@),
{
    if was_running {
        report(false, None, "客户端已停止")
    } else {
        report(false, None, "客户端未运行")
    }
}

/// How a request to start TUN mode ended: a helper was already recorded
/// (with its pid, if the panel knows it), or this start recorded one.
pub fn tun_start_report(already_running: bool, pid: Option<u32>) -> (r: StatusReport)
    ensures
        already_running ==> reports(r, true, pid, "TUN 已在运行"@),
        !already_running ==> reports(r, true, pid, "TUN 已启动"@),
{
    if already_running {
        report(true, pid, "TUN 已在运行")
    } else {
        report(true, pid, "TUN 已启动")
    }
}

/// How a request to stop TUN mode ended: the pid of the helper it stopped,
/// or none when no helper was running.
pub fn tun_stop_report(stopped: Option<u32>) -> (r: StatusReport)
    ensures
        stopped is Some ==> reports(r, false, stopped, "TUN 已停止"@),
        stopped is None ==> reports(r, false, None, "TUN 未运行"@),
{
    match stopped {
        Some(pid) => report(false, Some(pid), "TUN 已停止"),
        None => report(false, None, "TUN 未运行"),
    }
}

/// The helper may only be replaced while TUN mode is off.
pub fn check_repair_allowed(tun_running: bool) -> (r: Result<(), String>)
    ensures
        tun_running ==> fails_with(r, "TUN 正在运行，请先停止 TUN，再更新 helper。"@),
        !tun_running ==> r is Ok,
{
    if tun_running {
        Err(String::from_str("TUN 正在运行，请先停止 TUN，再更新 helper。"))
    } else {
        Ok(())
    }
}

/// px-tun-helper forwards through the client's ingress listener, which must
/// be recorded and still running; the other helpers need none.
/// `ingress` is `None` without a recorded listener, else whether it has
/// finished.
pub fn check_tun_ingress(kind: TunHelperKind, ingress: Option<bool>) -> (r: Result<(), String>)
    ensures
        kind != TunHelperKind::PxTunHelper || ingress == Some(false) <==> r is Ok,
        r is Err ==> fails_with(
            r,
            "px-tun-helper 需要本地预留 ingress listener，但当前 ingress 未启动，请先重启客户端。"@,
        ),
{
    match kind {
        TunHelperKind::PxTunHelper => match ingress {
            Some(false) => Ok(()),
            _ => Err(String::from_str("px-tun-helper 需要本地预留 ingress listener，但当前 ingress 未启动，请先重启客户端。")),
        },
        _ => Ok(()),
    }
}

/// The connectivity probe's verdict on the proxy's two answers: the method
/// selection must be exactly 05 00, and the reply code (the second byte of
/// the connect reply) must be 0.
pub fn connectivity_verdict(auth: &[u8; 2], reply: &[u8; 10]) -> (r: Result<String, String>)
    ensures
        !(auth@[0] == 5 && auth@[1] == 0) ==> fails_with(r, "SOCKS5 鉴权协商失败"@),
        auth@[0] == 5 && auth@[1] == 0 && reply@[1] != 0 ==> fails_with(
            r,
            "代理链路失败，SOCKS5 返回码 "@ + dec_text(reply@[1] as nat),
        ),
        auth@[0] == 5 && auth@[1] == 0 && reply@[1] == 0 ==> (r matches Ok(m) && m@
            == "代理链路正常，已通过本地 SOCKS5 成功连通 example.com:80。"@),
{
    if !(auth[0] == 5 && auth[1] == 0) {
        return Err(String::from_str("SOCKS5 鉴权协商失败"));
    }
    if reply[1] != 0 {
        let code = decimal_string(reply[1] as u64);
        return Err(concat_str("代理链路失败，SOCKS5 返回码 ", code.as_str()));
    }
    Ok(String::from_str("代理链路正常，已通过本地 SOCKS5 成功连通 example.com:80。"))
}

/// The name `Debug` gives each status code.
pub open spec fn status_name(s: StatusCode) -> Seq<char> {
    match s {
        StatusCode::Success => "Ok"@,
        StatusCode::BadRequest => "BadRequest"@,
        StatusCode::TlsAuthFailed => "TlsAuthFailed"@,
        StatusCode::TargetConnectFailed => "TargetConnectFailed"@,
        StatusCode::Timeout => "Timeout"@,
        StatusCode::InternalError => "InternalError"@,
    }
}

pub fn status_debug_name(s: StatusCode) -> (r: &'static str)
    ensures
        r@ == status_name(s),
{
    match s {
        StatusCode::Success => "Ok",
        StatusCode::BadRequest => "BadRequest",
        StatusCode::TlsAuthFailed => "TlsAuthFailed",
        StatusCode::TargetConnectFailed => "TargetConnectFailed",
        StatusCode::Timeout => "Timeout",
        StatusCode::InternalError => "InternalError",
    }
}

/// The ingress probe's verdict on the ingress listener's response to a
/// request for `host:port`.
pub fn ingress_probe_verdict(response: &ConnectResponse, host: &str, port: u16) -> (r: Result<(), String>)
    ensures
        response.status == StatusCode::Success <==> r is Ok,
        response.status != StatusCode::Success ==> fails_with(
            r,
            "ingress 返回状态 "@ + status_name(response.status) + "，reason="@ + dec_text(
                response.reason as nat,
            ) + ", target="@ + host@ + ":"@ + dec_text(port as nat),
        ),
{
    match response.status {
        StatusCode::Success => Ok(()),
        _ => {
            let a = concat_str("ingress 返回状态 ", status_debug_name(response.status));
            let b = concat_str(a.as_str(), "，reason=");
            let reason = decimal_string(response.reason as u64);
            let c = concat_str(b.as_str(), reason.as_str());
            let d = concat_str(c.as_str(), ", target=");
            let e = concat_str(d.as_str(), host);
            let f = concat_str(e.as_str(), ":");
            let p = decimal_string(port as u64);
            Err(concat_str(f.as_str(), p.as_str()))
        },
    }
}

/// The configuration after a certificate import: the one read from disk, or
/// the default one when none exists, pointing at the imported certificate.
pub fn imported_cert_config(existing: Option<ClientConfig>, os: TargetOs) -> (r: ClientConfig)
    ensures
        r.server_cert_path@ == "config/server-cert.pem"@,
        existing matches Some(c) ==> r == (ClientConfig {
            server_cert_path: r.server_cert_path,
            ..c
        }),
        existing is None ==> {
            let d = r;
            &&& d.server_addr@ == "127.0.0.1:6666"@
            &&& d.local_socks_addr@ == "127.0.0.1:7777"@
            &&& d.connect_timeout_ms == 5000
            &&& d.log_level@ == "info"@
            &&& !d.tun.enabled
            &&& d.tun.helper_path@ == default_helper_path(os)
            &&& d.tun.device_name@ == default_device_name(os)
            &&& d.tun.primary_interface@ == Seq::<char>::empty()
            &&& d.tun.ipv4_addr@ == default_tun_ipv4(os)
            &&& d.tun.mtu == 1500
        },
{
    let config = match existing {
        Some(c) => c,
        None => default_client_config(os),
    };
    ClientConfig { server_cert_path: String::from_str("config/server-cert.pem"), ..config }
}

/// The directories that may hold a release's runtime files, as how many
/// levels each lies above the executable's directory: that directory, its
/// parent and grandparent; on macOS, when the executable lies in an app
/// bundle's `MacOS` directory, also the directory that holds the bundle and
/// that one's parent. `depth` is how many ancestors the executable's
/// directory has.
pub open spec fn runtime_dir_levels_spec(depth: nat, bundle: bool) -> Seq<usize> {
    let near = if depth >= 2 {
        seq![0usize, 1, 2]
    } else if depth == 1 {
        seq![0usize, 1]
    } else {
        seq![0usize]
    };
    let far = if !bundle || depth < 3 {
        Seq::<usize>::empty()
    } else if depth == 3 {
        seq![3usize]
    } else {
        seq![3usize, 4]
    };
    near + far
}

/// `bundle` holds when the build is for macOS and the executable's directory
/// is named `MacOS`.
pub fn runtime_dir_levels(depth: usize, bundle: bool) -> (r: Vec<usize>)
    ensures
        r@ == runtime_dir_levels_spec(depth as nat, bundle),
{
    let mut r: Vec<usize> = Vec::new();
    r.push(0);
    if depth >= 1 {
        r.push(1);
    }
    if depth >= 2 {
        r.push(2);
    }
    if bundle && depth >= 3 {
        r.push(3);
        if depth >= 4 {
            r.push(4);
        }
    }
    assert(r@ =~= runtime_dir_levels_spec(depth as nat, bundle));
    r
}

/// The first candidate that holds a `config`, `bin` or `scripts` directory,
/// else the executable's own directory (level 0). Each candidate is its
/// level and whether it holds one of those directories.
pub fn pick_runtime_dir(candidates: &Vec<(usize, bool)>) -> (r: usize)
    ensures
        (exists|i: int| 0 <= i < candidates@.len() && candidates@[i].1) ==> exists|i: int|
            0 <= i < candidates@.len() && candidates@[i].1 && r == candidates@[i].0 && forall|j: int|
                0 <= j < i ==> !candidates@[j].1,
        (forall|i: int| 0 <= i < candidates@.len() ==> !candidates@[i].1) ==> r == 0,
{
    let mut i: usize = 0;
    while i < candidates.len()
        invariant
            i <= candidates@.len(),
            forall|j: int| 0 <= j < i ==> !candidates@[j].1,
        decreases candidates@.len() - i,
    {
        let (level, marked) = candidates[i];
        if marked {
            return level;
        }
        i = i + 1;
    }
    0
}

/// What the panel reports after repairing the TUN helper.
pub struct RepairReport {
    pub helper_path: String,
    pub wintun_path: Option<String>,
    pub message: String,
}

/// The verdict on a repair run: the script must succeed and leave the
/// helper (and on Windows wintun.dll) in `bin/`. The displays are the paths
/// that were checked.
pub fn repair_outcome(
    os: TargetOs,
    script_succeeded: bool,
    helper_exists: bool,
    helper_display: &str,
    wintun_exists: bool,
    wintun_display: &str,
) -> (r: Result<RepairReport, String>)
    ensures
        !script_succeeded && os == TargetOs::MacOs ==> fails_with(
            r,
            "macOS helper 构建或补齐失败。开发环境请执行 scripts/install-dev-px-tun-helper.sh；正式发布包若缺失 helper，请重新解压发布包。"@,
        ),
        !script_succeeded && os != TargetOs::MacOs ==> fails_with(
            r,
            "修复 helper 失败，请检查脚本权限、Go 构建环境或下载源可达性。"@,
        ),
        script_succeeded && !helper_exists ==> fails_with(
            r,
            "修复完成后仍未找到 helper: "@ + helper_display@,
        ),
        script_succeeded && helper_exists && os == TargetOs::Windows && !wintun_exists
            ==> fails_with(r, "修复完成后仍未找到 wintun.dll: "@ + wintun_display@),
        script_succeeded && helper_exists && (os != TargetOs::Windows || wintun_exists) ==> (r
            matches Ok(rep) && {
            &&& rep.helper_path@ == helper_relative(os)
            &&& rep.message@ == "TUN helper 已修复到当前运行目录的 bin/。"@
            &&& if os == TargetOs::Windows {
                rep.wintun_path matches Some(w) && w@ == "bin/wintun.dll"@
            } else {
                rep.wintun_path is None
            }
        }),
{
    if !script_succeeded {
        if os == TargetOs::MacOs {
            return Err(String::from_str("macOS helper 构建或补齐失败。开发环境请执行 scripts/install-dev-px-tun-helper.sh；正式发布包若缺失 helper，请重新解压发布包。"));
        }
        return Err(String::from_str("修复 helper 失败，请检查脚本权限、Go 构建环境或下载源可达性。"));
    }
    if !helper_exists {
        return Err(concat_str("修复完成后仍未找到 helper: ", helper_display));
    }
    let wintun_path = if os == TargetOs::Windows {
        if !wintun_exists {
            return Err(concat_str("修复完成后仍未找到 wintun.dll: ", wintun_display));
        }
        Some(String::from_str("bin/wintun.dll"))
    } else {
        None
    };
    Ok(RepairReport {
        helper_path: String::from_str(helper_relative_path(os)),
        wintun_path,
        message: String::from_str("TUN helper 已修复到当前运行目录的 bin/。"),
    })
}

/// The error when no repair script can be used: on macOS it adds that a
/// release already carries the helper.
pub fn repair_script_error(os: TargetOs, error: &str) -> (r: String)
    ensures
        os == TargetOs::MacOs ==> r@ == error@
            + " macOS 正式发布包默认已自带 px-tun-helper；若当前缺失，请重新解压发布包。"@,
        os != TargetOs::MacOs ==> r@ == error@,
{
    if os == TargetOs::MacOs {
        concat_str(error, " macOS 正式发布包默认已自带 px-tun-helper；若当前缺失，请重新解压发布包。")
    } else {
        String::from_str(error)
    }
}

/// The error when the named script is in none of the runtime directory's
/// ancestors' `scripts/`.
pub fn script_not_found_message(script_name: &str) -> (r: String)
    ensures
        r@ == "未找到 "@ + script_name@ + "，请确认当前运行目录是发布目录，或在开发环境从 apps/tauri-ui 启动 GUI。"@,
{
    let a = concat_str("未找到 ", script_name);
    concat_str(a.as_str(), "，请确认当前运行目录是发布目录，或在开发环境从 apps/tauri-ui 启动 GUI。")
}

/// The pid of a helper started through the privileged launcher: the one it
/// printed; when the launcher failed, the one a running helper wrote to its
/// pid file, else the launcher's error.
pub fn launched_pid(output: Result<String, String>, recovered: Option<u32>) -> (r: Result<u32, String>)
    ensures
        output matches Err(e) ==> match recovered {
            Some(p) => r == Ok::<u32, String>(p),
            None => r == Err::<u32, String>(e),
        },
        output matches Ok(text) ==> match pid_value(text@) {
            Some(p) => r == Ok::<u32, String>(p),
            None => fails_with(r, "提权 helper 返回了无效 pid: "@ + text@),
        },
{
    match output {
        Err(e) => match recovered {
            Some(p) => Ok(p),
            None => Err(e),
        },
        Ok(text) => parse_helper_pid(text.as_str()),
    }
}

/// A launched helper must still be running a moment later.
pub fn check_launched_alive(running: bool) -> (r: Result<(), String>)
    ensures
        running ==> r is Ok,
        !running ==> fails_with(r, "TUN helper 提权启动失败，请查看最近日志。"@),
{
    if running {
        Ok(())
    } else {
        Err(String::from_str("TUN helper 提权启动失败，请查看最近日志。"))
    }
}

} // verus!
