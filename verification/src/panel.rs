//! Decisions of the desktop control panel: which helper runs TUN mode and
//! with which arguments, which routes it installs, how start-up problems are
//! reported, and how the output of system tools is read.

use vstd::prelude::*;

use crate::config::{ClientConfig, TargetOs, TunConfig};
use crate::net::{
    ip_text, parse_socket, read_socket_addr, socket_addr_to_string, socket_text, ip_to_string,
    SocketAddr, SocketView,
};
use crate::runtime::string_texts;
use crate::text::{
    all_digits, chars_of, contains_text, dec_text, digit_of, is_digit, push_chars, push_decimal,
    push_str_chars, str_contains, str_eq, string_of, trim, trim_chars, trim_str,
};

verus! {

/// Log level names the TUN helpers understand.
pub open spec fn tun_log_level(value: Seq<char>) -> Seq<char> {
    if value == "error"@ {
        "error"@
    } else if value == "warn"@ {
        "warn"@
    } else if value == "debug"@ || value == "trace"@ {
        "debug"@
    } else {
        "info"@
    }
}

pub fn map_tun_log_level(value: &str) -> (r: &'static str)
    ensures
        r@ == tun_log_level(value@),
{
    if str_eq(value, "error") {
        "error"
    } else if str_eq(value, "warn") {
        "warn"
    } else if str_eq(value, "debug") {
        "debug"
    } else if str_eq(value, "trace") {
        "debug"
    } else {
        "info"
    }
}

/// "utun" followed by one or more ASCII digits.
pub open spec fn explicit_utun_name(name: Seq<char>) -> bool {
    &&& name.len() > 4
    &&& name.take(4) == "utun"@
    &&& all_digits(name.skip(4))
}

pub fn is_explicit_utun_name(device_name: &str) -> (r: bool)
    ensures
        r == explicit_utun_name(device_name@),
{
    let cs = chars_of(device_name);
    let prefix = chars_of("utun");
    proof {
        reveal_strlit("utun");
    }
    if cs.len() <= 4 {
        return false;
    }
    let mut i: usize = 0;
    while i < 4
        invariant
            i <= 4,
            cs@ == device_name@,
            cs@.len() > 4,
            prefix@ == "utun"@,
            prefix@.len() == 4,
            forall|j: int| 0 <= j < i ==> cs@[j] == prefix@[j],
        decreases 4 - i,
    {
        if cs[i] != prefix[i] {
            assert(cs@.take(4)[i as int] != "utun"@[i as int]);
            return false;
        }
        i = i + 1;
    }
    assert(cs@.take(4) =~= "utun"@);
    let mut k: usize = 4;
    while k < cs.len()
        invariant
            4 <= k <= cs@.len(),
            cs@ == device_name@,
            forall|j: int| 0 <= j < k - 4 ==> is_digit(#[trigger] cs@.skip(4)[j]),
        decreases cs@.len() - k,
    {
        if digit_of(cs[k]).is_none() {
            assert(!is_digit(cs@.skip(4)[k - 4]));
            return false;
        }
        k = k + 1;
    }
    true
}

/// The helper binary each platform's release ships, relative to the runtime
/// directory.
pub open spec fn helper_relative(os: TargetOs) -> Seq<char> {
    match os {
        TargetOs::Windows => "bin/px-tun-helper.exe"@,
        TargetOs::MacOs => "bin/px-tun-helper"@,
        TargetOs::Other => "bin/tun2socks"@,
    }
}

pub fn helper_relative_path(os: TargetOs) -> (r: &'static str)
    ensures
        r@ == helper_relative(os),
{
    match os {
        TargetOs::Windows => "bin/px-tun-helper.exe",
        TargetOs::MacOs => "bin/px-tun-helper",
        TargetOs::Other => "bin/tun2socks",
    }
}

pub fn dns_helper_relative_path(os: TargetOs) -> (r: &'static str)
    ensures
        os == TargetOs::Windows ==> r@ == "bin/px-dns-helper.exe"@,
        os != TargetOs::Windows ==> r@ == "bin/px-dns-helper"@,
{
    match os {
        TargetOs::Windows => "bin/px-dns-helper.exe",
        _ => "bin/px-dns-helper",
    }
}

/// Which kind of TUN helper a binary is.
#[derive(Clone, Copy, Debug, PartialEq, Eq, Structural)]
pub enum TunHelperKind {
    /// A generic tun2socks that speaks SOCKS5.
    Tun2Socks,
    /// The project's own helper that speaks the ingress protocol.
    PxTunHelper,
}

/// The kind is decided by the binary's file name.
pub open spec fn helper_kind(file_name: Option<Seq<char>>) -> TunHelperKind {
    match file_name {
        Some(n) => if n == "px-tun-helper"@ || n == "px-tun-helper.exe"@ {
            TunHelperKind::PxTunHelper
        } else {
            TunHelperKind::Tun2Socks
        },
        None => TunHelperKind::Tun2Socks,
    }
}

pub fn detect_tun_helper_kind(file_name: Option<&str>) -> (r: TunHelperKind)
    ensures
        r == helper_kind(
            match file_name {
                Some(n) => Some(n@),
                None => None,
            },
        ),
{
    match file_name {
        Some(n) => {
            if str_eq(n, "px-tun-helper") || str_eq(n, "px-tun-helper.exe") {
                TunHelperKind::PxTunHelper
            } else {
                TunHelperKind::Tun2Socks
            }
        },
        None => TunHelperKind::Tun2Socks,
    }
}

/// "device=…, interface=…, ipv4=…, mtu=…".
pub open spec fn tun_summary(tun: TunConfig) -> Seq<char> {
    "device="@ + tun.device_name@ + ", interface="@ + tun.primary_interface@ + ", ipv4="@
        + tun.ipv4_addr@ + ", mtu="@ + dec_text(tun.mtu as nat)
}

pub fn format_tun_summary(tun: &TunConfig) -> (r: String)
    ensures
        r@ == tun_summary(*tun),
{
    let mut out: Vec<char> = Vec::new();
    push_str_chars(&mut out, "device=");
    push_str_chars(&mut out, tun.device_name.as_str());
    push_str_chars(&mut out, ", interface=");
    push_str_chars(&mut out, tun.primary_interface.as_str());
    push_str_chars(&mut out, ", ipv4=");
    push_str_chars(&mut out, tun.ipv4_addr.as_str());
    push_str_chars(&mut out, ", mtu=");
    push_decimal(&mut out, tun.mtu as u64);
    assert(out@ =~= tun_summary(*tun));
    string_of(out.as_slice())
}

/// Where local applications reach the proxy.
pub struct LocalProxyEndpoint {
    pub addr: String,
    /// The address as a tun2socks `-proxy` argument.
    pub helper_proxy_arg: String,
    /// The address as shown in the log.
    pub display: String,
}

pub fn current_local_proxy_endpoint(config: &ClientConfig) -> (r: LocalProxyEndpoint)
    ensures
        r.addr@ == config.local_socks_addr@,
        r.helper_proxy_arg@ == "socks5://"@ + config.local_socks_addr@,
        r.display@ == r.helper_proxy_arg@,
{
    let addr = config.local_socks_addr.clone();
    let mut out: Vec<char> = Vec::new();
    push_str_chars(&mut out, "socks5://");
    push_str_chars(&mut out, addr.as_str());
    let helper_proxy_arg = string_of(out.as_slice());
    let display = string_of(out.as_slice());
    LocalProxyEndpoint { addr, display, helper_proxy_arg }
}

/// The ingress listener sits on the port after the SOCKS5 one, on the same
/// address; if that address cannot be read or its port is the last one,
/// on 127.0.0.1:7778.
pub open spec fn ingress_addr_text(local_socks_addr: Seq<char>) -> Seq<char> {
    match parse_socket(local_socks_addr) {
        Some(a) => if a.port < 0xffff {
            socket_text(SocketView { ip: a.ip, port: (a.port + 1) as u16, scope_id: 0 })
        } else {
            "127.0.0.1:7778"@
        },
        None => "127.0.0.1:7778"@,
    }
}

pub fn suggested_ingress_bind_addr(config: &ClientConfig) -> (r: String)
    ensures
        r@ == ingress_addr_text(config.local_socks_addr@),
{
    match read_socket_addr(config.local_socks_addr.as_str()) {
        Some(a) => {
            if a.port < 0xffff {
                let next = SocketAddr { ip: a.ip, port: a.port + 1, scope_id: 0 };
                socket_addr_to_string(&next)
            } else {
                String::from_str("127.0.0.1:7778")
            }
        },
        None => String::from_str("127.0.0.1:7778"),
    }
}

/// The message shown when the runtime cannot start, from the error's text.
pub open spec fn start_error_message(text: Seq<char>, addr: Seq<char>) -> Seq<char> {
    if contains_text(text, "Address already in use"@) || contains_text(text, "failed to bind"@) {
        "本地 SOCKS5 端口已被占用，请更换 "@ + addr + " 或先停止占用该端口的程序。"@
    } else if contains_text(text, "Permission denied"@) {
        "没有权限监听本地地址 "@ + addr + "。"@
    } else if contains_text(text, "server_addr must be IP:port"@) {
        "服务端地址格式错误，请填写 IP:端口。"@
    } else {
        "启动客户端失败: "@ + text
    }
}

pub fn translate_start_error_text(text: &str, addr: &str) -> (r: String)
    ensures
        r@ == start_error_message(text@, addr@),
{
    let mut out: Vec<char> = Vec::new();
    if str_contains(text, "Address already in use") || str_contains(text, "failed to bind") {
        push_str_chars(&mut out, "本地 SOCKS5 端口已被占用，请更换 ");
        push_str_chars(&mut out, addr);
        push_str_chars(&mut out, " 或先停止占用该端口的程序。");
    } else if str_contains(text, "Permission denied") {
        push_str_chars(&mut out, "没有权限监听本地地址 ");
        push_str_chars(&mut out, addr);
        push_str_chars(&mut out, "。");
    } else if str_contains(text, "server_addr must be IP:port") {
        push_str_chars(&mut out, "服务端地址格式错误，请填写 IP:端口。");
    } else {
        push_str_chars(&mut out, "启动客户端失败: ");
        push_str_chars(&mut out, text);
    }
    assert(out@ =~= start_error_message(text@, addr@));
    string_of(out.as_slice())
}

/// The kinds of I/O error the control panel tells apart.
#[derive(Clone, Copy, Debug, PartialEq, Eq, Structural)]
pub enum IoErrorKind {
    ConnectionRefused,
    TimedOut,
    NotFound,
    Other,
}

/// The message shown when the local SOCKS5 port cannot be reached.
pub open spec fn socks_connect_message(kind: IoErrorKind, error: Seq<char>, addr: Seq<char>) -> Seq<
    char,
> {
    match kind {
        IoErrorKind::ConnectionRefused => "本地 SOCKS5 未监听 "@ + addr + "，请先启动客户端。"@,
        IoErrorKind::TimedOut => "连接本地 SOCKS5 超时: "@ + addr + "。"@,
        IoErrorKind::NotFound => "未找到本地 SOCKS5 地址。"@,
        IoErrorKind::Other => "连接本地 SOCKS5 失败 "@ + addr + ": "@ + error,
    }
}

pub fn translate_socks_connect_error(kind: IoErrorKind, error: &str, addr: &str) -> (r: String)
    ensures
        r@ == socks_connect_message(kind, error@, addr@),
{
    let mut out: Vec<char> = Vec::new();
    match kind {
        IoErrorKind::ConnectionRefused => {
            push_str_chars(&mut out, "本地 SOCKS5 未监听 ");
            push_str_chars(&mut out, addr);
            push_str_chars(&mut out, "，请先启动客户端。");
        },
        IoErrorKind::TimedOut => {
            push_str_chars(&mut out, "连接本地 SOCKS5 超时: ");
            push_str_chars(&mut out, addr);
            push_str_chars(&mut out, "。");
        },
        IoErrorKind::NotFound => {
            push_str_chars(&mut out, "未找到本地 SOCKS5 地址。");
        },
        IoErrorKind::Other => {
            push_str_chars(&mut out, "连接本地 SOCKS5 失败 ");
            push_str_chars(&mut out, addr);
            push_str_chars(&mut out, ": ");
            push_str_chars(&mut out, error);
        },
    }
    assert(out@ =~= socks_connect_message(kind, error@, addr@));
    string_of(out.as_slice())
}


/// `r` failed with message `m`.
pub open spec fn fails_with<T>(r: Result<T, String>, m: Seq<char>) -> bool {
    r matches Err(e) && e@ == m
}

/// `a` followed by `b`.
pub fn concat_str(a: &str, b: &str) -> (r: String)
    ensures
        r@ == a@ + b@,
{
    let mut out: Vec<char> = Vec::new();
    push_str_chars(&mut out, a);
    push_str_chars(&mut out, b);
    string_of(out.as_slice())
}

/// The decimal text of `n`.
pub fn decimal_string(n: u64) -> (r: String)
    ensures
        r@ == dec_text(n as nat),
{
    let mut out: Vec<char> = Vec::new();
    push_decimal(&mut out, n);
    assert(out@ =~= dec_text(n as nat));
    string_of(out.as_slice())
}

/// What became of reading `config/client.toml`.
pub enum ConfigLoad {
    Missing,
    Unreadable,
    Loaded(ClientConfig),
}

/// The checks before the client starts: a configuration was read, it names
/// a server, and the server certificate exists; the configuration then
/// carries the certificate's resolved path.
pub fn validate_client_start(load: ConfigLoad, resolved_cert_path: String, cert_exists: bool) -> (r:
    Result<ClientConfig, String>)
    ensures
        load is Missing ==> fails_with(r, "当前运行目录下缺少 config/client.toml，请先在界面保存配置。"@),
        load is Unreadable ==> fails_with(r, "读取客户端配置失败，请重新保存配置。"@),
        load matches ConfigLoad::Loaded(c) ==> {
            if trim(c.server_addr@).len() == 0 {
                fails_with(r, "服务端地址为空，请先填写服务端地址。"@)
            } else if !cert_exists {
                fails_with(r, "未找到服务端证书，请先点击“导入证书”或检查证书路径。"@)
            } else {
                (r matches Ok(d) && d == (ClientConfig { server_cert_path: resolved_cert_path, ..c }))
            }
        },
{
    match load {
        ConfigLoad::Missing => Err(String::from_str("当前运行目录下缺少 config/client.toml，请先在界面保存配置。")),
        ConfigLoad::Unreadable => Err(String::from_str("读取客户端配置失败，请重新保存配置。")),
        ConfigLoad::Loaded(config) => {
            let trimmed = trim_str(config.server_addr.as_str());
            if trimmed.len() == 0 {
                return Err(String::from_str("服务端地址为空，请先填写服务端地址。"));
            }
            if !cert_exists {
                return Err(String::from_str("未找到服务端证书，请先点击“导入证书”或检查证书路径。"));
            }
            Ok(ClientConfig { server_cert_path: resolved_cert_path, ..config })
        },
    }
}

/// What the routes for TUN mode are built from.
pub struct TunRoutePlan {
    pub device_name: String,
    pub tun_ipv4: String,
    pub primary_interface: String,
    pub primary_gateway: String,
    pub server_ip: String,
}

pub open spec fn tun_disabled_message() -> Seq<char> {
    "TUN 未启用，请先勾选“启用 TUN 全局 TCP”。"@
}

pub open spec fn helper_missing_message(helper_path: Seq<char>) -> Seq<char> {
    "未找到 TUN helper: "@ + helper_path + "。请先点击“修复 helper”，或把 helper 放到当前运行目录的 bin/ 中。"@
}

pub open spec fn wintun_missing_message(wintun_path: Seq<char>) -> Seq<char> {
    "未找到 wintun.dll: "@ + wintun_path + "。请先点击“修复 helper”，或把官方 wintun.dll 放到当前运行目录的 bin/ 中。"@
}

pub open spec fn bad_server_addr_message() -> Seq<char> {
    "服务端地址格式错误，请填写 IP:端口。"@
}

/// What the file system said about the helper, and on Windows about
/// wintun.dll next to it.
pub struct HelperFiles {
    pub helper_path: String,
    pub helper_exists: bool,
    pub wintun_path: String,
    pub wintun_exists: bool,
}

/// The checks of TUN mode before the default route is looked up: TUN is
/// enabled, the helper exists, on Windows wintun.dll exists, and the server
/// address reads as a socket address, which is returned.
pub fn check_tun_prerequisites(
    config: &ClientConfig,
    files: &HelperFiles,
    os: TargetOs,
) -> (r: Result<SocketAddr, String>)
    ensures
        !config.tun.enabled ==> fails_with(r, tun_disabled_message()),
        config.tun.enabled && !files.helper_exists ==> fails_with(r, helper_missing_message(files.helper_path@)),
        config.tun.enabled && files.helper_exists && os == TargetOs::Windows
            && !files.wintun_exists ==> fails_with(r, wintun_missing_message(
            files.wintun_path@,
        )),
        config.tun.enabled && files.helper_exists && (os != TargetOs::Windows
            || files.wintun_exists) ==> match parse_socket(config.server_addr@) {
            Some(a) => r matches Ok(s) && s@ == a,
            None => fails_with(r, bad_server_addr_message()),
        },
{
    if !config.tun.enabled {
        return Err(String::from_str("TUN 未启用，请先勾选“启用 TUN 全局 TCP”。"));
    }
    if !files.helper_exists {
        let mut out: Vec<char> = Vec::new();
        push_str_chars(&mut out, "未找到 TUN helper: ");
        push_str_chars(&mut out, files.helper_path.as_str());
        push_str_chars(&mut out, "。请先点击“修复 helper”，或把 helper 放到当前运行目录的 bin/ 中。");
        assert(out@ =~= helper_missing_message(files.helper_path@));
        return Err(string_of(out.as_slice()));
    }
    if os == TargetOs::Windows && !files.wintun_exists {
        let mut out: Vec<char> = Vec::new();
        push_str_chars(&mut out, "未找到 wintun.dll: ");
        push_str_chars(&mut out, files.wintun_path.as_str());
        push_str_chars(&mut out, "。请先点击“修复 helper”，或把官方 wintun.dll 放到当前运行目录的 bin/ 中。");
        assert(out@ =~= wintun_missing_message(files.wintun_path@));
        return Err(string_of(out.as_slice()));
    }
    match read_socket_addr(config.server_addr.as_str()) {
        Some(a) => Ok(a),
        None => Err(String::from_str("服务端地址格式错误，请填写 IP:端口。")),
    }
}

pub open spec fn utun_required_message() -> Seq<char> {
    "px-tun-helper 当前要求显式 utun 设备名，例如 utun233，避免真实设备与路由清理错位。"@
}

/// The route plan once the default route is known: the configured primary
/// interface (trimmed) or else the default route's; on macOS our own helper
/// needs an explicit utun device name.
pub fn plan_tun_routes(
    config: &ClientConfig,
    server: &SocketAddr,
    default_interface: String,
    default_gateway: String,
    kind: TunHelperKind,
    os: TargetOs,
) -> (r: Result<TunRoutePlan, String>)
    ensures
        (kind == TunHelperKind::PxTunHelper && os == TargetOs::MacOs && !explicit_utun_name(
            config.tun.device_name@,
        )) ==> fails_with(r, utun_required_message()),
        !(kind == TunHelperKind::PxTunHelper && os == TargetOs::MacOs && !explicit_utun_name(
            config.tun.device_name@,
        )) ==> (r matches Ok(p) && {
            &&& p.device_name@ == trim(config.tun.device_name@)
            &&& p.tun_ipv4@ == trim(config.tun.ipv4_addr@)
            &&& p.primary_interface@ == (if trim(config.tun.primary_interface@).len() == 0 {
                default_interface@
            } else {
                trim(config.tun.primary_interface@)
            })
            &&& p.primary_gateway == default_gateway
            &&& p.server_ip@ == ip_text(server.ip@)
        }),
{
    let configured = trim_str(config.tun.primary_interface.as_str());
    let primary_interface = if configured.len() == 0 {
        default_interface
    } else {
        string_of(configured.as_slice())
    };
    if kind == TunHelperKind::PxTunHelper && os == TargetOs::MacOs && !is_explicit_utun_name(
        config.tun.device_name.as_str(),
    ) {
        return Err(String::from_str("px-tun-helper 当前要求显式 utun 设备名，例如 utun233，避免真实设备与路由清理错位。"));
    }
    let device = trim_str(config.tun.device_name.as_str());
    let ipv4 = trim_str(config.tun.ipv4_addr.as_str());
    Ok(
        TunRoutePlan {
            device_name: string_of(device.as_slice()),
            tun_ipv4: string_of(ipv4.as_slice()),
            primary_interface,
            primary_gateway: default_gateway,
            server_ip: ip_to_string(&server.ip),
        },
    )
}

/// The last value given for `key` on a line of `route -n get default`
/// output: the trimmed rest of the last trimmed line that starts with it.
pub open spec fn route_field(lines: Seq<Seq<char>>, key: Seq<char>) -> Seq<char>
    decreases lines.len(),
{
    if lines.len() == 0 {
        Seq::empty()
    } else {
        let t = trim(lines.last());
        if t.len() >= key.len() && t.take(key.len() as int) == key {
            trim(t.skip(key.len() as int))
        } else {
            route_field(lines.drop_last(), key)
        }
    }
}

pub open spec fn route_parse_failed_message() -> Seq<char> {
    "解析系统默认路由失败。"@
}

/// The default route's interface and gateway from `route -n get default`
/// output; both must be present.
pub open spec fn macos_default_route(text: Seq<char>) -> Result<(Seq<char>, Seq<char>), Seq<char>> {
    let lines = crate::text::split(text, '\n');
    let interface = route_field(lines, "interface:"@);
    let gateway = route_field(lines, "gateway:"@);
    if interface.len() == 0 || gateway.len() == 0 {
        Err(route_parse_failed_message())
    } else {
        Ok((interface, gateway))
    }
}

/// `text` starts with `key`.
fn starts_with(text: &[char], key: &[char]) -> (r: bool)
    ensures
        r == (text@.len() >= key@.len() && text@.take(key@.len() as int) == key@),
{
    if text.len() < key.len() {
        return false;
    }
    let mut i: usize = 0;
    while i < key.len()
        invariant
            i <= key@.len() <= text@.len(),
            forall|j: int| 0 <= j < i ==> text@[j] == key@[j],
        decreases key@.len() - i,
    {
        if text[i] != key[i] {
            assert(text@.take(key@.len() as int)[i as int] != key@[i as int]);
            return false;
        }
        i = i + 1;
    }
    assert(text@.take(key@.len() as int) =~= key@);
    true
}

fn route_field_of(lines: &Vec<Vec<char>>, key: &[char]) -> (r: Vec<char>)
    ensures
        r@ == route_field(crate::text::texts(lines@), key@),
{
    let ghost t = crate::text::texts(lines@);
    let mut i: usize = lines.len();
    assert(t.subrange(0, i as int) =~= t);
    while i > 0
        invariant
            i <= lines@.len(),
            t == crate::text::texts(lines@),
            route_field(t, key@) == route_field(t.subrange(0, i as int), key@),
        decreases i,
    {
        let ghost pre = t.subrange(0, i as int);
        assert(pre.drop_last() =~= t.subrange(0, i - 1));
        assert(pre.last() == lines@[i - 1]@);
        let line = trim_chars(lines[i - 1].as_slice());
        if starts_with(line.as_slice(), key) {
            let rest = crate::text::tail_from(line.as_slice(), key.len());
            assert(rest@ =~= line@.skip(key@.len() as int));
            return trim_chars(rest.as_slice());
        }
        i = i - 1;
    }
    assert(route_field(t.subrange(0, 0), key@) == Seq::<char>::empty());
    Vec::new()
}

/// Reads the interface and gateway of the default route from the output of
/// `route -n get default`.
pub fn parse_macos_default_route(text: &str) -> (r: Result<(String, String), String>)
    ensures
        match r {
            Ok((i, g)) => macos_default_route(text@) == Ok::<(Seq<char>, Seq<char>), Seq<char>>(
                (i@, g@),
            ),
            Err(m) => macos_default_route(text@) == Err::<(Seq<char>, Seq<char>), Seq<char>>(
                m@,
            ),
        },
{
    let cs = chars_of(text);
    let lines = crate::text::split_chars(cs.as_slice(), '\n');
    let ikey = chars_of("interface:");
    let gkey = chars_of("gateway:");
    let interface = route_field_of(&lines, ikey.as_slice());
    let gateway = route_field_of(&lines, gkey.as_slice());
    if interface.len() == 0 || gateway.len() == 0 {
        return Err(String::from_str("解析系统默认路由失败。"));
    }
    Ok((string_of(interface.as_slice()), string_of(gateway.as_slice())))
}

/// The default route Windows reports must name an interface and a next hop.
pub fn check_windows_default_route(interface_alias: String, next_hop: String) -> (r: Result<
    (String, String),
    String,
>)
    ensures
        (trim(interface_alias@).len() == 0 || trim(next_hop@).len() == 0) ==> fails_with(r, route_parse_failed_message()),
        !(trim(interface_alias@).len() == 0 || trim(next_hop@).len() == 0) ==> r == Ok::<
            (String, String),
            String,
        >((interface_alias, next_hop)),
{
    let a = trim_str(interface_alias.as_str());
    let b = trim_str(next_hop.as_str());
    if a.len() == 0 || b.len() == 0 {
        return Err(String::from_str("解析系统默认路由失败。"));
    }
    Ok((interface_alias, next_hop))
}


/// A program to run with its arguments.
pub struct CommandSpec {
    pub program: String,
    pub args: Vec<String>,
}

#[verifier::ext_equal]
pub struct CommandView {
    pub program: Seq<char>,
    pub args: Seq<Seq<char>>,
}

impl View for CommandSpec {
    type V = CommandView;

    open spec fn view(&self) -> CommandView {
        CommandView { program: self.program@, args: string_texts(self.args@) }
    }
}

pub open spec fn command_views(v: Seq<CommandSpec>) -> Seq<CommandView> {
    Seq::new(v.len(), |i: int| v[i]@)
}

pub open spec fn cmd(program: Seq<char>, args: Seq<Seq<char>>) -> CommandView {
    CommandView { program, args }
}

fn command(program: &str, args: Vec<String>) -> (r: CommandSpec)
    ensures
        r@ == cmd(program@, string_texts(args@)),
{
    CommandSpec { program: String::from_str(program), args }
}

fn text_of(s: &str) -> (r: String)
    ensures
        r@ == s@,
{
    String::from_str(s)
}

/// The networks sent through the TUN device on macOS: all of IPv4 but
/// 0.0.0.0/8 (in halves of decreasing size) and the benchmark range.
pub open spec fn macos_routes() -> Seq<Seq<char>> {
    seq![
        "1.0.0.0/8"@,
        "2.0.0.0/7"@,
        "4.0.0.0/6"@,
        "8.0.0.0/5"@,
        "16.0.0.0/4"@,
        "32.0.0.0/3"@,
        "64.0.0.0/2"@,
        "128.0.0.0/1"@,
        "198.18.0.0/15"@,
    ]
}

pub fn macos_tun_routes() -> (r: Vec<String>)
    ensures
        string_texts(r@) == macos_routes(),
        r@.len() == 9,
{
    let r = vec![
        text_of("1.0.0.0/8"),
        text_of("2.0.0.0/7"),
        text_of("4.0.0.0/6"),
        text_of("8.0.0.0/5"),
        text_of("16.0.0.0/4"),
        text_of("32.0.0.0/3"),
        text_of("64.0.0.0/2"),
        text_of("128.0.0.0/1"),
        text_of("198.18.0.0/15"),
    ];
    assert(string_texts(r@) =~= macos_routes());
    r
}

pub open spec fn unsupported_platform_message() -> Seq<char> {
    "当前平台暂未接入 TUN。"@
}

/// The commands that install TUN routing: the server keeps the real
/// gateway, everything else goes to the TUN device.
pub open spec fn route_setup_commands(p: TunRoutePlan, os: TargetOs) -> Option<Seq<CommandView>> {
    match os {
        TargetOs::MacOs => Some(
            seq![
                cmd("ifconfig"@, seq![p.device_name@, p.tun_ipv4@, p.tun_ipv4@, "up"@]),
                cmd("route"@, seq!["-n"@, "add"@, "-host"@, p.server_ip@, p.primary_gateway@]),
            ] + Seq::new(
                9,
                |i: int| cmd("route"@, seq!["-n"@, "add"@, "-net"@, macos_routes()[i], p.tun_ipv4@]),
            ),
        ),
        TargetOs::Windows => Some(
            seq![
                cmd(
                    "netsh"@,
                    seq![
                        "interface"@,
                        "ipv4"@,
                        "set"@,
                        "address"@,
                        "name="@ + p.device_name@,
                        "source=static"@,
                        "addr="@ + p.tun_ipv4@,
                        "mask=255.255.255.0"@,
                    ],
                ),
                cmd(
                    "route"@,
                    seq!["ADD"@, p.server_ip@, "MASK"@, "255.255.255.255"@, p.primary_gateway@],
                ),
                cmd(
                    "netsh"@,
                    seq![
                        "interface"@,
                        "ipv4"@,
                        "add"@,
                        "route"@,
                        "0.0.0.0/0"@,
                        p.device_name@,
                        p.tun_ipv4@,
                        "metric=1"@,
                    ],
                ),
            ],
        ),
        TargetOs::Other => None,
    }
}

/// The commands that remove what `route_setup_commands` installed.
pub open spec fn route_cleanup_commands(p: TunRoutePlan, os: TargetOs) -> Option<Seq<CommandView>> {
    match os {
        TargetOs::MacOs => Some(
            seq![cmd("route"@, seq!["-n"@, "delete"@, "-host"@, p.server_ip@, p.primary_gateway@])]
                + Seq::new(
                9,
                |i: int|
                    cmd("route"@, seq!["-n"@, "delete"@, "-net"@, macos_routes()[i], p.tun_ipv4@]),
            ) + seq![cmd("ifconfig"@, seq![p.device_name@, "down"@])],
        ),
        TargetOs::Windows => Some(
            seq![
                cmd(
                    "netsh"@,
                    seq![
                        "interface"@,
                        "ipv4"@,
                        "delete"@,
                        "route"@,
                        "0.0.0.0/0"@,
                        p.device_name@,
                        p.tun_ipv4@,
                    ],
                ),
                cmd(
                    "route"@,
                    seq!["DELETE"@, p.server_ip@, "MASK"@, "255.255.255.255"@, p.primary_gateway@],
                ),
            ],
        ),
        TargetOs::Other => None,
    }
}

fn route_net_command(verb: &str, net: &String, tun_ipv4: &String) -> (r: CommandSpec)
    ensures
        r@ == cmd("route"@, seq!["-n"@, verb@, "-net"@, net@, tun_ipv4@]),
{
    let args = vec![text_of("-n"), text_of(verb), text_of("-net"), net.clone(), tun_ipv4.clone()];
    assert(string_texts(args@) =~= seq!["-n"@, verb@, "-net"@, net@, tun_ipv4@]);
    command("route", args)
}

/// The commands to run, in order, to install TUN routing.
pub fn tun_route_setup_commands(p: &TunRoutePlan, os: TargetOs) -> (r: Result<Vec<CommandSpec>, String>)
    ensures
        match route_setup_commands(*p, os) {
            Some(c) => r matches Ok(v) && command_views(v@) == c,
            None => fails_with(r, unsupported_platform_message()),
        },
{
    match os {
        TargetOs::MacOs => {
            let mut out: Vec<CommandSpec> = Vec::new();
            let a1 = vec![p.device_name.clone(), p.tun_ipv4.clone(), p.tun_ipv4.clone(), text_of("up")];
            assert(string_texts(a1@) =~= seq![p.device_name@, p.tun_ipv4@, p.tun_ipv4@, "up"@]);
            out.push(command("ifconfig", a1));
            let a2 = vec![
                text_of("-n"),
                text_of("add"),
                text_of("-host"),
                p.server_ip.clone(),
                p.primary_gateway.clone(),
            ];
            assert(string_texts(a2@) =~= seq![
                "-n"@,
                "add"@,
                "-host"@,
                p.server_ip@,
                p.primary_gateway@,
            ]);
            out.push(command("route", a2));
            let nets = macos_tun_routes();
            let ghost spec_cmds = route_setup_commands(*p, os).unwrap();
            let mut i: usize = 0;
            while i < nets.len()
                invariant
                    i <= nets@.len(),
                    nets@.len() == 9,
                    string_texts(nets@) == macos_routes(),
                    spec_cmds == route_setup_commands(*p, os).unwrap(),
                    os == TargetOs::MacOs,
                    command_views(out@) == spec_cmds.subrange(0, i + 2),
                decreases nets@.len() - i,
            {
                assert(nets@[i as int]@ == macos_routes()[i as int]);
                let c = route_net_command("add", &nets[i], &p.tun_ipv4);
                let ghost before = command_views(out@);
                assert(spec_cmds[i + 2] == cmd(
                    "route"@,
                    seq!["-n"@, "add"@, "-net"@, macos_routes()[i as int], p.tun_ipv4@],
                ));
                assert(c@ =~~= spec_cmds[i + 2]);
                out.push(c);
                assert(command_views(out@) =~~= before.push(c@));
                i = i + 1;
                assert(command_views(out@) =~~= spec_cmds.subrange(0, i + 2));
            }
            assert(spec_cmds.subrange(0, 11) =~~= spec_cmds);
            Ok(out)
        },
        TargetOs::Windows => {
            let a1 = vec![
                text_of("interface"),
                text_of("ipv4"),
                text_of("set"),
                text_of("address"),
                concat_str("name=", p.device_name.as_str()),
                text_of("source=static"),
                concat_str("addr=", p.tun_ipv4.as_str()),
                text_of("mask=255.255.255.0"),
            ];
            let a2 = vec![
                text_of("ADD"),
                p.server_ip.clone(),
                text_of("MASK"),
                text_of("255.255.255.255"),
                p.primary_gateway.clone(),
            ];
            let a3 = vec![
                text_of("interface"),
                text_of("ipv4"),
                text_of("add"),
                text_of("route"),
                text_of("0.0.0.0/0"),
                p.device_name.clone(),
                p.tun_ipv4.clone(),
                text_of("metric=1"),
            ];
            let c1 = command("netsh", a1);
            let c2 = command("route", a2);
            let c3 = command("netsh", a3);
            let out = vec![c1, c2, c3];
            assert(command_views(out@) =~~= route_setup_commands(*p, os).unwrap());
            Ok(out)
        },
        TargetOs::Other => Err(text_of("当前平台暂未接入 TUN。")),
    }
}

/// The commands to run, in order and each whatever the others did, to
/// remove TUN routing.
pub fn tun_route_cleanup_commands(p: &TunRoutePlan, os: TargetOs) -> (r: Result<Vec<CommandSpec>, String>)
    ensures
        match route_cleanup_commands(*p, os) {
            Some(c) => r matches Ok(v) && command_views(v@) == c,
            None => fails_with(r, unsupported_platform_message()),
        },
{
    match os {
        TargetOs::MacOs => {
            let mut out: Vec<CommandSpec> = Vec::new();
            let a1 = vec![
                text_of("-n"),
                text_of("delete"),
                text_of("-host"),
                p.server_ip.clone(),
                p.primary_gateway.clone(),
            ];
            assert(string_texts(a1@) =~= seq![
                "-n"@,
                "delete"@,
                "-host"@,
                p.server_ip@,
                p.primary_gateway@,
            ]);
            out.push(command("route", a1));
            let nets = macos_tun_routes();
            let ghost spec_cmds = route_cleanup_commands(*p, os).unwrap();
            let mut i: usize = 0;
            assert(command_views(out@) =~~= spec_cmds.subrange(0, 1));
            while i < nets.len()
                invariant
                    i <= nets@.len(),
                    nets@.len() == 9,
                    string_texts(nets@) == macos_routes(),
                    spec_cmds == route_cleanup_commands(*p, os).unwrap(),
                    os == TargetOs::MacOs,
                    command_views(out@) == spec_cmds.subrange(0, i + 1),
                decreases nets@.len() - i,
            {
                assert(nets@[i as int]@ == macos_routes()[i as int]);
                let c = route_net_command("delete", &nets[i], &p.tun_ipv4);
                let ghost before = command_views(out@);
                assert(spec_cmds[i + 1] == cmd(
                    "route"@,
                    seq!["-n"@, "delete"@, "-net"@, macos_routes()[i as int], p.tun_ipv4@],
                ));
                assert(c@ =~~= spec_cmds[i + 1]);
                out.push(c);
                assert(command_views(out@) =~~= before.push(c@));
                i = i + 1;
                assert(command_views(out@) =~~= spec_cmds.subrange(0, i + 1));
            }
            let a3 = vec![p.device_name.clone(), text_of("down")];
            assert(string_texts(a3@) =~= seq![p.device_name@, "down"@]);
            let ghost before = command_views(out@);
            let c = command("ifconfig", a3);
            assert(c@ =~~= spec_cmds[10]);
            out.push(c);
            assert(command_views(out@) =~~= before.push(c@));
            assert(spec_cmds.subrange(0, 10).push(spec_cmds[10]) =~~= spec_cmds);
            assert(command_views(out@) =~~= spec_cmds);
            Ok(out)
        },
        TargetOs::Windows => {
            let a1 = vec![
                text_of("interface"),
                text_of("ipv4"),
                text_of("delete"),
                text_of("route"),
                text_of("0.0.0.0/0"),
                p.device_name.clone(),
                p.tun_ipv4.clone(),
            ];
            let a2 = vec![
                text_of("DELETE"),
                p.server_ip.clone(),
                text_of("MASK"),
                text_of("255.255.255.255"),
                p.primary_gateway.clone(),
            ];
            let out = vec![command("netsh", a1), command("route", a2)];
            assert(command_views(out@) =~~= route_cleanup_commands(*p, os).unwrap());
            Ok(out)
        },
        TargetOs::Other => Err(text_of("当前平台暂未接入 TUN。")),
    }
}

/// Clean-up deletes every route that set-up adds, with the same destination
/// and gateway. On macOS: the host route to the server and each network sent
/// to the TUN address, after which the device is taken down. On Windows: the
/// default route through the TUN device and the server's host route.
pub proof fn lemma_cleanup_undoes_setup(p: TunRoutePlan)
    ensures
        ({
            let s = route_setup_commands(p, TargetOs::MacOs).unwrap();
            let c = route_cleanup_commands(p, TargetOs::MacOs).unwrap();
            &&& s.len() == 11 && c.len() == 11
            &&& forall|i: int|
                #![trigger s[i]]
                1 <= i < 11 ==> s[i].program == "route"@ && c[i - 1].program == "route"@
                    && s[i].args[1] == "add"@ && c[i - 1].args == s[i].args.update(1, "delete"@)
            &&& c[10] == cmd("ifconfig"@, seq![p.device_name@, "down"@])
        }),
        ({
            let s = route_setup_commands(p, TargetOs::Windows).unwrap();
            let c = route_cleanup_commands(p, TargetOs::Windows).unwrap();
            &&& s.len() == 3 && c.len() == 2
            &&& s[2].program == c[0].program
            &&& s[2].args[2] == "add"@ && s[2].args.last() == "metric=1"@
            &&& c[0].args == s[2].args.update(2, "delete"@).drop_last()
            &&& s[1].program == c[1].program
            &&& s[1].args[0] == "ADD"@ && c[1].args == s[1].args.update(0, "DELETE"@)
        }),
{
    let s = route_setup_commands(p, TargetOs::MacOs).unwrap();
    let c = route_cleanup_commands(p, TargetOs::MacOs).unwrap();
    assert forall|i: int|
        #![trigger s[i]]
        1 <= i < 11 implies s[i].program == "route"@ && c[i - 1].program == "route"@
            && s[i].args[1] == "add"@ && c[i - 1].args == s[i].args.update(1, "delete"@) by {
        if i == 1 {
            assert(c[0].args =~= s[1].args.update(1, "delete"@));
        } else {
            assert(s[i] == cmd(
                "route"@,
                seq!["-n"@, "add"@, "-net"@, macos_routes()[i - 2], p.tun_ipv4@],
            ));
            assert(c[i - 1] == cmd(
                "route"@,
                seq!["-n"@, "delete"@, "-net"@, macos_routes()[i - 2], p.tun_ipv4@],
            ));
            assert(c[i - 1].args =~= s[i].args.update(1, "delete"@));
        }
    }
    let ws = route_setup_commands(p, TargetOs::Windows).unwrap();
    let wc = route_cleanup_commands(p, TargetOs::Windows).unwrap();
    assert(wc[0].args =~= ws[2].args.update(2, "delete"@).drop_last());
    assert(wc[1].args =~= ws[1].args.update(0, "DELETE"@));
}

/// The log line after TUN routing is installed.
pub fn routes_applied_message(p: &TunRoutePlan) -> (r: String)
    ensures
        r@ == "TUN 路由已生效: server="@ + p.server_ip@ + " 走 "@ + p.primary_interface@
            + "，其余 TCP 走 "@ + p.device_name@,
{
    let mut out: Vec<char> = Vec::new();
    push_str_chars(&mut out, "TUN 路由已生效: server=");
    push_str_chars(&mut out, p.server_ip.as_str());
    push_str_chars(&mut out, " 走 ");
    push_str_chars(&mut out, p.primary_interface.as_str());
    push_str_chars(&mut out, "，其余 TCP 走 ");
    push_str_chars(&mut out, p.device_name.as_str());
    string_of(out.as_slice())
}


/// Where the helper sends connections, as shown in the log.
pub open spec fn helper_target_display(kind: TunHelperKind, c: ClientConfig) -> Seq<char> {
    match kind {
        TunHelperKind::PxTunHelper => "ingress://"@ + ingress_addr_text(c.local_socks_addr@),
        TunHelperKind::Tun2Socks => "socks5://"@ + c.local_socks_addr@,
    }
}

/// The arguments a locally started helper gets.
pub open spec fn local_helper_args(kind: TunHelperKind, c: ClientConfig, primary_interface: Seq<
    char,
>) -> Seq<Seq<char>> {
    match kind {
        TunHelperKind::PxTunHelper => seq![
            "-device"@,
            c.tun.device_name@,
            "-tun-ipv4"@,
            c.tun.ipv4_addr@,
            "-ingress"@,
            ingress_addr_text(c.local_socks_addr@),
            "-primary-interface"@,
            primary_interface,
            "-mtu"@,
            dec_text(c.tun.mtu as nat),
            "-connect-timeout-ms"@,
            dec_text(c.connect_timeout_ms as nat),
            "-log-level"@,
            tun_log_level(c.log_level@),
        ],
        TunHelperKind::Tun2Socks => seq![
            "-device"@,
            c.tun.device_name@,
            "-proxy"@,
            "socks5://"@ + c.local_socks_addr@,
            "-interface"@,
            primary_interface,
            "-mtu"@,
            dec_text(c.tun.mtu as nat),
            "-loglevel"@,
            tun_log_level(c.log_level@),
        ],
    }
}

/// The arguments and the log display for a helper started by the panel.
pub fn local_helper_invocation(kind: TunHelperKind, config: &ClientConfig, primary_interface: &str) -> (r: (
    Vec<String>,
    String,
))
    ensures
        string_texts(r.0@) == local_helper_args(kind, *config, primary_interface@),
        r.1@ == helper_target_display(kind, *config),
{
    let level = text_of(map_tun_log_level(config.log_level.as_str()));
    match kind {
        TunHelperKind::PxTunHelper => {
            let ingress = suggested_ingress_bind_addr(config);
            let args = vec![
                text_of("-device"),
                config.tun.device_name.clone(),
                text_of("-tun-ipv4"),
                config.tun.ipv4_addr.clone(),
                text_of("-ingress"),
                ingress.clone(),
                text_of("-primary-interface"),
                text_of(primary_interface),
                text_of("-mtu"),
                decimal_string(config.tun.mtu as u64),
                text_of("-connect-timeout-ms"),
                decimal_string(config.connect_timeout_ms),
                text_of("-log-level"),
                level,
            ];
            assert(string_texts(args@) =~= local_helper_args(kind, *config, primary_interface@));
            (args, concat_str("ingress://", ingress.as_str()))
        },
        TunHelperKind::Tun2Socks => {
            let proxy = current_local_proxy_endpoint(config);
            let args = vec![
                text_of("-device"),
                config.tun.device_name.clone(),
                text_of("-proxy"),
                proxy.helper_proxy_arg,
                text_of("-interface"),
                text_of(primary_interface),
                text_of("-mtu"),
                decimal_string(config.tun.mtu as u64),
                text_of("-loglevel"),
                level,
            ];
            assert(string_texts(args@) =~= local_helper_args(kind, *config, primary_interface@));
            (args, proxy.display)
        },
    }
}

/// Paths handed to the privileged start script, as text.
pub struct PrivilegedPaths {
    pub script: String,
    pub helper: String,
    pub dns_helper: String,
    pub log: String,
    pub pid: String,
}

/// The command line of the privileged start script on macOS.
pub open spec fn privileged_start_args(
    kind: TunHelperKind,
    c: ClientConfig,
    p: TunRoutePlan,
    paths: PrivilegedPaths,
) -> Seq<Seq<char>> {
    seq![
        "/bin/bash"@,
        paths.script@,
        "start"@,
        paths.helper@,
        paths.dns_helper@,
        match kind {
            TunHelperKind::PxTunHelper => "ingress"@,
            TunHelperKind::Tun2Socks => "socks5"@,
        },
        match kind {
            TunHelperKind::PxTunHelper => ingress_addr_text(c.local_socks_addr@),
            TunHelperKind::Tun2Socks => c.local_socks_addr@,
        },
        c.tun.device_name@,
        p.primary_interface@,
        dec_text(c.tun.mtu as nat),
        tun_log_level(c.log_level@),
        p.tun_ipv4@,
        p.primary_gateway@,
        p.server_ip@,
        paths.log@,
        paths.pid@,
    ]
}

pub fn privileged_start_command(
    kind: TunHelperKind,
    config: &ClientConfig,
    plan: &TunRoutePlan,
    paths: &PrivilegedPaths,
) -> (r: Vec<String>)
    ensures
        string_texts(r@) == privileged_start_args(kind, *config, *plan, *paths),
{
    let (mode, addr) = match kind {
        TunHelperKind::PxTunHelper => (text_of("ingress"), suggested_ingress_bind_addr(config)),
        TunHelperKind::Tun2Socks => (text_of("socks5"), config.local_socks_addr.clone()),
    };
    let args = vec![
        text_of("/bin/bash"),
        paths.script.clone(),
        text_of("start"),
        paths.helper.clone(),
        paths.dns_helper.clone(),
        mode,
        addr,
        config.tun.device_name.clone(),
        plan.primary_interface.clone(),
        decimal_string(config.tun.mtu as u64),
        text_of(map_tun_log_level(config.log_level.as_str())),
        plan.tun_ipv4.clone(),
        plan.primary_gateway.clone(),
        plan.server_ip.clone(),
        paths.log.clone(),
        paths.pid.clone(),
    ];
    assert(string_texts(args@) =~= privileged_start_args(kind, *config, *plan, *paths));
    args
}

/// The command line of the privileged stop script on macOS.
pub fn privileged_stop_command(script: &str, plan: &TunRoutePlan, pid_path: &str, pid: u32) -> (r:
    Vec<String>)
    ensures
        string_texts(r@) == seq![
            "bash"@,
            script@,
            "stop"@,
            plan.device_name@,
            plan.tun_ipv4@,
            plan.primary_gateway@,
            plan.server_ip@,
            pid_path@,
            dec_text(pid as nat),
        ],
{
    let args = vec![
        text_of("bash"),
        text_of(script),
        text_of("stop"),
        plan.device_name.clone(),
        plan.tun_ipv4.clone(),
        plan.primary_gateway.clone(),
        plan.server_ip.clone(),
        text_of(pid_path),
        decimal_string(pid as u64),
    ];
    assert(string_texts(args@) =~= seq![
        "bash"@,
        script@,
        "stop"@,
        plan.device_name@,
        plan.tun_ipv4@,
        plan.primary_gateway@,
        plan.server_ip@,
        pid_path@,
        dec_text(pid as nat),
    ]);
    args
}

/// How the result of the administrator-privileged script reads: its trimmed
/// output on success; otherwise the trimmed error output (or, if that is
/// empty, the trimmed output) decides the message.
pub open spec fn privileged_outcome(success: bool, stdout: Seq<char>, stderr: Seq<char>) -> Result<
    Seq<char>,
    Seq<char>,
> {
    if success {
        Ok(trim(stdout))
    } else {
        let m = if trim(stderr).len() > 0 {
            trim(stderr)
        } else {
            trim(stdout)
        };
        if contains_text(m, "User canceled"@) {
            Err("已取消管理员授权，TUN 未启动。"@)
        } else if m.len() == 0 {
            Err("管理员权限脚本执行失败。"@)
        } else {
            Err("管理员权限脚本执行失败: "@ + m)
        }
    }
}

pub fn interpret_privileged_output(success: bool, stdout: &str, stderr: &str) -> (r: Result<
    String,
    String,
>)
    ensures
        match r {
            Ok(o) => privileged_outcome(success, stdout@, stderr@) == Ok::<Seq<char>, Seq<char>>(
                o@,
            ),
            Err(e) => privileged_outcome(success, stdout@, stderr@) == Err::<
                Seq<char>,
                Seq<char>,
            >(e@),
        },
{
    let out = trim_str(stdout);
    if success {
        return Ok(string_of(out.as_slice()));
    }
    let err = trim_str(stderr);
    let m = if err.len() > 0 {
        err
    } else {
        out
    };
    let needle = chars_of("User canceled");
    if crate::text::contains_chars(m.as_slice(), needle.as_slice()) {
        return Err(text_of("已取消管理员授权，TUN 未启动。"));
    }
    if m.len() == 0 {
        return Err(text_of("管理员权限脚本执行失败。"));
    }
    let mut msg: Vec<char> = Vec::new();
    push_str_chars(&mut msg, "管理员权限脚本执行失败: ");
    push_chars(&mut msg, m.as_slice());
    Err(string_of(msg.as_slice()))
}

/// A process id as `str::parse::<u32>` reads trimmed text.
pub open spec fn pid_value(text: Seq<char>) -> Option<u32> {
    match crate::text::std_unsigned_value(trim(text), 0xffff_ffff) {
        Some(v) => Some(v as u32),
        None => None,
    }
}

fn read_pid(text: &str) -> (r: Option<u32>)
    ensures
        r == pid_value(text@),
{
    let t = trim_str(text);
    match crate::text::parse_unsigned(t.as_slice(), 0xffff_ffff) {
        Some(v) => Some(v as u32),
        None => None,
    }
}

/// The pid the privileged script printed.
pub fn parse_helper_pid(output: &str) -> (r: Result<u32, String>)
    ensures
        match pid_value(output@) {
            Some(p) => r == Ok::<u32, String>(p),
            None => fails_with(r, "提权 helper 返回了无效 pid: "@ + output@),
        },
{
    match read_pid(output) {
        Some(p) => Ok(p),
        None => Err(concat_str("提权 helper 返回了无效 pid: ", output)),
    }
}

/// The pid recorded in the helper's pid file.
pub fn parse_pid_file(text: &str, path_display: &str) -> (r: Result<u32, String>)
    ensures
        match pid_value(text@) {
            Some(p) => r == Ok::<u32, String>(p),
            None => fails_with(r, "无效的 TUN pid 文件: "@ + path_display@),
        },
{
    match read_pid(text) {
        Some(p) => Ok(p),
        None => Err(concat_str("无效的 TUN pid 文件: ", path_display)),
    }
}

/// `ps -p PID -o pid=` lists the process: it succeeded and printed something.
pub fn process_listed(success: bool, stdout: &str) -> (r: bool)
    ensures
        r == (success && trim(stdout@).len() > 0),
{
    success && trim_str(stdout).len() > 0
}

/// The script that fetches or builds the helper: on Windows the PowerShell
/// repair script, on macOS debug builds the developer install script; no
/// other platform has one.
pub fn repair_script_name(os: TargetOs, debug_build: bool) -> (r: Result<&'static str, String>)
    ensures
        os == TargetOs::Windows ==> (r matches Ok(n) && n@ == "repair-tun-helper.ps1"@),
        os == TargetOs::MacOs && debug_build ==> (r matches Ok(n) && n@
            == "install-dev-px-tun-helper.sh"@),
        os != TargetOs::Windows && !(os == TargetOs::MacOs && debug_build) ==> fails_with(
            r,
            "当前平台不再提供独立 helper 获取脚本；macOS 开发态请使用 install-dev-px-tun-helper.sh，正式发布包缺失 helper 时请重新解压发布包。"@,
        ),
{
    if os == TargetOs::Windows {
        Ok("repair-tun-helper.ps1")
    } else if os == TargetOs::MacOs && debug_build {
        Ok("install-dev-px-tun-helper.sh")
    } else {
        Err(text_of("当前平台不再提供独立 helper 获取脚本；macOS 开发态请使用 install-dev-px-tun-helper.sh，正式发布包缺失 helper 时请重新解压发布包。"))
    }
}

/// The lines of `text` as `str::lines` yields them: split at '\n', a '\r'
/// right before a '\n' dropped, no empty line after a final '\n' (and none
/// for empty text).
pub open spec fn text_lines(text: Seq<char>) -> Seq<Seq<char>> {
    let parts = crate::text::split(text, '\n');
    let n = parts.len();
    let stripped = Seq::new(
        n,
        |i: int|
            if i < n - 1 && parts[i].len() > 0 && parts[i].last() == '\r' {
                parts[i].drop_last()
            } else {
                parts[i]
            },
    );
    if parts[n - 1].len() == 0 {
        stripped.drop_last()
    } else {
        stripped
    }
}

/// The last `count` lines of `text`, in order.
pub fn last_lines(text: &str, count: usize) -> (r: Vec<String>)
    ensures
        string_texts(r@) == text_lines(text@).skip(
            if text_lines(text@).len() > count {
                text_lines(text@).len() - count
            } else {
                0
            },
        ),
{
    let cs = chars_of(text);
    let parts = crate::text::split_chars(cs.as_slice(), '\n');
    proof {
        crate::text::lemma_split_nonempty(cs@, '\n');
    }
    let ghost t = crate::text::texts(parts@);
    let ghost lines = text_lines(text@);
    let n = parts.len();
    let total = if parts[n - 1].len() == 0 {
        n - 1
    } else {
        n
    };
    assert(lines.len() == total);
    let start = if total > count {
        total - count
    } else {
        0
    };
    let mut out: Vec<String> = Vec::new();
    let mut i = start;
    while i < total
        invariant
            start <= i <= total <= n,
            n == parts@.len(),
            t == crate::text::texts(parts@),
            t == crate::text::split(text@, '\n'),
            lines == text_lines(text@),
            lines.len() == total,
            string_texts(out@) == lines.subrange(start as int, i as int),
        decreases total - i,
    {
        let part = &parts[i];
        assert(t[i as int] == part@);
        let line = if i < n - 1 && part.len() > 0 && part[part.len() - 1] == '\r' {
            crate::text::slice_chars(part.as_slice(), 0, part.len() - 1)
        } else {
            crate::text::slice_chars(part.as_slice(), 0, part.len())
        };
        assert(line@ =~= lines[i as int]);
        let ghost before = string_texts(out@);
        let ln = string_of(line.as_slice());
        out.push(ln);
        assert(string_texts(out@) =~= before.push(lines[i as int]));
        i = i + 1;
        assert(string_texts(out@) =~= lines.subrange(start as int, i as int));
    }
    assert(lines.subrange(start as int, total as int) =~= lines.skip(start as int));
    out
}

} // verus!
