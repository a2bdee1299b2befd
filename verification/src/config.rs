//! Configuration of the server, the client and its TUN mode, and the
//! platform-dependent defaults.

use vstd::prelude::*;

verus! {

/// The platform the client runs on, as far as its behaviour depends on it.
#[derive(Clone, Copy, Debug, PartialEq, Eq, Structural)]
pub enum TargetOs {
    MacOs,
    Windows,
    Other,
}

#[derive(Clone, Debug)]
pub struct ServerConfig {
    pub listen_addr: String,
    pub tls_cert_path: String,
    pub tls_key_path: String,
    pub connect_timeout_ms: u64,
    pub log_level: String,
}

#[derive(Clone, Debug)]
pub struct ClientConfig {
    pub server_addr: String,
    pub server_cert_path: String,
    pub local_socks_addr: String,
    pub connect_timeout_ms: u64,
    pub log_level: String,
    pub tun: TunConfig,
}

#[derive(Clone, Debug)]
pub struct TunConfig {
    pub enabled: bool,
    pub helper_path: String,
    pub device_name: String,
    pub primary_interface: String,
    pub ipv4_addr: String,
    pub mtu: u16,
}

/// The helper shipped for each platform.
pub open spec fn default_helper_path(os: TargetOs) -> Seq<char> {
    match os {
        TargetOs::Windows => "bin/px-tun-helper.exe"@,
        TargetOs::MacOs => "bin/px-tun-helper"@,
        TargetOs::Other => "bin/tun2socks"@,
    }
}

pub open spec fn default_device_name(os: TargetOs) -> Seq<char> {
    match os {
        TargetOs::Windows => "wintun"@,
        _ => "utun233"@,
    }
}

pub open spec fn default_tun_ipv4(os: TargetOs) -> Seq<char> {
    match os {
        TargetOs::Windows => "192.168.123.1"@,
        _ => "198.18.0.1"@,
    }
}

impl TunConfig {
    /// TUN settings when the configuration file names none: disabled, the
    /// platform's helper, device and address, no fixed interface, MTU 1500.
    pub fn default_for(os: TargetOs) -> (r: TunConfig)
        ensures
            !r.enabled,
            r.helper_path@ == default_helper_path(os),
            r.device_name@ == default_device_name(os),
            r.primary_interface@ == Seq::<char>::empty(),
            r.ipv4_addr@ == default_tun_ipv4(os),
            r.mtu == 1500,
    {
        let (helper_path, device_name, ipv4_addr) = match os {
            TargetOs::Windows => (
                String::from_str("bin/px-tun-helper.exe"),
                String::from_str("wintun"),
                String::from_str("192.168.123.1"),
            ),
            TargetOs::MacOs => (
                String::from_str("bin/px-tun-helper"),
                String::from_str("utun233"),
                String::from_str("198.18.0.1"),
            ),
            TargetOs::Other => (
                String::from_str("bin/tun2socks"),
                String::from_str("utun233"),
                String::from_str("198.18.0.1"),
            ),
        };
        TunConfig {
            enabled: false,
            helper_path,
            device_name,
            primary_interface: String::new(),
            ipv4_addr,
            mtu: 1500,
        }
    }
}

/// The client configuration written when none exists yet: a local server,
/// the imported certificate, SOCKS5 on 127.0.0.1:7777, five-second timeout,
/// "info" logging and the platform's TUN defaults.
pub fn default_client_config(os: TargetOs) -> (r: ClientConfig)
    ensures
        r.server_addr@ == "127.0.0.1:6666"@,
        r.server_cert_path@ == "config/server-cert.pem"@,
        r.local_socks_addr@ == "127.0.0.1:7777"@,
        r.connect_timeout_ms == 5000,
        r.log_level@ == "info"@,
        !r.tun.enabled,
        r.tun.helper_path@ == default_helper_path(os),
        r.tun.device_name@ == default_device_name(os),
        r.tun.primary_interface@ == Seq::<char>::empty(),
        r.tun.ipv4_addr@ == default_tun_ipv4(os),
        r.tun.mtu == 1500,
{
    ClientConfig {
        server_addr: String::from_str("127.0.0.1:6666"),
        server_cert_path: String::from_str("config/server-cert.pem"),
        local_socks_addr: String::from_str("127.0.0.1:7777"),
        connect_timeout_ms: 5000,
        log_level: String::from_str("info"),
        tun: TunConfig::default_for(os),
    }
}

} // verus!
