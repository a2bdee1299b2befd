//! Verified core of a personal TCP proxy: the private tunnel protocol, the
//! SOCKS5 front end, address text, and the decisions of the client runtime
//! and its control panel.

pub mod bytes;
pub mod proto;
pub mod socks5;
pub mod text;
pub mod net;
pub mod runtime;
pub mod config;
pub mod logbuf;
pub mod panel;
pub mod tools;
pub mod net_laws;
pub mod panel_state;
pub mod pem;
pub mod route_laws;
