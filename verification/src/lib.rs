//! Sans-IO logic of a user-space IPv4 mesh VPN.
pub mod addr;
pub mod channel;
pub mod config;
pub mod coord;
pub mod custom_transport;
pub mod document;
pub mod io;
pub mod iroh;
pub mod key;
pub mod key_map;
pub mod laws;
pub mod node;
pub mod octets;
pub mod packet;
pub mod provision;
pub mod route;
pub mod text;
pub mod tun;
pub mod vpn_core;
