//! Packets that travel through the tunnel.
pub mod ipv4;
