//! A userspace WireGuard tunnel core: handshake messages, transport sessions,
//! anti-replay, allowed-IP routing and the per-peer state machine that binds them.
pub mod config;
pub mod crypto;
pub mod endian;
pub mod error;
pub mod tun;
pub mod wireguard;
