//! The WireGuard protocol core.

// Anti-Replay algorithm.
pub mod anti_replay;
// The state of an interface, and what it does with packets and ticks.
pub mod controller;
// Cookie reply messages generation and parsing.
pub mod cookie;
// Handshake messages generation and parsing.
pub mod handshake;
// IP packet parsing.
pub mod ip;
// The Noise primitives.
pub mod noise;
// Per-peer state.
pub mod peer;
// Allowed-IP routing.
pub mod routing;
// Transport session management and transport message generation/parsing.
pub mod transport;
// Common types.
pub mod types;

pub use self::anti_replay::AntiReplay;
pub use self::controller::{Datagram, Dropped, Reaction, Tick, WgState};
pub use self::cookie::{cookie_reply, cookie_sign, process_cookie_reply, Cookie};
pub use self::handshake::{initiate, process_initiation, process_response, responde, Timestamp};
pub use self::ip::{parse_ip_packet, IpHeader};
pub use self::noise::HS;
pub use self::peer::PeerState;
pub use self::transport::{Transport, TransportError};
pub use self::types::{
    Endpoint, Id, IpAddress, PeerInfo, WgInfo, KEEPALIVE_TIMEOUT, REJECT_AFTER_MESSAGES,
    REJECT_AFTER_TIME, REKEY_AFTER_MESSAGES, REKEY_AFTER_TIME, REKEY_ATTEMPT_TIME, REKEY_TIMEOUT,
};
