//! Elysium: a virtual LAN for games over WireGuard, as a library of its decisions.
//!
//! [`wireguard`] and [`manager`] hold the tunnels to the peers and what they let through,
//! [`packet`] and [`limiter`] what they look at. [`room`], [`session`] and [`discovery`] are
//! about who is in a room, [`engine`] about where packets go. [`config`], [`keys`] and
//! [`status`] are about this node itself; [`stun`], [`jitter_probe`], [`tunnel`] and
//! [`windows_tuning`] about the network and the machine around it. [`noise`], [`clock`] and
//! [`random`] are where other crates and the clock come in.

pub mod addr;
pub mod addrmap;
pub mod bytes;
pub mod call;
pub mod clock;
pub mod config;
pub mod discovery;
pub mod engine;
pub mod jitter_probe;
pub mod keys;
pub mod limiter;
pub mod manager;
pub mod noise;
pub mod packet;
pub mod random;
pub mod room;
pub mod session;
pub mod status;
pub mod stun;
pub mod subnet;
pub mod text;
pub mod ticket;
pub mod tunnel;
pub mod windows_tuning;
pub mod wireguard;
