//! AetherLink: a VPN core with a userspace netstack.
//!
//! The crate holds the rules of the tunnel: session cryptography, the frame
//! codec, stream multiplexing, the handshake, IPv4 packet handling, routing
//! decisions, and the steps that bring the tunnel up and down. Everything that
//! touches sockets, files, threads or the operating system lives outside of it
//! and drives these rules.

pub mod buf;
pub mod client;
pub mod crypto;
pub mod engine;
pub mod ffi;
pub mod frame;
pub mod mux;
pub mod net;
pub mod netstack;
pub mod protocol;
pub mod table;
pub mod text;
