//! A transparent UDP relay for WireGuard traffic.
//!
//! The relay multiplexes many remote peers onto a single fixed target
//! endpoint by inspecting the cleartext WireGuard header of each datagram.
//! Packet payloads are never decrypted or altered: the library only decides
//! where each datagram must be forwarded.
//!
//! - [`packet`] parses a raw datagram into a typed protocol message.
//! - [`session`] binds sender indices to network addresses with an expiry.
//! - [`router`] computes the forwarding destination for a parsed message.

pub mod packet;
pub mod router;
pub mod session;
