//! Parsing of WireGuard message headers.
//!
//! Only the first 12 bytes of a datagram are ever inspected: a one-byte type
//! discriminant at offset 0 and one or two little-endian `u32` session
//! indices. Everything else, the cryptographic payload included, is opaque.

use vstd::bytes::{
    lemma_auto_spec_u32_to_from_le_bytes, spec_u32_from_le_bytes, spec_u32_to_le_bytes,
    u32_from_le_bytes,
};
use vstd::prelude::*;

verus! {

/// A parsed WireGuard message header.
///
/// The payload carried after the header fields is never represented here:
/// routing needs only the type of the message and its session indices.
#[derive(Debug, PartialEq, Eq, Structural)]
pub enum WgPacket {
    /// Type byte 1: carries the sender's session index at bytes 4..8.
    HandShakeInitiation { sender: u32 },
    /// Type byte 2: carries the sender's index at bytes 4..8 and the
    /// receiver's index at bytes 8..12.
    HandShakeResponse { sender: u32, receiver: u32 },
    /// Type byte 4: carries the receiver's session index at bytes 4..8.
    Data { receiver: u32 },
    /// Type byte 3: carries the receiver's session index at bytes 4..8.
    Cookie { receiver: u32 },
}

/// What `WgPacket::parse` returns on a byte sequence: the classification
/// table for the four message types, or `None` for anything unrecognized.
///
/// A datagram shorter than 10 bytes is never parsed; a handshake response
/// additionally needs 12 bytes so that its receiver index is present.
pub open spec fn spec_parse(s: Seq<u8>) -> Option<WgPacket> {
    if s.len() < 10 {
        None
    } else if s[0] == 1u8 {
        Some(WgPacket::HandShakeInitiation { sender: spec_u32_from_le_bytes(s.subrange(4, 8)) })
    } else if s[0] == 2u8 {
        if s.len() < 12 {
            None
        } else {
            Some(
                WgPacket::HandShakeResponse {
                    sender: spec_u32_from_le_bytes(s.subrange(4, 8)),
                    receiver: spec_u32_from_le_bytes(s.subrange(8, 12)),
                },
            )
        }
    } else if s[0] == 3u8 {
        Some(WgPacket::Cookie { receiver: spec_u32_from_le_bytes(s.subrange(4, 8)) })
    } else if s[0] == 4u8 {
        Some(WgPacket::Data { receiver: spec_u32_from_le_bytes(s.subrange(4, 8)) })
    } else {
        None
    }
}

/// The receiver index of a message, if its type carries one.
///
/// Only a handshake initiation has no receiver field: the initiator does not
/// yet know the session index the other side will assign.
pub open spec fn spec_receiver(p: WgPacket) -> Option<u32> {
    match p {
        WgPacket::HandShakeInitiation { .. } => None,
        WgPacket::HandShakeResponse { receiver, .. } => Some(receiver),
        WgPacket::Data { receiver } => Some(receiver),
        WgPacket::Cookie { receiver } => Some(receiver),
    }
}

impl WgPacket {
    /// Classifies a raw datagram.
    ///
    /// Deterministic and total: unknown type bytes and short datagrams map to
    /// `None`, which callers treat as "drop silently"; no input is an error.
    pub fn parse(buf: &[u8]) -> (r: Option<WgPacket>)
        ensures
            r == spec_parse(buf@),
    {
        let recv: usize = buf.len();
        // smallest parseable packet is 10 bytes
        if recv < 10 {
            return None;
        }
        match buf[0] {
            1u8 => Some(WgPacket::HandShakeInitiation { sender: u32_from_le_bytes(&buf[4..8]) }),
            2u8 => {
                if recv < 12 {
                    None
                } else {
                    Some(
                        WgPacket::HandShakeResponse {
                            sender: u32_from_le_bytes(&buf[4..8]),
                            receiver: u32_from_le_bytes(&buf[8..12]),
                        },
                    )
                }
            },
            3u8 => Some(WgPacket::Cookie { receiver: u32_from_le_bytes(&buf[4..8]) }),
            4u8 => Some(WgPacket::Data { receiver: u32_from_le_bytes(&buf[4..8]) }),
            _ => None,
        }
    }

    /// The receiver index of this message, if its type carries one.
    pub fn receiver(&self) -> (r: Option<&u32>)
        ensures
            r matches Some(x) ==> spec_receiver(*self) == Some(*x),
            r is None ==> spec_receiver(*self) is None,
    {
        match self {
            WgPacket::HandShakeInitiation { .. } => None,
            WgPacket::HandShakeResponse { receiver, .. } => Some(receiver),
            WgPacket::Data { receiver } => Some(receiver),
            WgPacket::Cookie { receiver } => Some(receiver),
        }
    }
}

/// Law: parsing a valid handshake-initiation encoding recovers the sender
/// index exactly, whatever bytes surround it.
pub proof fn lemma_parse_initiation_round_trip(s: Seq<u8>, sender: u32)
    requires
        s.len() >= 10,
        s[0] == 1u8,
        s.subrange(4, 8) == spec_u32_to_le_bytes(sender),
    ensures
        spec_parse(s) == Some(WgPacket::HandShakeInitiation { sender }),
{
    lemma_auto_spec_u32_to_from_le_bytes();
    assert(spec_u32_to_le_bytes(sender).len() == 4);
}

/// Law: parsing a valid handshake-response encoding recovers both the sender
/// and the receiver index exactly.
pub proof fn lemma_parse_response_round_trip(s: Seq<u8>, sender: u32, receiver: u32)
    requires
        s.len() >= 12,
        s[0] == 2u8,
        s.subrange(4, 8) == spec_u32_to_le_bytes(sender),
        s.subrange(8, 12) == spec_u32_to_le_bytes(receiver),
    ensures
        spec_parse(s) == Some(WgPacket::HandShakeResponse { sender, receiver }),
{
    lemma_auto_spec_u32_to_from_le_bytes();
    assert(spec_u32_to_le_bytes(sender).len() == 4);
    assert(spec_u32_to_le_bytes(receiver).len() == 4);
}

/// Law: parsing a valid cookie encoding recovers the receiver index exactly.
pub proof fn lemma_parse_cookie_round_trip(s: Seq<u8>, receiver: u32)
    requires
        s.len() >= 10,
        s[0] == 3u8,
        s.subrange(4, 8) == spec_u32_to_le_bytes(receiver),
    ensures
        spec_parse(s) == Some(WgPacket::Cookie { receiver }),
{
    lemma_auto_spec_u32_to_from_le_bytes();
    assert(spec_u32_to_le_bytes(receiver).len() == 4);
}

/// Law: parsing a valid data-message encoding recovers the receiver index
/// exactly.
pub proof fn lemma_parse_data_round_trip(s: Seq<u8>, receiver: u32)
    requires
        s.len() >= 10,
        s[0] == 4u8,
        s.subrange(4, 8) == spec_u32_to_le_bytes(receiver),
    ensures
        spec_parse(s) == Some(WgPacket::Data { receiver }),
{
    lemma_auto_spec_u32_to_from_le_bytes();
    assert(spec_u32_to_le_bytes(receiver).len() == 4);
}

/// Law: a byte sequence shorter than 10 bytes, or one whose type byte is not
/// 1, 2, 3 or 4, is unparseable.
pub proof fn lemma_parse_unrecognized(s: Seq<u8>)
    requires
        s.len() < 10 || (s[0] != 1u8 && s[0] != 2u8 && s[0] != 3u8 && s[0] != 4u8),
    ensures
        spec_parse(s) is None,
{
}

/// Law: a handshake response of only 10 or 11 bytes is unparseable even
/// though it meets the general 10-byte minimum: its receiver index would be
/// truncated.
pub proof fn lemma_parse_short_response(s: Seq<u8>)
    requires
        10 <= s.len() < 12,
        s[0] == 2u8,
    ensures
        spec_parse(s) is None,
{
}

} // verus!
