//! The routing decision.
//!
//! The relay is a strict star topology: every datagram from a non-target
//! peer is forwarded to the target, and only the target's own traffic needs
//! a table lookup — keyed by the receiver index the target echoes back — to
//! find which peer it was meant for. The router only selects a destination
//! address; forwarded bytes are always the original datagram, unmodified.

use crate::packet::{spec_receiver, WgPacket};
use crate::session::{spec_lookup, spec_upsert, Endpoint, SessionEntry, SessionTable};
use crate::session::SESSION_VALID_TIME;
use vstd::prelude::*;

verus! {

/// The routing decision as a mathematical function: the table after the
/// call, and the destination, if any. `None` means "drop silently".
///
/// From the target, the message's receiver field picks the peer out of the
/// table (the target may never initiate, so a message without a receiver
/// field, or with an unknown one, is dropped). From anyone else, an
/// initiation binds its sender index to the source address and goes to the
/// target, a response is forbidden and dropped, and everything else goes to
/// the target untouched.
pub open spec fn spec_route(
    packet: WgPacket,
    src_addr: Endpoint,
    target_addr: Endpoint,
    m: Map<u32, SessionEntry>,
    now: u64,
) -> (Map<u32, SessionEntry>, Option<Endpoint>) {
    if src_addr == target_addr {
        (
            m,
            match spec_receiver(packet) {
                Some(r) => spec_lookup(m, r),
                None => None,
            },
        )
    } else {
        match packet {
            WgPacket::HandShakeInitiation { sender } => (
                spec_upsert(m, sender, src_addr, now),
                Some(target_addr),
            ),
            WgPacket::HandShakeResponse { .. } => (m, None),
            _ => (m, Some(target_addr)),
        }
    }
}

/// The read-only half of routing: where a datagram that came from the
/// target itself must go. Suits a shared (reader) critical section, since
/// the table is never mutated here.
pub fn route_from_target(packet: &WgPacket, table: &SessionTable, now: u64) -> (dest: Option<
    Endpoint,
>)
    requires
        table.wf(),
    ensures
        dest == (match spec_receiver(*packet) {
            Some(r) => spec_lookup(table@, r),
            None => None,
        }),
{
    match packet.receiver() {
        Some(r) => table.lookup(*r, now),
        None => None,
    }
}

/// The writing half of routing: where a datagram from a non-target peer
/// must go, binding its sender index first when it is an initiation. Suits
/// an exclusive (writer) critical section.
pub fn route_from_peer(
    packet: &WgPacket,
    src_addr: Endpoint,
    target_addr: Endpoint,
    table: &mut SessionTable,
    now: u64,
) -> (dest: Option<Endpoint>)
    requires
        old(table).wf(),
        now + SESSION_VALID_TIME <= u64::MAX,
    ensures
        final(table).wf(),
        (match *packet {
            WgPacket::HandShakeInitiation { sender } => final(table)@ == spec_upsert(
                old(table)@,
                sender,
                src_addr,
                now,
            ) && dest == Some(target_addr),
            WgPacket::HandShakeResponse { .. } => final(table)@ == old(table)@ && dest is None,
            _ => final(table)@ == old(table)@ && dest == Some(target_addr),
        }),
{
    match packet {
        WgPacket::HandShakeInitiation { sender } => {
            table.sweep_and_upsert(*sender, src_addr, now);
            Some(target_addr)
        },
        WgPacket::HandShakeResponse { .. } => None,
        _ => Some(target_addr),
    }
}

/// The full routing decision of the relay: selects the forwarding
/// destination for one datagram and, for an initiation from a peer, binds
/// the sender index to the source address as a side effect.
pub fn route(
    packet: &WgPacket,
    src_addr: Endpoint,
    target_addr: Endpoint,
    table: &mut SessionTable,
    now: u64,
) -> (dest: Option<Endpoint>)
    requires
        old(table).wf(),
        now + SESSION_VALID_TIME <= u64::MAX,
    ensures
        final(table).wf(),
        final(table)@ == spec_route(*packet, src_addr, target_addr, old(table)@, now).0,
        dest == spec_route(*packet, src_addr, target_addr, old(table)@, now).1,
{
    if src_addr == target_addr {
        route_from_target(packet, table, now)
    } else {
        route_from_peer(packet, src_addr, target_addr, table, now)
    }
}

} // verus!
