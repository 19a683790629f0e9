//! What holds of the routing core and the connection manager over many steps, and of the two
//! together.
use bytes::Bytes;
use vstd::prelude::*;

use crate::addr::Ipv4Addr;
use crate::coord::{core_event, dispatch_of, Dispatch};
use crate::iroh::{
    CloseReason, ConnectionEvent, ConnectionState, CoreAction, IrohCommand, IrohEvent, IrohInput,
    IrohStop, IrohView,
};
use crate::key::{key_order_is_numeric, key_order_is_total, number_of, PublicKey};
use crate::octets::octets_of;
use crate::packet::ipv4::{header_is_in_its_octets, word_at, Ipv4Packet, ParseError};
use crate::text::is_number;
use crate::vpn_core::{
    Action, CoreView, Event, LogEvent, PeerView, RecvPacketError, SendPacketError,
};

verus! {

// ---- the routing core ----

/// Whatever happens, the core keeps its invariant, its address, its size limit and its whitelist.
pub proof fn core_keeps_its_invariant(core: CoreView, event: Event)
    requires
        core.wf(),
    ensures
        core.process(event).0.wf(),
        core.process(event).0.ipv4_addr == core.ipv4_addr,
        core.process(event).0.max_packet_size == core.max_packet_size,
        core.process(event).0.route_table == core.route_table,
{
    match event {
        Event::PeerConnected(node) => {
            if core.whitelisted(node) && !core.peers[node].is_connected {
                core.lemma_with_peer(node, core.peers[node].connected());
            }
        },
        Event::PeerDisconnected(node) => {
            if core.whitelisted(node) && core.peers[node].is_connected {
                assert(core.peers.contains_key(node));
                core.lemma_with_peer(node, core.peers[node].disconnected());
            }
        },
        Event::PacketFromIroh(packet, from) => {},
        Event::PacketFromTun(packet) => {
            if let Ok(ip) = core.verify_send_packet(octets_of(packet)) {
                let key = core.route_table[ip];
                assert(core.route_table.contains_key(ip));
                assert(core.peers.contains_key(key));
                if !core.peers[key].is_connected {
                    core.lemma_with_peer(key, core.peers[key].buffering(packet));
                }
            }
        },
    }
}

/// The peer that an event is about, if it is about one.
pub open spec fn peer_concerned(core: CoreView, event: Event) -> Option<PublicKey> {
    match event {
        Event::PeerConnected(node) => Some(node),
        Event::PeerDisconnected(node) => Some(node),
        Event::PacketFromIroh(packet, from) => None,
        Event::PacketFromTun(packet) => match core.verify_send_packet(octets_of(packet)) {
            Ok(ip) => Some(core.route_table[ip]),
            Err(_) => None,
        },
    }
}

/// An event changes nothing that the core remembers of the peers that it is not about, and adds or
/// removes none.
pub proof fn events_leave_other_peers_alone(core: CoreView, event: Event, other: PublicKey)
    requires
        core.wf(),
        peer_concerned(core, event) != Some(other),
    ensures
        core.process(event).0.peers.contains_key(other) == core.peers.contains_key(other),
        core.process(event).0.peers[other] == core.peers[other],
{
}

/// A node that is not whitelisted is turned away, and whatever it sends is dropped.
pub proof fn strangers_are_rejected(core: CoreView, stranger: PublicKey, packet: Bytes)
    requires
        core.wf(),
        !core.whitelisted(stranger),
    ensures
        core.process(Event::PeerConnected(stranger)) == (
            core,
            seq![Action::DisconnectFromPeer(stranger)],
        ),
        core.process(Event::PeerDisconnected(stranger)) == (
            core,
            seq![Action::NoAction(LogEvent::UnknownPeer)],
        ),
        exists|e: RecvPacketError|
            core.process(Event::PacketFromIroh(packet, stranger)) == (
                core,
                #[trigger] seq![Action::NoAction(LogEvent::RecvPacketError(e))],
            ),
{
    match core.verify_recv_packet(octets_of(packet), stranger) {
        Ok(_) => {
            let p = Ipv4Packet::of(octets_of(packet))->Ok_0;
            assert(core.route_table.contains_key(p.src_ip));
            assert(core.whitelisted(stranger));
        },
        Err(e) => {
            assert(core.recv_packet(packet, stranger) == seq![
                Action::NoAction(LogEvent::RecvPacketError(e)),
            ]);
        },
    }
}

/// A packet reaches the host only if it is whole and small enough, is meant for this node, and comes
/// from the node that its source address belongs to.
pub proof fn no_spoofed_packet_reaches_the_host(core: CoreView, event: Event, packet: Bytes)
    requires
        core.wf(),
        core.process(event).1.contains(Action::WriteToTun(packet)),
    ensures
        event is PacketFromIroh,
        event == Event::PacketFromIroh(packet, event->PacketFromIroh_1),
        core.whitelisted(event->PacketFromIroh_1),
        ({
            let octets = octets_of(packet);
            &&& Ipv4Packet::of(octets) is Ok
            &&& octets.len() <= core.max_packet_size
            &&& Ipv4Packet::of(octets)->Ok_0.total_length <= octets.len()
            &&& Ipv4Packet::of(octets)->Ok_0.dest_ip == core.ipv4_addr
            &&& core.route_table.contains_key(Ipv4Packet::of(octets)->Ok_0.src_ip)
            &&& core.route_table[Ipv4Packet::of(octets)->Ok_0.src_ip] == event->PacketFromIroh_1
        }),
{
    let actions = core.process(event).1;
    let i = choose|i: int| 0 <= i < actions.len() && actions[i] == Action::WriteToTun(packet);
    assert(actions[i] == Action::WriteToTun(packet));
    match event {
        Event::PacketFromIroh(p, from) => {
            let header = Ipv4Packet::of(octets_of(p))->Ok_0;
            assert(core.route_table.contains_key(header.src_ip));
        },
        _ => {},
    }
}

/// A packet leaves only for a whitelisted peer, and only after the checks: it is whole, small enough
/// and alive, comes from this node's address and goes to that peer's.
pub proof fn only_checked_packets_leave(core: CoreView, event: Event, packet: Bytes, to: PublicKey)
    requires
        core.wf(),
        core.process(event).1.contains(Action::SendPacketTo(packet, to)),
    ensures
        core.whitelisted(to),
        core.bound_for(packet, to),
        ({
            let octets = octets_of(packet);
            &&& Ipv4Packet::of(octets) is Ok
            &&& octets.len() <= core.max_packet_size
            &&& Ipv4Packet::of(octets)->Ok_0.total_length <= octets.len()
            &&& Ipv4Packet::of(octets)->Ok_0.ttl > 0
            &&& Ipv4Packet::of(octets)->Ok_0.src_ip == core.ipv4_addr
            &&& core.route_table.contains_key(Ipv4Packet::of(octets)->Ok_0.dest_ip)
            &&& core.route_table[Ipv4Packet::of(octets)->Ok_0.dest_ip] == to
        }),
{
    let actions = core.process(event).1;
    let i = choose|i: int| 0 <= i < actions.len() && actions[i] == Action::SendPacketTo(packet, to);
    assert(actions[i] == Action::SendPacketTo(packet, to));
    match event {
        Event::PeerConnected(node) => {
            assert(core.peers.contains_key(node));
            assert(core.bound_for(core.peers[node].packet_queue[i], node));
        },
        _ => {},
    }
    let header = Ipv4Packet::of(octets_of(packet))->Ok_0;
    assert(core.route_table.contains_key(header.dest_ip));
}

/// The node and every node that it whitelists have addresses in the mesh.
pub open spec fn within_mesh(core: CoreView) -> bool {
    &&& core.ipv4_addr.in_mesh()
    &&& forall|ip: Ipv4Addr| #[trigger] core.route_table.contains_key(ip) ==> ip.in_mesh()
}

/// The packet goes from an address in the mesh to an address in the mesh.
pub open spec fn stays_in_mesh(packet: Bytes) -> bool {
    Ipv4Packet::of(octets_of(packet)) matches Ok(header) && header.src_ip.in_mesh()
        && header.dest_ip.in_mesh()
}

/// Traffic is isolated to the mesh: where the node and its whitelist have addresses in the mesh, no
/// packet leaves for a peer or reaches the host but from an address in the mesh to an address in the
/// mesh, and that remains so whatever happens. Where the whitelist has other addresses too, the
/// node's own end of each packet is still in the mesh.
pub proof fn traffic_is_isolated_to_the_mesh(core: CoreView, event: Event)
    requires
        core.wf(),
        core.ipv4_addr.in_mesh(),
    ensures
        forall|packet: Bytes, to: PublicKey| #[trigger]
            core.process(event).1.contains(Action::SendPacketTo(packet, to)) ==> (Ipv4Packet::of(
                octets_of(packet),
            ) matches Ok(header) && header.src_ip.in_mesh()),
        forall|packet: Bytes| #[trigger]
            core.process(event).1.contains(Action::WriteToTun(packet)) ==> (Ipv4Packet::of(
                octets_of(packet),
            ) matches Ok(header) && header.dest_ip.in_mesh()),
        within_mesh(core) ==> {
            &&& within_mesh(core.process(event).0)
            &&& forall|packet: Bytes, to: PublicKey| #[trigger]
                core.process(event).1.contains(Action::SendPacketTo(packet, to)) ==> stays_in_mesh(
                    packet,
                )
            &&& forall|packet: Bytes| #[trigger]
                core.process(event).1.contains(Action::WriteToTun(packet)) ==> stays_in_mesh(packet)
        },
{
    let actions = core.process(event).1;
    core_keeps_its_invariant(core, event);
    assert forall|packet: Bytes, to: PublicKey| #[trigger]
        actions.contains(Action::SendPacketTo(packet, to)) implies (Ipv4Packet::of(
        octets_of(packet),
    ) matches Ok(header) && header.src_ip.in_mesh()) && (within_mesh(core) ==> stays_in_mesh(
        packet,
    )) by {
        only_checked_packets_leave(core, event, packet, to);
    }
    assert forall|packet: Bytes| #[trigger]
        actions.contains(Action::WriteToTun(packet)) implies (Ipv4Packet::of(
        octets_of(packet),
    ) matches Ok(header) && header.dest_ip.in_mesh()) && (within_mesh(core) ==> stays_in_mesh(
        packet,
    )) by {
        no_spoofed_packet_reaches_the_host(core, event, packet);
    }
}

/// What one node sends to another, the other hands to its host, provided the two agree on who has
/// which address and the other takes packets as large.
pub proof fn sent_packets_are_received(
    sender: CoreView,
    sender_key: PublicKey,
    receiver: CoreView,
    packet: Bytes,
)
    requires
        sender.wf(),
        receiver.wf(),
        sender.verify_send_packet(octets_of(packet)) == Ok::<Ipv4Addr, SendPacketError>(
            receiver.ipv4_addr,
        ),
        receiver.route_table.contains_key(sender.ipv4_addr),
        receiver.route_table[sender.ipv4_addr] == sender_key,
        sender.max_packet_size <= receiver.max_packet_size,
    ensures
        receiver.process(Event::PacketFromIroh(packet, sender_key)) == (
            receiver,
            seq![Action::WriteToTun(packet)],
        ),
{
}

/// The core after the host has sent some packets, one after the other.
pub open spec fn after_sends(core: CoreView, packets: Seq<Bytes>) -> CoreView
    decreases packets.len(),
{
    if packets.len() == 0 {
        core
    } else {
        after_sends(core, packets.drop_last()).process(Event::PacketFromTun(packets.last())).0
    }
}

/// The last packets of a sequence, 1000 at most: as many as a queue holds.
pub open spec fn newest(packets: Seq<Bytes>) -> Seq<Bytes> {
    if packets.len() <= 1000 {
        packets
    } else {
        packets.skip(packets.len() - 1000)
    }
}

/// While a peer is not connected, the packets for it wait in the order in which they were sent, and
/// of more than the queue holds the newest are kept.
pub proof fn packets_wait_in_order(core: CoreView, to: PublicKey, packets: Seq<Bytes>)
    requires
        core.wf(),
        core.whitelisted(to),
        !core.peers[to].is_connected,
        forall|i: int| 0 <= i < packets.len() ==> core.bound_for(#[trigger] packets[i], to),
    ensures
        after_sends(core, packets).wf(),
        after_sends(core, packets) == core.with_peer(
            to,
            PeerView {
                packet_queue: newest(core.peers[to].packet_queue + packets),
                ..core.peers[to]
            },
        ),
    decreases packets.len(),
{
    let queue = core.peers[to].packet_queue;
    assert(core.peers.contains_key(to));
    if packets.len() == 0 {
        assert(queue + packets =~= queue);
        assert(core.peers.insert(to, core.peers[to]) =~= core.peers);
    } else {
        let some = packets.drop_last();
        let packet = packets.last();
        assert forall|i: int| 0 <= i < some.len() implies core.bound_for(#[trigger] some[i], to) by {
            assert(core.bound_for(packets[i], to));
        }
        packets_wait_in_order(core, to, some);
        let before = after_sends(core, some);
        assert(core.bound_for(packets[packets.len() - 1], to));
        assert(before.verify_send_packet(octets_of(packet)) == core.verify_send_packet(
            octets_of(packet),
        ));
        assert(queue + packets =~= (queue + some).push(packet));
        let waiting = before.peers[to].buffering(packet);
        assert(waiting.packet_queue =~= newest(queue + packets));
        core_keeps_its_invariant(before, Event::PacketFromTun(packet));
        assert(after_sends(core, packets) == before.with_peer(to, waiting));
        assert(before.peers.insert(to, waiting) =~= core.peers.insert(to, waiting));
    }
}

/// When a peer connects, the packets that were sent to it meanwhile go out in their order, the
/// newest if they were more than the queue holds; and then none waits any more.
pub proof fn waiting_packets_go_out_on_connect(core: CoreView, to: PublicKey, packets: Seq<Bytes>)
    requires
        core.wf(),
        core.whitelisted(to),
        !core.peers[to].is_connected,
        forall|i: int| 0 <= i < packets.len() ==> core.bound_for(#[trigger] packets[i], to),
    ensures
        after_sends(core, packets).process(Event::PeerConnected(to)).1 == newest(
            core.peers[to].packet_queue + packets,
        ).map_values(|packet: Bytes| Action::SendPacketTo(packet, to)),
        after_sends(core, packets).process(Event::PeerConnected(to)).0.peers[to]
            == core.peers[to].connected(),
{
    packets_wait_in_order(core, to, packets);
    let before = after_sends(core, packets);
    assert(before.peers.contains_key(to));
    assert(before.whitelisted(to));
}

/// A packet for a connected peer goes out at once and leaves the core as it was.
pub proof fn packets_for_connected_peers_go_out(core: CoreView, to: PublicKey, packet: Bytes)
    requires
        core.wf(),
        core.bound_for(packet, to),
        core.peers[to].is_connected,
    ensures
        core.process(Event::PacketFromTun(packet)) == (
            core,
            seq![Action::SendPacketTo(packet, to)],
        ),
{
}

/// Hearing twice that a peer has connected, or has disconnected, is the same as hearing it once; and
/// a peer that connects and disconnects is as before, but for the packets that waited.
pub proof fn connection_news_are_idempotent(core: CoreView, node: PublicKey)
    requires
        core.wf(),
    ensures
        ({
            let on = core.process(Event::PeerConnected(node)).0;
            let off = core.process(Event::PeerDisconnected(node)).0;
            &&& on.process(Event::PeerConnected(node)).0 == on
            &&& off.process(Event::PeerDisconnected(node)).0 == off
            &&& core.whitelisted(node) ==> on.peers[node].is_connected
                && !off.peers[node].is_connected
            &&& core.whitelisted(node) && !core.peers[node].is_connected ==> on.process(
                Event::PeerDisconnected(node),
            ).0.peers[node] == (PeerView { packet_queue: Seq::empty(), ..core.peers[node] })
        }),
{
    let on = core.process(Event::PeerConnected(node)).0;
    let off = core.process(Event::PeerDisconnected(node)).0;
    core_keeps_its_invariant(core, Event::PeerConnected(node));
    core_keeps_its_invariant(core, Event::PeerDisconnected(node));
    if core.whitelisted(node) {
        assert(core.peers.contains_key(node));
        assert(on.peers.contains_key(node));
        assert(off.peers.contains_key(node));
        assert(on.whitelisted(node));
        assert(off.whitelisted(node));
    }
}

/// The octets begin with an IPv4 header: 20 octets at least, of version 4.
pub open spec fn speaks_ipv4(octets: Seq<u8>) -> bool {
    octets.len() >= 20 && 0x40 <= octets[0] <= 0x4F
}

/// The length that the header names.
pub open spec fn named_length(octets: Seq<u8>) -> int {
    octets[2] * 0x100 + octets[3]
}

/// The address that four octets from a place on are.
pub open spec fn address_from(octets: Seq<u8>, at: int) -> Ipv4Addr {
    Ipv4Addr { bits: word_at(octets, at) as u32 }
}

/// A whole packet that is small enough for the core.
pub open spec fn whole_and_small(core: CoreView, octets: Seq<u8>) -> bool {
    speaks_ipv4(octets) && octets.len() <= core.max_packet_size && named_length(octets)
        <= octets.len()
}

/// A packet that the host may send: whole, small enough and alive, from the node's address to a
/// whitelisted one.
pub open spec fn may_be_sent(core: CoreView, octets: Seq<u8>) -> bool {
    whole_and_small(core, octets) && octets[8] > 0 && address_from(octets, 12) == core.ipv4_addr
        && core.route_table.contains_key(address_from(octets, 16))
}

/// A packet that the host may get from a peer: whole and small enough, from an address of that peer
/// to the node's.
pub open spec fn may_be_received(core: CoreView, octets: Seq<u8>, from: PublicKey) -> bool {
    whole_and_small(core, octets) && core.route_table.contains_key(address_from(octets, 12))
        && core.route_table[address_from(octets, 12)] == from && address_from(octets, 16)
        == core.ipv4_addr
}

/// Every packet that may be sent passes the check, for its destination, and no other packet does; of
/// the rest each is dropped for the first thing that is wrong with it.
pub proof fn send_check_is_complete(core: CoreView, octets: Seq<u8>)
    ensures
        core.verify_send_packet(octets) is Ok <==> may_be_sent(core, octets),
        may_be_sent(core, octets) ==> core.verify_send_packet(octets) == Ok::<
            Ipv4Addr,
            SendPacketError,
        >(address_from(octets, 16)),
        octets.len() < 20 ==> core.verify_send_packet(octets) == Err::<Ipv4Addr, SendPacketError>(
            SendPacketError::ParseError(ParseError::TooSmallPacket),
        ),
        octets.len() >= 20 && !speaks_ipv4(octets) ==> core.verify_send_packet(octets) == Err::<
            Ipv4Addr,
            SendPacketError,
        >(SendPacketError::ParseError(ParseError::IncorrectIpVersion)),
        speaks_ipv4(octets) && octets.len() > core.max_packet_size ==> core.verify_send_packet(
            octets,
        ) == Err::<Ipv4Addr, SendPacketError>(SendPacketError::MtuError),
        speaks_ipv4(octets) && octets.len() <= core.max_packet_size && named_length(octets)
            > octets.len() ==> core.verify_send_packet(octets) == Err::<Ipv4Addr, SendPacketError>(
            SendPacketError::BrokenLength,
        ),
        whole_and_small(core, octets) && octets[8] == 0 ==> core.verify_send_packet(octets)
            == Err::<Ipv4Addr, SendPacketError>(SendPacketError::IncorrectTTL),
        whole_and_small(core, octets) && octets[8] > 0 && address_from(octets, 12)
            != core.ipv4_addr ==> core.verify_send_packet(octets) == Err::<
            Ipv4Addr,
            SendPacketError,
        >(SendPacketError::IncorrectSrcIp),
        whole_and_small(core, octets) && octets[8] > 0 && address_from(octets, 12)
            == core.ipv4_addr && !core.route_table.contains_key(address_from(octets, 16))
            ==> core.verify_send_packet(octets) == Err::<Ipv4Addr, SendPacketError>(
            SendPacketError::UnknownDestIp,
        ),
{
    header_is_in_its_octets(octets);
}

/// Every packet that may be received passes the check, and no other packet does; of the rest each is
/// dropped for the first thing that is wrong with it.
pub proof fn receive_check_is_complete(core: CoreView, octets: Seq<u8>, from: PublicKey)
    ensures
        core.verify_recv_packet(octets, from) is Ok <==> may_be_received(core, octets, from),
        octets.len() < 20 ==> core.verify_recv_packet(octets, from) == Err::<(), RecvPacketError>(
            RecvPacketError::ParseError(ParseError::TooSmallPacket),
        ),
        octets.len() >= 20 && !speaks_ipv4(octets) ==> core.verify_recv_packet(octets, from)
            == Err::<(), RecvPacketError>(
            RecvPacketError::ParseError(ParseError::IncorrectIpVersion),
        ),
        speaks_ipv4(octets) && octets.len() > core.max_packet_size ==> core.verify_recv_packet(
            octets,
            from,
        ) == Err::<(), RecvPacketError>(RecvPacketError::MtuError),
        speaks_ipv4(octets) && octets.len() <= core.max_packet_size && named_length(octets)
            > octets.len() ==> core.verify_recv_packet(octets, from) == Err::<
            (),
            RecvPacketError,
        >(RecvPacketError::BrokenLength),
        whole_and_small(core, octets) && !core.route_table.contains_key(address_from(octets, 12))
            ==> core.verify_recv_packet(octets, from) == Err::<(), RecvPacketError>(
            RecvPacketError::UnknownSrcIp,
        ),
        whole_and_small(core, octets) && core.route_table.contains_key(address_from(octets, 12))
            && address_from(octets, 16) != core.ipv4_addr ==> core.verify_recv_packet(octets, from)
            == Err::<(), RecvPacketError>(RecvPacketError::IncorrectDestIp),
        whole_and_small(core, octets) && core.route_table.contains_key(address_from(octets, 12))
            && address_from(octets, 16) == core.ipv4_addr && core.route_table[address_from(
            octets,
            12,
        )] != from ==> core.verify_recv_packet(octets, from) == Err::<(), RecvPacketError>(
            RecvPacketError::Spoofing,
        ),
{
    header_is_in_its_octets(octets);
}

/// Exactly the nodes that some address belongs to are whitelisted, and have a place among the peers.
pub proof fn whitelist_is_the_route_table(core: CoreView, key: PublicKey)
    requires
        core.wf(),
    ensures
        core.whitelisted(key) <==> exists|ip: Ipv4Addr| #[trigger]
            core.route_table.contains_key(ip) && core.route_table[ip] == key,
        core.peers.contains_key(key) <==> exists|ip: Ipv4Addr| #[trigger]
            core.route_table.contains_key(ip) && core.route_table[ip] == key,
{
    assert(core.peers.contains_key(key) <==> core.whitelisted(key));
}

/// What the host may send goes to the node that its destination belongs to: at once and unchanged if
/// that node is connected; and otherwise it waits behind what waits for that node already, of which
/// the oldest leaves a queue of 1000. What the host may not send changes nothing.
pub proof fn host_packets_go_to_their_node(core: CoreView, packet: Bytes)
    requires
        core.wf(),
    ensures
        ({
            let octets = octets_of(packet);
            let node = core.route_table[address_from(octets, 16)];
            let (next, actions) = core.process(Event::PacketFromTun(packet));
            let queue = core.peers[node].packet_queue;
            &&& next.route_table == core.route_table
            &&& !may_be_sent(core, octets) ==> next == core && actions.len() == 1 && (
            core.verify_send_packet(octets) matches Err(e) && actions[0] == Action::NoAction(
                LogEvent::SendPacketError(e),
            ))
            &&& may_be_sent(core, octets) && core.peers[node].is_connected ==> next == core
                && actions == seq![Action::SendPacketTo(packet, node)] && actions.map_values(
                |action: Action| dispatch_of(action),
            ) == seq![Dispatch::TrySendToIroh(CoreAction::SendPacketTo(packet, node))]
            &&& may_be_sent(core, octets) && !core.peers[node].is_connected ==> {
                &&& forall|k: PublicKey| #[trigger]
                    next.peers.contains_key(k) <==> core.peers.contains_key(k)
                &&& forall|k: PublicKey|
                    k != node ==> #[trigger] next.peers[k] == core.peers[k]
                &&& !next.peers[node].is_connected
                &&& next.peers[node].ipv4_addr == core.peers[node].ipv4_addr
                &&& queue.len() < 1000 ==> next.peers[node].packet_queue == queue.push(packet)
                    && actions == seq![Action::NoAction(LogEvent::PacketBuffered)]
                &&& queue.len() >= 1000 ==> next.peers[node].packet_queue == queue.skip(1).push(
                    packet,
                ) && actions == seq![
                    Action::NoAction(LogEvent::PacketQueueOverflow),
                    Action::NoAction(LogEvent::PacketBuffered),
                ]
            }
        }),
{
    let octets = octets_of(packet);
    send_check_is_complete(core, octets);
    let (next, actions) = core.process(Event::PacketFromTun(packet));
    if may_be_sent(core, octets) {
        let node = core.route_table[address_from(octets, 16)];
        assert(core.whitelisted(node));
        assert(core.peers.contains_key(node));
        let queue = core.peers[node].packet_queue;
        if core.peers[node].is_connected {
            assert(actions.map_values(|action: Action| dispatch_of(action)) =~= seq![
                Dispatch::TrySendToIroh(CoreAction::SendPacketTo(packet, node)),
            ]);
        } else if queue.len() >= 1000 {
            assert(queue.drop_first() =~= queue.skip(1));
        }
    }
}

/// What a peer sends and the host may get is handed to the tun device, unchanged and alone; anything
/// else is handed to nobody and only noted. The core is as before.
pub proof fn peer_packets_go_to_the_host(core: CoreView, packet: Bytes, from: PublicKey)
    ensures
        ({
            let octets = octets_of(packet);
            let (next, actions) = core.process(core_event(IrohEvent::RecvPacketFrom(packet, from)));
            let dispatches = actions.map_values(|action: Action| dispatch_of(action));
            &&& next == core
            &&& may_be_received(core, octets, from) ==> actions == seq![Action::WriteToTun(packet)]
                && dispatches == seq![Dispatch::TrySendToTun(packet)]
            &&& !may_be_received(core, octets, from) ==> (core.verify_recv_packet(
                octets,
                from,
            ) matches Err(e) && actions == seq![Action::NoAction(LogEvent::RecvPacketError(e))]
                && dispatches == seq![Dispatch::Log(LogEvent::RecvPacketError(e))])
        }),
{
    let octets = octets_of(packet);
    receive_check_is_complete(core, octets, from);
    let (next, actions) = core.process(core_event(IrohEvent::RecvPacketFrom(packet, from)));
    let dispatches = actions.map_values(|action: Action| dispatch_of(action));
    assert(dispatches =~= seq![dispatch_of(actions[0])]);
}

/// A whitelisted node that connects is marked so, and everything that waited for it goes out, the
/// oldest first; one that disconnects is marked so. News that are none change nothing and are noted.
pub proof fn connection_news_are_kept(core: CoreView, node: PublicKey)
    requires
        core.wf(),
        core.whitelisted(node),
    ensures
        ({
            let (on, sent) = core.process(core_event(IrohEvent::ConnectedToPeer(node)));
            let (off, noted) = core.process(core_event(IrohEvent::DisconnectedFromPeer(node)));
            let queue = core.peers[node].packet_queue;
            &&& core.peers[node].is_connected ==> on == core && sent == seq![
                Action::NoAction(LogEvent::AlreadyConnected),
            ]
            &&& !core.peers[node].is_connected ==> {
                &&& on.peers[node].is_connected
                &&& on.peers[node].packet_queue.len() == 0
                &&& on.peers[node].ipv4_addr == core.peers[node].ipv4_addr
                &&& sent.len() == queue.len()
                &&& forall|i: int|
                    0 <= i < queue.len() ==> #[trigger] sent[i] == Action::SendPacketTo(
                        queue[i],
                        node,
                    )
            }
            &&& !core.peers[node].is_connected ==> off == core && noted == seq![
                Action::NoAction(LogEvent::AlreadyDisconnected),
            ]
            &&& core.peers[node].is_connected ==> {
                &&& !off.peers[node].is_connected
                &&& off.peers[node].packet_queue == queue
                &&& off.peers[node].ipv4_addr == core.peers[node].ipv4_addr
                &&& noted.len() == 0
            }
        }),
{
    assert(core.peers.contains_key(node));
}

/// What is told a reader of an action names what it is about: the number of octets in decimal, the key
/// in hexadecimal, and the reason in full.
pub proof fn texts_name_what_they_are_about(
    packet: Bytes,
    key: PublicKey,
    log: LogEvent,
    send: SendPacketError,
    recv: RecvPacketError,
    parse: ParseError,
)
    ensures
        Action::ConnectToPeer(key).text() == "Connect to: "@ + key.text(),
        Action::DisconnectFromPeer(key).text() == "Disconnect from: "@ + key.text(),
        Action::NoAction(log).text() == "Info -> "@ + log.text(),
        exists|n: Seq<char>|
            is_number(n) && crate::text::number_of(n) == octets_of(packet).len()
                && Action::SendPacketTo(packet, key).text() == "Send "@ + n + " bytes to "@
                + key.text() && Action::WriteToTun(packet).text() == #[trigger] ("Write "@
                + n) + " bytes to TUN"@,
        LogEvent::SendPacketError(send).text() == "Dropped outgoing packet: "@ + send.text(),
        LogEvent::RecvPacketError(recv).text() == "Dropped incoming packet: "@ + recv.text(),
        SendPacketError::ParseError(parse).text() == "packet parse error: "@ + parse.text(),
        RecvPacketError::ParseError(parse).text() == "packet parse error: "@ + parse.text(),
{
    let n = crate::text::decimal(octets_of(packet).len());
    crate::text::decimal_text_stands_for_its_number(octets_of(packet).len());
    assert(Action::WriteToTun(packet).text() == ("Write "@ + n) + " bytes to TUN"@);
}

/// Each action of the core is carried out as it says: a packet for a peer goes to the manager, for
/// that peer; a packet for the host goes to the tun device; a peer to be disconnected is named to the
/// manager; a reason is noted; and no connection is asked for. Each event of the manager reaches the
/// core as what it is.
pub proof fn coordinator_passes_on_what_it_gets(packet: Bytes, key: PublicKey, log: LogEvent)
    ensures
        dispatch_of(Action::SendPacketTo(packet, key)) == Dispatch::TrySendToIroh(
            CoreAction::SendPacketTo(packet, key),
        ),
        dispatch_of(Action::WriteToTun(packet)) == Dispatch::TrySendToTun(packet),
        dispatch_of(Action::DisconnectFromPeer(key)) == Dispatch::SendToIroh(
            CoreAction::DisconnectFromPeer(key),
        ),
        dispatch_of(Action::NoAction(log)) == Dispatch::Log(log),
        dispatch_of(Action::ConnectToPeer(key)) == Dispatch::Nothing,
        core_event(IrohEvent::ConnectedToPeer(key)) == Event::PeerConnected(key),
        core_event(IrohEvent::DisconnectedFromPeer(key)) == Event::PeerDisconnected(key),
        core_event(IrohEvent::RecvPacketFrom(packet, key)) == Event::PacketFromIroh(packet, key),
{
}

// ---- the connection manager ----

/// Of two different nodes exactly one dials the other.
pub proof fn exactly_one_side_dials(a: IrohView, b: IrohView)
    requires
        a.id != b.id,
    ensures
        a.dials(b.id) != b.dials(a.id),
{
    key_order_is_total(a.id, b.id);
}

/// Whatever it is told, the manager keeps its invariant, its key and its whitelist, forgets no peer,
/// and stays started.
pub proof fn manager_keeps_its_invariant(manager: IrohView, input: IrohInput)
    requires
        manager.wf(),
    ensures
        manager.on_init().0.wf(),
        manager.on_input(input) matches Ok((next, _)) ==> {
            &&& next.wf()
            &&& next.id == manager.id
            &&& next.peers == manager.peers
            &&& next.started == manager.started
            &&& forall|k: PublicKey| #[trigger]
                manager.table.contains_key(k) ==> next.table.contains_key(k)
        },
{
    match input {
        IrohInput::FromTasks(Some(event)) => match event {
            ConnectionEvent::OutgoingConnection { peer, connection } => {
                manager.lemma_with(peer, ConnectionState::Connected { connection });
            },
            ConnectionEvent::IncomingConnection { peer, connection } => {
                manager.lemma_with(peer, ConnectionState::Connected { connection });
            },
            ConnectionEvent::Disconnected(peer) => {
                manager.lemma_with(peer, manager.seeking(peer));
            },
            ConnectionEvent::InternalError => {},
        },
        IrohInput::FromCoordinator(Some(event)) => match event {
            CoreAction::SendPacketTo(_, _) => {},
            CoreAction::ConnectToPeer(peer) => {
                manager.lemma_with(peer, manager.seeking(peer));
            },
            CoreAction::DisconnectFromPeer(peer) => {
                manager.lemma_with(peer, ConnectionState::Disconnected);
            },
        },
        _ => {},
    }
    let started = manager.on_init().0;
    assert forall|k: PublicKey| #[trigger] started.table.contains_key(k) implies {
        &&& started.table[k] is Connecting ==> started.dials(k)
        &&& started.table[k] is WaitingIncomingConnection ==> !started.dials(k)
    } by {
        if !manager.peers.contains(k) {
            assert(manager.table.contains_key(k));
        }
    }
}

/// Every start, the first and any later one, accepts connections, whatever the whitelist.
pub proof fn every_start_accepts(manager: IrohView)
    ensures
        manager.on_init().1.len() > 0,
        manager.on_init().1.last() == IrohCommand::StartAccepting,
        manager.on_init().1.contains(IrohCommand::StartAccepting),
{
    let commands = manager.on_init().1;
    assert(commands[commands.len() - 1] == IrohCommand::StartAccepting);
}

/// At the first start the manager dials each whitelisted peer with a key no greater than its own,
/// once, waits for each of the others, and does nothing else but to accept connections.
pub proof fn first_start_seeks_the_whitelist(manager: IrohView)
    requires
        manager.wf(),
        !manager.started,
    ensures
        ({
            let (next, commands) = manager.on_init();
            &&& next.id == manager.id
            &&& next.peers == manager.peers
            &&& commands.no_duplicates()
            &&& forall|i: int|
                0 <= i < commands.len() - 1 ==> #[trigger] commands[i] is StartDial
            &&& forall|k: PublicKey| #[trigger]
                commands.contains(IrohCommand::StartDial(k)) <==> manager.peers.contains(k)
                    && number_of(k.bytes@) <= number_of(manager.id.bytes@)
            &&& forall|k: PublicKey| #[trigger]
                next.table.contains_key(k) <==> manager.table.contains_key(k)
            &&& forall|k: PublicKey| #[trigger]
                manager.peers.contains(k) ==> next.table[k] == (if number_of(k.bytes@)
                    <= number_of(manager.id.bytes@) {
                    ConnectionState::Connecting
                } else {
                    ConnectionState::WaitingIncomingConnection
                })
            &&& forall|k: PublicKey|
                manager.table.contains_key(k) && !manager.peers.contains(k)
                    ==> #[trigger] next.table[k] == manager.table[k]
        }),
{
    let (next, commands) = manager.on_init();
    let all = manager.seek_all(manager.peers);
    lemma_seek_all_is_dials(manager, manager.peers);
    assert forall|k: PublicKey| #[trigger]
        commands.contains(IrohCommand::StartDial(k)) <==> manager.peers.contains(k) && number_of(
            k.bytes@,
        ) <= number_of(manager.id.bytes@) by {
        lemma_started_dials(manager, k);
        key_order_is_numeric(manager.id, k);
    }
    assert forall|k: PublicKey| #[trigger] manager.peers.contains(k) implies next.table[k] == (
    if number_of(k.bytes@) <= number_of(manager.id.bytes@) {
        ConnectionState::Connecting
    } else {
        ConnectionState::WaitingIncomingConnection
    }) by {
        key_order_is_numeric(manager.id, k);
    }
    assert forall|k: PublicKey| #[trigger]
        next.table.contains_key(k) <==> manager.table.contains_key(k) by {
        if manager.peers.contains(k) {
            let i = choose|i: int| 0 <= i < manager.peers.len() && manager.peers[i] == k;
            assert(manager.table.contains_key(manager.peers[i]));
        }
    }
}

/// Seeking connections is dialling, each peer once.
proof fn lemma_seek_all_is_dials(manager: IrohView, peers: Seq<PublicKey>)
    requires
        peers.no_duplicates(),
    ensures
        manager.seek_all(peers).no_duplicates(),
        forall|i: int|
            0 <= i < manager.seek_all(peers).len() ==> #[trigger] manager.seek_all(peers)[i]
                is StartDial,
    decreases peers.len(),
{
    if peers.len() > 0 {
        let some = peers.drop_last();
        let last = peers.last();
        lemma_seek_all_is_dials(manager, some);
        lemma_seek_all_dials(manager, some, last);
        let before = manager.seek_all(some);
        let after = manager.seek_all(peers);
        if dialled(before, last) {
            let j = choose|j: int| 0 <= j < some.len() && some[j] == last;
            assert(peers[j] == peers[peers.len() - 1]);
        }
        assert forall|i: int, j: int| 0 <= i < after.len() && 0 <= j < after.len() && i
            != j implies after[i] != after[j] by {
            if i < before.len() {
                assert(before.contains(before[i]));
            }
            if j < before.len() {
                assert(before.contains(before[j]));
            }
        }
    }
}

/// A manager that was started is not disturbed by another start: no state changes, no connection is
/// given up, and nobody is dialled.
pub proof fn starting_again_changes_nothing(manager: IrohView)
    ensures
        manager.on_init().0.started,
        manager.on_init().0.on_init() == (
            manager.on_init().0,
            seq![IrohCommand::StartAccepting],
        ),
{
}

/// Whether the commands have the peer dialled.
pub open spec fn dialled(commands: Seq<IrohCommand>, peer: PublicKey) -> bool {
    commands.contains(IrohCommand::StartDial(peer))
}

/// Of some peers, those are dialled that are to be dialled.
proof fn lemma_seek_all_dials(manager: IrohView, peers: Seq<PublicKey>, peer: PublicKey)
    ensures
        dialled(manager.seek_all(peers), peer) <==> peers.contains(peer) && manager.dials(peer),
    decreases peers.len(),
{
    if peers.len() > 0 {
        let some = peers.drop_last();
        let last = peers.last();
        let before = manager.seek_all(some);
        let after = manager.seek_all(peers);
        lemma_seek_all_dials(manager, some, peer);
        if dialled(before, peer) {
            let i = choose|i: int|
                0 <= i < before.len() && before[i] == IrohCommand::StartDial(peer);
            assert(after[i] == IrohCommand::StartDial(peer));
            let j = choose|j: int| 0 <= j < some.len() && some[j] == peer;
            assert(peers[j] == peer);
        }
        if last == peer {
            assert(peers[peers.len() - 1] == peer);
            if manager.dials(peer) {
                assert(after[after.len() - 1] == IrohCommand::StartDial(peer));
            }
        }
        if dialled(after, peer) && !dialled(before, peer) {
            let i = choose|i: int| 0 <= i < after.len() && after[i] == IrohCommand::StartDial(peer);
            if i < before.len() {
                assert(before[i] == IrohCommand::StartDial(peer));
            }
        }
        if peers.contains(peer) && last != peer {
            let j = choose|j: int| 0 <= j < peers.len() && peers[j] == peer;
            assert(some[j] == peer);
        }
    }
}

/// Whether one node dials the other, which waits, and both take the connection into service: they
/// tell their coordinators and start to serve it.
pub open spec fn link_comes_back(
    dialler: IrohView,
    dialler_commands: Seq<IrohCommand>,
    waiter: IrohView,
    waiter_commands: Seq<IrohCommand>,
) -> bool {
    &&& dialled(dialler_commands, waiter.id)
    &&& !dialled(waiter_commands, dialler.id)
    &&& forall|c: u64|
        #![trigger dialler.on_outgoing(waiter.id, c)]
        ({
            let (next, commands) = dialler.on_outgoing(waiter.id, c);
            &&& next.table.contains_key(waiter.id)
            &&& next.table[waiter.id] == ConnectionState::Connected { connection: c }
            &&& commands == seq![
                IrohCommand::Notify(IrohEvent::ConnectedToPeer(waiter.id)),
                IrohCommand::StartSession { peer: waiter.id, connection: c },
            ]
        })
    &&& forall|c: u64|
        #![trigger waiter.on_incoming(dialler.id, c)]
        ({
            let (next, commands) = waiter.on_incoming(dialler.id, c);
            &&& next.table.contains_key(dialler.id)
            &&& next.table[dialler.id] == ConnectionState::Connected { connection: c }
            &&& commands == seq![
                IrohCommand::Notify(IrohEvent::ConnectedToPeer(dialler.id)),
                IrohCommand::StartSession { peer: dialler.id, connection: c },
            ]
        })
}

/// Whether one node dials the other, which waits and starts to accept connections, and both take the
/// connection into service.
pub open spec fn link_comes_up(
    dialler: IrohView,
    dialler_commands: Seq<IrohCommand>,
    waiter: IrohView,
    waiter_commands: Seq<IrohCommand>,
) -> bool {
    &&& waiter_commands.contains(IrohCommand::StartAccepting)
    &&& link_comes_back(dialler, dialler_commands, waiter, waiter_commands)
}

/// Two nodes that whitelist each other get a tunnel: once both have started, one dials and the other
/// waits, and both take the connection into service.
pub proof fn mesh_links_come_up(a: IrohView, b: IrohView)
    requires
        !a.started,
        !b.started,
        a.id != b.id,
        a.peers.contains(b.id),
        b.peers.contains(a.id),
    ensures
        ({
            let (a_next, a_commands) = a.on_init();
            let (b_next, b_commands) = b.on_init();
            if a.dials(b.id) {
                link_comes_up(a_next, a_commands, b_next, b_commands)
            } else {
                link_comes_up(b_next, b_commands, a_next, a_commands)
            }
        }),
{
    exactly_one_side_dials(a, b);
    lemma_started_dials(a, b.id);
    lemma_started_dials(b, a.id);
    every_start_accepts(a);
    every_start_accepts(b);
}

/// A manager that starts dials the whitelisted peers that it is to dial.
proof fn lemma_started_dials(manager: IrohView, peer: PublicKey)
    requires
        !manager.started,
    ensures
        dialled(manager.on_init().1, peer) <==> manager.peers.contains(peer) && manager.dials(peer),
{
    let all = manager.seek_all(manager.peers);
    let commands = manager.on_init().1;
    lemma_seek_all_dials(manager, manager.peers, peer);
    if dialled(all, peer) {
        let i = choose|i: int| 0 <= i < all.len() && all[i] == IrohCommand::StartDial(peer);
        assert(commands[i] == IrohCommand::StartDial(peer));
    }
    if dialled(commands, peer) {
        let i = choose|i: int|
            0 <= i < commands.len() && commands[i] == IrohCommand::StartDial(peer);
        assert(all[i] == IrohCommand::StartDial(peer));
    }
}

/// Two nodes that lose the tunnel between them get a new one: once both have noticed, one dials and
/// the other, which has accepted connections since its start, waits as it did then.
pub proof fn lost_links_come_back(a: IrohView, b: IrohView)
    requires
        a.id != b.id,
        a.table.contains_key(b.id),
        a.table[b.id] is Connected,
        b.table.contains_key(a.id),
        b.table[a.id] is Connected,
    ensures
        ({
            let (a_next, a_commands) = a.on_disconnected(b.id);
            let (b_next, b_commands) = b.on_disconnected(a.id);
            if a.dials(b.id) {
                link_comes_back(a_next, a_commands, b_next, b_commands)
            } else {
                link_comes_back(b_next, b_commands, a_next, a_commands)
            }
        }),
{
    exactly_one_side_dials(a, b);
    if a.dials(b.id) {
        assert(a.on_disconnected(b.id).1[1] == IrohCommand::StartDial(b.id));
    } else {
        assert(b.on_disconnected(a.id).1[1] == IrohCommand::StartDial(a.id));
    }
}

/// Whether the connection serves some peer.
pub open spec fn in_service(manager: IrohView, connection: u64) -> bool {
    exists|k: PublicKey| #[trigger]
        manager.table.contains_key(k) && manager.table[k] == ConnectionState::Connected { connection }
}

/// No connection serves two peers.
pub open spec fn services_are_distinct(manager: IrohView) -> bool {
    forall|a: PublicKey, b: PublicKey| #[trigger]
        manager.table.contains_key(a) && #[trigger] manager.table.contains_key(b)
            && manager.table[a] is Connected && manager.table[a] == manager.table[b] ==> a == b
}

/// The connection that an input brings, if it brings one.
pub open spec fn offered(input: IrohInput) -> Option<u64> {
    match input {
        IrohInput::FromTasks(
            Some(ConnectionEvent::OutgoingConnection { peer, connection }),
        ) => Some(connection),
        IrohInput::FromTasks(
            Some(ConnectionEvent::IncomingConnection { peer, connection }),
        ) => Some(connection),
        _ => None,
    }
}

/// Whether the commands end the connection.
pub open spec fn ends(commands: Seq<IrohCommand>, connection: u64) -> bool {
    exists|i: int|
        0 <= i < commands.len() && match #[trigger] commands[i] {
            IrohCommand::Close { connection: c, .. } => c == connection,
            IrohCommand::Release { connection: c } => c == connection,
            _ => false,
        }
}

/// Whoever dials and however often, each peer has one tunnel at most: the connections in service are
/// at any time those that were brought and not ended, each serves one peer, and a new one either is
/// ended at once or takes the place of the old one, which is ended.
pub proof fn one_tunnel_per_peer(manager: IrohView, input: IrohInput)
    requires
        manager.wf(),
        services_are_distinct(manager),
        offered(input) matches Some(c) ==> !in_service(manager, c),
    ensures
        manager.on_input(input) matches Ok((next, commands)) ==> {
            &&& services_are_distinct(next)
            &&& forall|c: u64| #[trigger]
                in_service(next, c) <==> (in_service(manager, c) || offered(input) == Some(c))
                    && !ends(commands, c)
        },
{
    if let Ok((next, commands)) = manager.on_input(input) {
        match input {
            IrohInput::FromTasks(Some(event)) => match event {
                ConnectionEvent::OutgoingConnection { peer, connection } => {
                    lemma_offer(manager, next, commands, peer, connection);
                },
                ConnectionEvent::IncomingConnection { peer, connection } => {
                    lemma_offer(manager, next, commands, peer, connection);
                },
                ConnectionEvent::Disconnected(peer) => {
                    lemma_loss(manager, next, commands, peer);
                },
                ConnectionEvent::InternalError => {},
            },
            IrohInput::FromCoordinator(Some(event)) => match event {
                CoreAction::SendPacketTo(packet, to) => {
                    assert forall|c: u64| !ends(commands, c) by {}
                },
                CoreAction::ConnectToPeer(peer) => {
                    lemma_loss(manager, next, commands, peer);
                },
                CoreAction::DisconnectFromPeer(peer) => {
                    lemma_loss(manager, next, commands, peer);
                },
            },
            _ => {},
        }
    }
}

/// A connection that is brought is refused, or takes the place of the old one.
proof fn lemma_offer(
    manager: IrohView,
    next: IrohView,
    commands: Seq<IrohCommand>,
    peer: PublicKey,
    connection: u64,
)
    requires
        services_are_distinct(manager),
        !in_service(manager, connection),
        (next, commands) == manager.on_outgoing(peer, connection) || (next, commands)
            == manager.on_incoming(peer, connection),
    ensures
        services_are_distinct(next),
        forall|c: u64| #[trigger]
            in_service(next, c) <==> (in_service(manager, c) || c == connection) && !ends(
                commands,
                c,
            ),
{
    if next == manager {
        assert(commands.len() == 1);
        assert(ends(commands, connection)) by {
            assert(commands[0] is Close);
        }
        assert forall|c: u64| #[trigger] in_service(next, c) <==> (in_service(manager, c) || c
            == connection) && !ends(commands, c) by {
            if ends(commands, c) {
                assert(c == connection);
            }
        }
    } else {
        let old_state = manager.table[peer];
        assert(manager.table.contains_key(peer));
        assert forall|a: PublicKey, b: PublicKey| #[trigger]
            next.table.contains_key(a) && #[trigger] next.table.contains_key(b)
                && next.table[a] is Connected && next.table[a] == next.table[b] implies a == b by {
            assert(a != peer ==> manager.table.contains_key(a));
            assert(b != peer ==> manager.table.contains_key(b));
        }
        assert(next.table.contains_key(peer));
        assert(in_service(next, connection));
        if let ConnectionState::Connected { connection: expired } = old_state {
            assert(commands[1] is Close);
            assert(ends(commands, expired));
            assert(in_service(manager, expired));
        }
        assert forall|c: u64| #[trigger] in_service(next, c) <==> (in_service(manager, c) || c
            == connection) && !ends(commands, c) by {
            if ends(commands, c) {
                assert(old_state == ConnectionState::Connected { connection: c });
            }
            if in_service(next, c) && c != connection {
                let k = choose|k: PublicKey| #[trigger]
                    next.table.contains_key(k) && next.table[k] == ConnectionState::Connected {
                        connection: c,
                    };
                assert(manager.table.contains_key(k));
            }
            if in_service(manager, c) && !ends(commands, c) {
                let k = choose|k: PublicKey| #[trigger]
                    manager.table.contains_key(k) && manager.table[k]
                        == ConnectionState::Connected { connection: c };
                assert(next.table.contains_key(k));
            }
        }
    }
}

/// A peer that loses its connection loses it for good.
proof fn lemma_loss(
    manager: IrohView,
    next: IrohView,
    commands: Seq<IrohCommand>,
    peer: PublicKey,
)
    requires
        services_are_distinct(manager),
        (next, commands) == manager.on_disconnected(peer) || (next, commands)
            == manager.on_core_event(CoreAction::ConnectToPeer(peer)) || (next, commands)
            == manager.on_core_event(CoreAction::DisconnectFromPeer(peer)),
    ensures
        services_are_distinct(next),
        forall|c: u64| #[trigger]
            in_service(next, c) <==> in_service(manager, c) && !ends(commands, c),
{
    assert forall|a: PublicKey, b: PublicKey| #[trigger]
        next.table.contains_key(a) && #[trigger] next.table.contains_key(b) && next.table[a]
            is Connected && next.table[a] == next.table[b] implies a == b by {
        assert(manager.table.contains_key(a));
        assert(manager.table.contains_key(b));
    }
    if manager.table.contains_key(peer) && next != manager {
        if let ConnectionState::Connected { connection } = manager.table[peer] {
            assert(in_service(manager, connection));
            if (next, commands) == manager.on_disconnected(peer) {
                assert(commands[commands.len() - 1] == IrohCommand::Release { connection });
            } else {
                assert(commands[1] is Close);
            }
            assert(ends(commands, connection));
        }
    }
    assert forall|c: u64| #[trigger]
        in_service(next, c) <==> in_service(manager, c) && !ends(commands, c) by {
        if ends(commands, c) {
            assert(manager.table.contains_key(peer));
            assert(manager.table[peer] == ConnectionState::Connected { connection: c });
        }
        if in_service(next, c) {
            let k = choose|k: PublicKey| #[trigger]
                next.table.contains_key(k) && next.table[k] == ConnectionState::Connected {
                    connection: c,
                };
            assert(manager.table.contains_key(k));
        }
        if in_service(manager, c) && !ends(commands, c) {
            let k = choose|k: PublicKey| #[trigger]
                manager.table.contains_key(k) && manager.table[k] == ConnectionState::Connected {
                    connection: c,
                };
            assert(next.table.contains_key(k));
        }
    }
}

/// How a connection with a peer is taken or refused: it is taken where the peer is sought that way,
/// and where there is one already, which then ends. It is refused otherwise, for the reason that
/// holds. The states of other peers stay.
pub open spec fn settles_offer(
    manager: IrohView,
    peer: PublicKey,
    connection: u64,
    sought: ConnectionState,
    replaced: CloseReason,
    next: IrohView,
    commands: Seq<IrohCommand>,
) -> bool {
    let known = manager.table.contains_key(peer);
    let refusal = if !known {
        CloseReason::UnknownPeer
    } else if manager.table[peer] is Disconnected {
        CloseReason::NotNow
    } else {
        CloseReason::KeyOrderViolated
    };
    &&& known && manager.table[peer] == sought ==> {
        &&& next.table == manager.table.insert(peer, ConnectionState::Connected { connection })
        &&& commands == seq![
            IrohCommand::Notify(IrohEvent::ConnectedToPeer(peer)),
            IrohCommand::StartSession { peer, connection },
        ]
    }
    &&& known && manager.table[peer] is Connected ==> {
        let old = manager.table[peer]->connection;
        &&& next.table == manager.table.insert(peer, ConnectionState::Connected { connection })
        &&& commands == seq![
            IrohCommand::AbortSession { connection: old },
            IrohCommand::Close { connection: old, reason: replaced },
            IrohCommand::Notify(IrohEvent::ConnectedToPeer(peer)),
            IrohCommand::StartSession { peer, connection },
        ]
    }
    &&& !(known && (manager.table[peer] == sought || manager.table[peer] is Connected)) ==> {
        &&& next == manager
        &&& commands == seq![IrohCommand::Close { connection, reason: refusal }]
    }
}

/// A connection that this node has dialled is taken where the peer is being dialled, one that the
/// peer has dialled where it is waited for; a new one takes the place of an old one; and any other is
/// closed at once, with the reason.
pub proof fn offers_are_settled(manager: IrohView, peer: PublicKey, connection: u64)
    ensures
        manager.on_input(
            IrohInput::FromTasks(
                Some(ConnectionEvent::OutgoingConnection { peer, connection }),
            ),
        ) matches Ok((next, commands)) && settles_offer(
            manager,
            peer,
            connection,
            ConnectionState::Connecting,
            CloseReason::DataRace,
            next,
            commands,
        ),
        manager.on_input(
            IrohInput::FromTasks(
                Some(ConnectionEvent::IncomingConnection { peer, connection }),
            ),
        ) matches Ok((next, commands)) && settles_offer(
            manager,
            peer,
            connection,
            ConnectionState::WaitingIncomingConnection,
            CloseReason::Replaced,
            next,
            commands,
        ),
{
    let out = manager.on_outgoing(peer, connection);
    let inc = manager.on_incoming(peer, connection);
    if manager.table.contains_key(peer) {
        if let ConnectionState::Connected { connection: old } = manager.table[peer] {
            assert(out.1 =~= seq![
                IrohCommand::AbortSession { connection: old },
                IrohCommand::Close { connection: old, reason: CloseReason::DataRace },
                IrohCommand::Notify(IrohEvent::ConnectedToPeer(peer)),
                IrohCommand::StartSession { peer, connection },
            ]);
            assert(inc.1 =~= seq![
                IrohCommand::AbortSession { connection: old },
                IrohCommand::Close { connection: old, reason: CloseReason::Replaced },
                IrohCommand::Notify(IrohEvent::ConnectedToPeer(peer)),
                IrohCommand::StartSession { peer, connection },
            ]);
        }
    }
}

/// A connection that is lost is told to the coordinator and given up, and the peer is sought again:
/// dialled if its key is no greater than the node's own, waited for otherwise. A loss where there is
/// no connection changes nothing.
pub proof fn losses_are_made_good(manager: IrohView, peer: PublicKey)
    ensures
        manager.on_input(
            IrohInput::FromTasks(Some(ConnectionEvent::Disconnected(peer))),
        ) matches Ok((next, commands)) && {
            let known = manager.table.contains_key(peer);
            &&& !(known && manager.table[peer] is Connected) ==> next == manager && commands.len()
                == 0
            &&& known && manager.table[peer] is Connected && number_of(peer.bytes@) <= number_of(
                manager.id.bytes@,
            ) ==> {
                &&& next.table == manager.table.insert(peer, ConnectionState::Connecting)
                &&& commands == seq![
                    IrohCommand::Notify(IrohEvent::DisconnectedFromPeer(peer)),
                    IrohCommand::StartDial(peer),
                    IrohCommand::Release { connection: manager.table[peer]->connection },
                ]
            }
            &&& known && manager.table[peer] is Connected && number_of(peer.bytes@) > number_of(
                manager.id.bytes@,
            ) ==> {
                &&& next.table == manager.table.insert(
                    peer,
                    ConnectionState::WaitingIncomingConnection,
                )
                &&& commands == seq![
                    IrohCommand::Notify(IrohEvent::DisconnectedFromPeer(peer)),
                    IrohCommand::Release { connection: manager.table[peer]->connection },
                ]
            }
        },
{
    key_order_is_numeric(manager.id, peer);
    if manager.table.contains_key(peer) && manager.table[peer] is Connected {
        let commands = manager.on_disconnected(peer).1;
        let c = manager.table[peer]->connection;
        if manager.dials(peer) {
            assert(commands =~= seq![
                IrohCommand::Notify(IrohEvent::DisconnectedFromPeer(peer)),
                IrohCommand::StartDial(peer),
                IrohCommand::Release { connection: c },
            ]);
        } else {
            assert(commands =~= seq![
                IrohCommand::Notify(IrohEvent::DisconnectedFromPeer(peer)),
                IrohCommand::Release { connection: c },
            ]);
        }
    }
}

/// A packet of the coordinator goes to the connection with its peer, unchanged, and to none where
/// there is none.
pub proof fn packets_go_to_their_connection(manager: IrohView, packet: Bytes, to: PublicKey)
    ensures
        manager.on_input(
            IrohInput::FromCoordinator(Some(CoreAction::SendPacketTo(packet, to))),
        ) matches Ok((next, commands)) && {
            let linked = manager.table.contains_key(to) && manager.table[to] is Connected;
            &&& next == manager
            &&& linked ==> commands == seq![
                IrohCommand::QueuePacket { connection: manager.table[to]->connection, packet },
            ]
            &&& !linked ==> commands.len() == 0
        },
{
}

/// A peer that the coordinator wants disconnected is so afterwards: its connection is ended and that
/// is told, or it is dialled no more. Other peers stay.
pub proof fn peers_can_be_disconnected(manager: IrohView, peer: PublicKey)
    ensures
        manager.on_input(
            IrohInput::FromCoordinator(Some(CoreAction::DisconnectFromPeer(peer))),
        ) matches Ok((next, commands)) && {
            let known = manager.table.contains_key(peer);
            &&& next.table == manager.table.insert(peer, ConnectionState::Disconnected)
            &&& known && manager.table[peer] is Connected ==> commands == seq![
                IrohCommand::AbortSession { connection: manager.table[peer]->connection },
                IrohCommand::Close {
                    connection: manager.table[peer]->connection,
                    reason: CloseReason::CoreRequest,
                },
                IrohCommand::Notify(IrohEvent::DisconnectedFromPeer(peer)),
            ]
            &&& known && manager.table[peer] is Connecting ==> commands == seq![
                IrohCommand::AbortDial(peer),
            ]
            &&& !(known && (manager.table[peer] is Connected || manager.table[peer]
                is Connecting)) ==> commands.len() == 0
        },
{
    let commands = manager.on_core_event(CoreAction::DisconnectFromPeer(peer)).1;
    if manager.table.contains_key(peer) && manager.table[peer] is Connected {
        let c = manager.table[peer]->connection;
        assert(commands =~= seq![
            IrohCommand::AbortSession { connection: c },
            IrohCommand::Close { connection: c, reason: CloseReason::CoreRequest },
            IrohCommand::Notify(IrohEvent::DisconnectedFromPeer(peer)),
        ]);
    }
}

/// A peer that is disconnected and that the coordinator wants connected is sought: dialled if its key
/// is no greater than the node's own, waited for otherwise. In any other state nothing changes.
pub proof fn peers_can_be_connected(manager: IrohView, peer: PublicKey)
    ensures
        manager.on_input(
            IrohInput::FromCoordinator(Some(CoreAction::ConnectToPeer(peer))),
        ) matches Ok((next, commands)) && {
            let idle = manager.table.contains_key(peer) && manager.table[peer] is Disconnected;
            let smaller = number_of(peer.bytes@) <= number_of(manager.id.bytes@);
            &&& !idle ==> next == manager && commands.len() == 0
            &&& idle && smaller ==> next.table == manager.table.insert(
                peer,
                ConnectionState::Connecting,
            ) && commands == seq![IrohCommand::StartDial(peer)]
            &&& idle && !smaller ==> next.table == manager.table.insert(
                peer,
                ConnectionState::WaitingIncomingConnection,
            ) && commands.len() == 0
        },
{
    key_order_is_numeric(manager.id, peer);
}

/// The manager ends exactly on an internal error, or when no task or no coordinator is left to hear
/// from, and says which.
pub proof fn manager_ends_for_cause(manager: IrohView, input: IrohInput)
    ensures
        manager.on_input(input) is Err <==> input == IrohInput::FromTasks(None) || input
            == IrohInput::FromCoordinator(None) || input == IrohInput::FromTasks(
            Some(ConnectionEvent::InternalError),
        ),
        input == IrohInput::FromTasks(None) ==> manager.on_input(input)->Err_0
            == IrohStop::TasksGone,
        input == IrohInput::FromCoordinator(None) ==> manager.on_input(input)->Err_0
            == IrohStop::CoordinatorGone,
        input == IrohInput::FromTasks(Some(ConnectionEvent::InternalError)) ==> manager.on_input(
            input,
        )->Err_0 == IrohStop::InternalError,
{
}

/// Only whitelisted peers are sought or served.
pub open spec fn confined(manager: IrohView) -> bool {
    forall|k: PublicKey| #[trigger]
        manager.table.contains_key(k) && !manager.peers.contains(k)
            ==> manager.table[k] is Disconnected
}

/// Whether the coordinator asks for a connection with a peer that is not whitelisted.
pub open spec fn seeks_stranger(manager: IrohView, input: IrohInput) -> bool {
    input matches IrohInput::FromCoordinator(Some(CoreAction::ConnectToPeer(peer)))
        && !manager.peers.contains(peer)
}

/// A manager whose table has the whitelisted peers alone is confined.
pub proof fn managers_start_confined(manager: IrohView)
    requires
        forall|k: PublicKey| #[trigger]
            manager.table.contains_key(k) ==> manager.peers.contains(k),
    ensures
        confined(manager),
        confined(manager.on_init().0),
{
    let started = manager.on_init().0;
    assert forall|k: PublicKey| #[trigger]
        started.table.contains_key(k) && !started.peers.contains(k) implies started.table[k]
        is Disconnected by {
        assert(manager.table.contains_key(k));
    }
}

/// Unless the coordinator asks for it, no peer that is not whitelisted is sought or served, and a
/// connection with one is closed at once.
pub proof fn strangers_get_no_tunnel(manager: IrohView, input: IrohInput)
    requires
        manager.wf(),
        confined(manager),
        !seeks_stranger(manager, input),
    ensures
        manager.on_input(input) matches Ok((next, _)) ==> confined(next),
        input matches IrohInput::FromTasks(
            Some(ConnectionEvent::OutgoingConnection { peer, connection }),
        ) ==> !manager.peers.contains(peer) ==> exists|reason: CloseReason|
            manager.on_input(input) == Ok::<(IrohView, Seq<IrohCommand>), IrohStop>(
                (manager, #[trigger] crate::iroh::refuse(connection, reason)),
            ),
        input matches IrohInput::FromTasks(
            Some(ConnectionEvent::IncomingConnection { peer, connection }),
        ) ==> !manager.peers.contains(peer) ==> exists|reason: CloseReason|
            manager.on_input(input) == Ok::<(IrohView, Seq<IrohCommand>), IrohStop>(
                (manager, #[trigger] crate::iroh::refuse(connection, reason)),
            ),
{
    if let Ok((next, commands)) = manager.on_input(input) {
        assert forall|k: PublicKey| #[trigger]
            next.table.contains_key(k) && !next.peers.contains(k) implies next.table[k]
            is Disconnected by {
            if manager.table.contains_key(k) {
                assert(manager.table[k] is Disconnected);
            }
        }
    }
    match input {
        IrohInput::FromTasks(Some(ConnectionEvent::OutgoingConnection { peer, connection })) => {
            if !manager.peers.contains(peer) {
                let reason = if manager.table.contains_key(peer) {
                    CloseReason::NotNow
                } else {
                    CloseReason::UnknownPeer
                };
                assert(manager.on_outgoing(peer, connection) == (
                    manager,
                    crate::iroh::refuse(connection, reason),
                ));
            }
        },
        IrohInput::FromTasks(Some(ConnectionEvent::IncomingConnection { peer, connection })) => {
            if !manager.peers.contains(peer) {
                let reason = if manager.table.contains_key(peer) {
                    CloseReason::NotNow
                } else {
                    CloseReason::UnknownPeer
                };
                assert(manager.on_incoming(peer, connection) == (
                    manager,
                    crate::iroh::refuse(connection, reason),
                ));
            }
        },
        _ => {},
    }
}

// ---- the core and the manager together ----

/// Whatever happens, the coordinator asks the manager for no connection, so none with a peer that is
/// not whitelisted.
pub proof fn coordinator_seeks_no_stranger(
    core: CoreView,
    manager: IrohView,
    event: Event,
    i: int,
)
    requires
        0 <= i < core.process(event).1.len(),
    ensures
        match dispatch_of(core.process(event).1[i]) {
            Dispatch::SendToIroh(ask) => !seeks_stranger(
                manager,
                IrohInput::FromCoordinator(Some(ask)),
            ),
            Dispatch::TrySendToIroh(ask) => !seeks_stranger(
                manager,
                IrohInput::FromCoordinator(Some(ask)),
            ),
            _ => true,
        },
{
}

/// The core and the manager have the same whitelist.
pub open spec fn whitelists_agree(core: CoreView, manager: IrohView) -> bool {
    forall|k: PublicKey| #[trigger] core.whitelisted(k) <==> manager.peers.contains(k)
}

/// The core takes for connected the peers that the manager has a connection with.
pub open spec fn in_step(core: CoreView, manager: IrohView) -> bool {
    forall|k: PublicKey| #[trigger]
        core.whitelisted(k) ==> (core.peers[k].is_connected <==> manager.table.contains_key(k)
            && manager.table[k] is Connected)
}

/// A core with no peer connected is in step with a manager that has no connection yet, before and
/// after the manager starts.
pub proof fn nodes_start_in_step(core: CoreView, manager: IrohView)
    requires
        core.wf(),
        forall|k: PublicKey| #[trigger]
            core.peers.contains_key(k) ==> !core.peers[k].is_connected,
        forall|k: PublicKey| #[trigger]
            manager.table.contains_key(k) ==> manager.table[k] is Disconnected,
    ensures
        in_step(core, manager),
        in_step(core, manager.on_init().0),
        after_news(core, manager.on_init().1) == core,
{
    assert forall|k: PublicKey| core.whitelisted(k) implies !(
    #[trigger] core.peers[k].is_connected) by {
        assert(core.peers.contains_key(k));
    }
    let started = manager.on_init().0;
    assert forall|k: PublicKey| #[trigger] started.table.contains_key(k) implies !(started.table[k]
        is Connected) by {
        if !manager.peers.contains(k) {
            assert(manager.table.contains_key(k));
        }
    }
    lemma_seeking_is_silent(manager, manager.peers);
    lemma_no_news(core, manager.on_init().1);
}

/// Seeking connections tells nothing.
proof fn lemma_seeking_is_silent(manager: IrohView, peers: Seq<PublicKey>)
    ensures
        forall|i: int|
            0 <= i < manager.seek_all(peers).len() ==> !(#[trigger] manager.seek_all(peers)[i]
                is Notify),
    decreases peers.len(),
{
    if peers.len() > 0 {
        lemma_seeking_is_silent(manager, peers.drop_last());
    }
}

/// The core after the coordinator has handed it what the commands tell.
pub open spec fn after_news(core: CoreView, commands: Seq<IrohCommand>) -> CoreView
    decreases commands.len(),
{
    if commands.len() == 0 {
        core
    } else {
        let before = after_news(core, commands.drop_last());
        match commands.last() {
            IrohCommand::Notify(event) => before.process(core_event(event)).0,
            _ => before,
        }
    }
}

/// Commands that tell nothing change nothing.
proof fn lemma_no_news(core: CoreView, commands: Seq<IrohCommand>)
    requires
        forall|i: int| 0 <= i < commands.len() ==> !(#[trigger] commands[i] is Notify),
    ensures
        after_news(core, commands) == core,
    decreases commands.len(),
{
    if commands.len() > 0 {
        assert(!(commands[commands.len() - 1] is Notify));
        assert forall|i: int| 0 <= i < commands.drop_last().len() implies !(
        #[trigger] commands.drop_last()[i] is Notify) by {
            assert(!(commands[i] is Notify));
        }
        lemma_no_news(core, commands.drop_last());
    }
}

/// Commands that tell one thing tell the core that.
proof fn lemma_one_news(core: CoreView, commands: Seq<IrohCommand>, at: int)
    requires
        0 <= at < commands.len(),
        commands[at] is Notify,
        forall|i: int|
            0 <= i < commands.len() && i != at ==> !(#[trigger] commands[i] is Notify),
    ensures
        after_news(core, commands) == core.process(
            core_event(commands[at]->Notify_0),
        ).0,
    decreases commands.len(),
{
    let some = commands.drop_last();
    if at == commands.len() - 1 {
        assert forall|i: int| 0 <= i < some.len() implies !(#[trigger] some[i] is Notify) by {
            assert(!(commands[i] is Notify));
        }
        lemma_no_news(core, some);
    } else {
        assert(!(commands[commands.len() - 1] is Notify));
        assert(some[at] == commands[at]);
        assert forall|i: int| 0 <= i < some.len() && i != at implies !(#[trigger] some[i]
            is Notify) by {
            assert(!(commands[i] is Notify));
        }
        lemma_one_news(core, some, at);
    }
}

/// The core knows which peers are connected: once it has heard what the manager tells, it takes for
/// connected the peers that the manager has a connection with.
pub proof fn core_keeps_in_step(core: CoreView, manager: IrohView, input: IrohInput)
    requires
        core.wf(),
        manager.wf(),
        confined(manager),
        whitelists_agree(core, manager),
        in_step(core, manager),
        !seeks_stranger(manager, input),
    ensures
        manager.on_input(input) matches Ok((next, commands)) ==> {
            &&& after_news(core, commands).wf()
            &&& whitelists_agree(after_news(core, commands), next)
            &&& in_step(after_news(core, commands), next)
        },
{
    if let Ok((next, commands)) = manager.on_input(input) {
        let later = after_news(core, commands);
        let told: Option<(PublicKey, bool)> = match input {
            IrohInput::FromTasks(
                Some(ConnectionEvent::OutgoingConnection { peer, connection }),
            ) => if manager.table.contains_key(peer) && (manager.table[peer] is Connecting
                || manager.table[peer] is Connected) {
                Some((peer, true))
            } else {
                None
            },
            IrohInput::FromTasks(
                Some(ConnectionEvent::IncomingConnection { peer, connection }),
            ) => if manager.table.contains_key(peer) && (manager.table[peer]
                is WaitingIncomingConnection || manager.table[peer] is Connected) {
                Some((peer, true))
            } else {
                None
            },
            IrohInput::FromTasks(Some(ConnectionEvent::Disconnected(peer))) => {
                if manager.table.contains_key(peer) && manager.table[peer] is Connected {
                    Some((peer, false))
                } else {
                    None
                }
            },
            IrohInput::FromCoordinator(Some(CoreAction::DisconnectFromPeer(peer))) => {
                if manager.table.contains_key(peer) && manager.table[peer] is Connected {
                    Some((peer, false))
                } else {
                    None
                }
            },
            _ => None,
        };
        match told {
            None => {
                assert(forall|i: int|
                    0 <= i < commands.len() ==> !(#[trigger] commands[i] is Notify));
                lemma_no_news(core, commands);
            },
            Some((peer, true)) => {
                let at = commands.len() - 2;
                assert(commands[at] == IrohCommand::Notify(IrohEvent::ConnectedToPeer(peer)));
                lemma_one_news(core, commands, at);
                assert(later == core.process(Event::PeerConnected(peer)).0);
                core_keeps_its_invariant(core, Event::PeerConnected(peer));
                connection_news_are_idempotent(core, peer);
            },
            Some((peer, false)) => {
                let at: int = if input is FromTasks {
                    0
                } else {
                    2
                };
                assert(commands[at] == IrohCommand::Notify(IrohEvent::DisconnectedFromPeer(peer)));
                lemma_one_news(core, commands, at);
                assert(later == core.process(Event::PeerDisconnected(peer)).0);
                core_keeps_its_invariant(core, Event::PeerDisconnected(peer));
                connection_news_are_idempotent(core, peer);
            },
        }
        assert forall|k: PublicKey| #[trigger] later.whitelisted(k) <==> next.peers.contains(k) by {
            assert(core.whitelisted(k) <==> manager.peers.contains(k));
        }
        assert forall|k: PublicKey| #[trigger] later.whitelisted(k) implies (
        later.peers[k].is_connected <==> next.table.contains_key(k) && next.table[k]
            is Connected) by {
            assert(core.whitelisted(k));
        }
    }
}

/// While the core is in step with the manager, a packet that the core sends to a peer is handed to
/// the connection with that peer.
pub proof fn sent_packets_find_their_tunnel(
    core: CoreView,
    manager: IrohView,
    packet: Bytes,
    to: PublicKey,
)
    requires
        core.wf(),
        in_step(core, manager),
        core.process(Event::PacketFromTun(packet)).1.contains(Action::SendPacketTo(packet, to)),
    ensures
        manager.table.contains_key(to),
        manager.table[to] is Connected,
        manager.on_core_event(CoreAction::SendPacketTo(packet, to)).1 == seq![
            IrohCommand::QueuePacket { connection: manager.table[to]->connection, packet },
        ],
{
    only_checked_packets_leave(core, Event::PacketFromTun(packet), packet, to);
    let actions = core.process(Event::PacketFromTun(packet)).1;
    let i = choose|i: int| 0 <= i < actions.len() && actions[i] == Action::SendPacketTo(packet, to);
    assert(actions[i] == Action::SendPacketTo(packet, to));
    assert(core.whitelisted(to));
}

} // verus!
