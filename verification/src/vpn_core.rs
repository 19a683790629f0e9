//! The routing core: which packets pass, which are dropped, and which wait for a connection.
use bytes::Bytes;
use std::collections::VecDeque;
use vstd::prelude::*;

use crate::addr::Ipv4Addr;
use crate::key::{KeyOrder, PublicKey};
use crate::key_map::KeyMap;
use crate::octets::{octets, octets_of};
use crate::packet::ipv4::{Ipv4Packet, ParseError};
use crate::route::RouteTable;
use crate::text::decimal;
use crate::text::decimal_text;

verus! {

/// How many packets wait for one peer at most.
pub const MAX_PACKETS_IN_QUEUE: usize = 1000;

/// The routing core of a node.
pub struct VpnCore {
    max_packet_size: usize,
    ipv4_addr: Ipv4Addr,
    peers: KeyMap<PeerState>,
    route_table: RouteTable,
}

/// What the core remembers of a peer.
pub struct PeerState {
    pub is_connected: bool,
    pub ipv4_addr: Ipv4Addr,
    pub packet_queue: VecDeque<Bytes>,
}

/// What happened to the node.
#[derive(Debug, PartialEq)]
pub enum Event {
    PeerConnected(PublicKey),
    PeerDisconnected(PublicKey),
    PacketFromIroh(Bytes, PublicKey),
    PacketFromTun(Bytes),
}

/// What the node is to do.
#[derive(Debug, PartialEq)]
pub enum Action {
    ConnectToPeer(PublicKey),
    DisconnectFromPeer(PublicKey),
    SendPacketTo(Bytes, PublicKey),
    WriteToTun(Bytes),
    NoAction(LogEvent),
}

/// Why there is nothing to do.
#[derive(Clone, Copy, Debug, PartialEq, Eq, Structural)]
pub enum LogEvent {
    UnknownPeer,
    AlreadyConnected,
    AlreadyDisconnected,
    SendPacketError(SendPacketError),
    RecvPacketError(RecvPacketError),
    ConnectionNotOpen,
    InternalStateError,
    PacketBuffered,
    PacketQueueOverflow,
}

/// Why an outgoing packet is dropped.
#[derive(Clone, Copy, Debug, PartialEq, Eq, Structural)]
pub enum SendPacketError {
    IncorrectSrcIp,
    UnknownDestIp,
    MtuError,
    IncorrectTTL,
    BrokenLength,
    ParseError(ParseError),
}

/// Why an incoming packet is dropped.
#[derive(Clone, Copy, Debug, PartialEq, Eq, Structural)]
pub enum RecvPacketError {
    UnknownSrcIp,
    IncorrectDestIp,
    MtuError,
    Spoofing,
    BrokenLength,
    ParseError(ParseError),
}

impl SendPacketError {
    /// What went wrong, for a reader.
    pub open spec fn text(self) -> Seq<char> {
        match self {
            SendPacketError::IncorrectSrcIp => "source IP does not match the assigned tun IP"@,
            SendPacketError::UnknownDestIp => "destination IP is not found in the routing table"@,
            SendPacketError::MtuError => "packet length exceeds the MTU limit"@,
            SendPacketError::IncorrectTTL => "TTL is 0 or invalid"@,
            SendPacketError::BrokenLength => "incorrect length of packet"@,
            SendPacketError::ParseError(e) => "packet parse error: "@ + e.text(),
        }
    }

    /// What went wrong, for a reader.
    pub fn message(&self) -> (s: String)
        ensures
            s@ == self.text(),
    {
        match self {
            SendPacketError::IncorrectSrcIp => {
                "source IP does not match the assigned tun IP".to_owned()
            },
            SendPacketError::UnknownDestIp => {
                "destination IP is not found in the routing table".to_owned()
            },
            SendPacketError::MtuError => "packet length exceeds the MTU limit".to_owned(),
            SendPacketError::IncorrectTTL => "TTL is 0 or invalid".to_owned(),
            SendPacketError::BrokenLength => "incorrect length of packet".to_owned(),
            SendPacketError::ParseError(e) => {
                "packet parse error: ".to_owned().concat(e.message().as_str())
            },
        }
    }
}

impl RecvPacketError {
    /// What went wrong, for a reader.
    pub open spec fn text(self) -> Seq<char> {
        match self {
            RecvPacketError::UnknownSrcIp => "source IP is not found in the routing table"@,
            RecvPacketError::IncorrectDestIp => "destination IP does not match local tun IP"@,
            RecvPacketError::MtuError => "received packet length exceeds the MTU limit"@,
            RecvPacketError::Spoofing => {
                "anti-spoofing triggered: Source IP does not match the sender's public key"@
            },
            RecvPacketError::BrokenLength => "incorrect length of packet"@,
            RecvPacketError::ParseError(e) => "packet parse error: "@ + e.text(),
        }
    }

    /// What went wrong, for a reader.
    pub fn message(&self) -> (s: String)
        ensures
            s@ == self.text(),
    {
        match self {
            RecvPacketError::UnknownSrcIp => {
                "source IP is not found in the routing table".to_owned()
            },
            RecvPacketError::IncorrectDestIp => {
                "destination IP does not match local tun IP".to_owned()
            },
            RecvPacketError::MtuError => "received packet length exceeds the MTU limit".to_owned(),
            RecvPacketError::Spoofing => {
                "anti-spoofing triggered: Source IP does not match the sender's public key".to_owned()
            },
            RecvPacketError::BrokenLength => "incorrect length of packet".to_owned(),
            RecvPacketError::ParseError(e) => {
                "packet parse error: ".to_owned().concat(e.message().as_str())
            },
        }
    }
}

impl LogEvent {
    /// The reason, for a reader.
    pub open spec fn text(self) -> Seq<char> {
        match self {
            LogEvent::UnknownPeer => "Unknown peer"@,
            LogEvent::AlreadyConnected => "Peers are already connected"@,
            LogEvent::AlreadyDisconnected => "Peers are already disconnected"@,
            LogEvent::SendPacketError(e) => "Dropped outgoing packet: "@ + e.text(),
            LogEvent::RecvPacketError(e) => "Dropped incoming packet: "@ + e.text(),
            LogEvent::ConnectionNotOpen => "Connection is not open"@,
            LogEvent::InternalStateError => "Internal State Error"@,
            LogEvent::PacketBuffered => "Packet buffered (connection is not open yet)"@,
            LogEvent::PacketQueueOverflow => "Queue overflow: oldest packet dropped"@,
        }
    }

    /// The reason, for a reader.
    pub fn message(&self) -> (s: String)
        ensures
            s@ == self.text(),
    {
        match self {
            LogEvent::UnknownPeer => "Unknown peer".to_owned(),
            LogEvent::AlreadyConnected => "Peers are already connected".to_owned(),
            LogEvent::AlreadyDisconnected => "Peers are already disconnected".to_owned(),
            LogEvent::SendPacketError(e) => {
                "Dropped outgoing packet: ".to_owned().concat(e.message().as_str())
            },
            LogEvent::RecvPacketError(e) => {
                "Dropped incoming packet: ".to_owned().concat(e.message().as_str())
            },
            LogEvent::ConnectionNotOpen => "Connection is not open".to_owned(),
            LogEvent::InternalStateError => "Internal State Error".to_owned(),
            LogEvent::PacketBuffered => "Packet buffered (connection is not open yet)".to_owned(),
            LogEvent::PacketQueueOverflow => "Queue overflow: oldest packet dropped".to_owned(),
        }
    }
}

impl Action {
    /// What is to be done, for a reader.
    pub open spec fn text(self) -> Seq<char> {
        match self {
            Action::ConnectToPeer(pub_key) => "Connect to: "@ + pub_key.text(),
            Action::DisconnectFromPeer(pub_key) => "Disconnect from: "@ + pub_key.text(),
            Action::SendPacketTo(packet, pub_key) => "Send "@ + decimal(octets_of(packet).len())
                + " bytes to "@ + pub_key.text(),
            Action::WriteToTun(packet) => "Write "@ + decimal(octets_of(packet).len())
                + " bytes to TUN"@,
            Action::NoAction(reason) => "Info -> "@ + reason.text(),
        }
    }

    /// What is to be done, for a reader.
    pub fn message(&self) -> (s: String)
        ensures
            s@ == self.text(),
    {
        match self {
            Action::ConnectToPeer(pub_key) => {
                "Connect to: ".to_owned().concat(pub_key.to_text().as_str())
            },
            Action::DisconnectFromPeer(pub_key) => {
                "Disconnect from: ".to_owned().concat(pub_key.to_text().as_str())
            },
            Action::SendPacketTo(packet, pub_key) => {
                let mut s = "Send ".to_owned();
                s.append(decimal_text(octets(packet).len() as u64).as_str());
                s.append(" bytes to ");
                s.append(pub_key.to_text().as_str());
                s
            },
            Action::WriteToTun(packet) => {
                let mut s = "Write ".to_owned();
                s.append(decimal_text(octets(packet).len() as u64).as_str());
                s.append(" bytes to TUN");
                s
            },
            Action::NoAction(reason) => "Info -> ".to_owned().concat(reason.message().as_str()),
        }
    }
}

/// A peer as the contracts see it.
pub struct PeerView {
    pub is_connected: bool,
    pub ipv4_addr: Ipv4Addr,
    pub packet_queue: Seq<Bytes>,
}

/// The core as the contracts see it.
pub struct CoreView {
    pub max_packet_size: usize,
    pub ipv4_addr: Ipv4Addr,
    pub peers: Map<PublicKey, PeerView>,
    pub route_table: Map<Ipv4Addr, PublicKey>,
}

impl View for PeerState {
    type V = PeerView;

    open spec fn view(&self) -> PeerView {
        PeerView {
            is_connected: self.is_connected,
            ipv4_addr: self.ipv4_addr,
            packet_queue: self.packet_queue@,
        }
    }
}

impl View for VpnCore {
    type V = CoreView;

    closed spec fn view(&self) -> CoreView {
        CoreView {
            max_packet_size: self.max_packet_size,
            ipv4_addr: self.ipv4_addr,
            peers: self.peers@.map_values(|p: PeerState| p@),
            route_table: self.route_table@,
        }
    }
}

impl PeerView {
    /// A peer that was just connected: nothing waits for it.
    pub open spec fn connected(self) -> PeerView {
        PeerView { is_connected: true, packet_queue: Seq::empty(), ..self }
    }

    /// A peer that was just disconnected.
    pub open spec fn disconnected(self) -> PeerView {
        PeerView { is_connected: false, ..self }
    }

    /// A peer for which one more packet waits; the oldest leaves a full queue.
    pub open spec fn buffering(self, packet: Bytes) -> PeerView {
        PeerView {
            packet_queue: (if self.packet_queue.len() >= MAX_PACKETS_IN_QUEUE {
                self.packet_queue.drop_first()
            } else {
                self.packet_queue
            }).push(packet),
            ..self
        }
    }
}

impl CoreView {
    /// Whether some address belongs to the key.
    pub open spec fn whitelisted(self, key: PublicKey) -> bool {
        crate::route::has_node(self.route_table, key)
    }

    /// Whether a packet of the host passes the checks and is for the node with the given key.
    pub open spec fn bound_for(self, packet: Bytes, key: PublicKey) -> bool {
        self.verify_send_packet(octets_of(packet)) matches Ok(ip) && self.route_table[ip] == key
    }

    /// The whitelist is the set of peers, queues are bounded, nothing waits for a peer that is
    /// connected, and what waits for a peer has passed the checks and is for it.
    pub open spec fn wf(self) -> bool {
        &&& forall|key: PublicKey| #[trigger]
            self.peers.contains_key(key) <==> self.whitelisted(key)
        &&& forall|key: PublicKey| #[trigger]
            self.peers.contains_key(key) ==> {
                &&& self.peers[key].packet_queue.len() <= MAX_PACKETS_IN_QUEUE
                &&& self.peers[key].is_connected ==> self.peers[key].packet_queue.len() == 0
                &&& self.route_table.contains_key(self.peers[key].ipv4_addr)
                &&& self.route_table[self.peers[key].ipv4_addr] == key
            }
        &&& forall|key: PublicKey, i: int|
            self.peers.contains_key(key) && 0 <= i < self.peers[key].packet_queue.len()
                ==> self.bound_for(#[trigger] self.peers[key].packet_queue[i], key)
    }

    /// The core with one peer changed.
    pub open spec fn with_peer(self, key: PublicKey, peer: PeerView) -> CoreView {
        CoreView { peers: self.peers.insert(key, peer), ..self }
    }

    /// Changing a peer within its bounds keeps the invariant.
    pub(crate) proof fn lemma_with_peer(self, key: PublicKey, peer: PeerView)
        requires
            self.wf(),
            self.whitelisted(key),
            peer.ipv4_addr == self.peers[key].ipv4_addr,
            peer.packet_queue.len() <= MAX_PACKETS_IN_QUEUE,
            peer.is_connected ==> peer.packet_queue.len() == 0,
            forall|i: int|
                0 <= i < peer.packet_queue.len() ==> self.bound_for(
                    #[trigger] peer.packet_queue[i],
                    key,
                ),
        ensures
            self.with_peer(key, peer).wf(),
    {
        let after = self.with_peer(key, peer);
        assert(self.peers.contains_key(key));
        assert(after.route_table == self.route_table);
        assert forall|k: PublicKey| #[trigger] after.peers.contains_key(k) <==> after.whitelisted(
            k,
        ) by {
            assert(after.peers.contains_key(k) == self.peers.contains_key(k));
        }
        assert forall|k: PublicKey| #[trigger] after.peers.contains_key(k) implies {
            &&& after.peers[k].packet_queue.len() <= MAX_PACKETS_IN_QUEUE
            &&& after.peers[k].is_connected ==> after.peers[k].packet_queue.len() == 0
            &&& after.route_table.contains_key(after.peers[k].ipv4_addr)
            &&& after.route_table[after.peers[k].ipv4_addr] == k
        } by {
            assert(self.peers.contains_key(k));
        }
        assert forall|k: PublicKey, i: int|
            after.peers.contains_key(k) && 0 <= i
                < after.peers[k].packet_queue.len() implies after.bound_for(
            #[trigger] after.peers[k].packet_queue[i],
            k,
        ) by {
            let packet = after.peers[k].packet_queue[i];
            assert(self.bound_for(packet, k));
            assert(after.verify_send_packet(octets_of(packet)) == self.verify_send_packet(
                octets_of(packet),
            ));
        }
    }

    /// Where an outgoing packet goes, or the first reason why it goes nowhere.
    pub open spec fn verify_send_packet(self, octets: Seq<u8>) -> Result<
        Ipv4Addr,
        SendPacketError,
    > {
        match Ipv4Packet::of(octets) {
            Err(e) => Err(SendPacketError::ParseError(e)),
            Ok(p) => if octets.len() > self.max_packet_size {
                Err(SendPacketError::MtuError)
            } else if octets.len() < p.total_length {
                Err(SendPacketError::BrokenLength)
            } else if p.ttl == 0 {
                Err(SendPacketError::IncorrectTTL)
            } else if p.src_ip != self.ipv4_addr {
                Err(SendPacketError::IncorrectSrcIp)
            } else if !self.route_table.contains_key(p.dest_ip) {
                Err(SendPacketError::UnknownDestIp)
            } else {
                Ok(p.dest_ip)
            },
        }
    }

    /// Whether an incoming packet may pass, or the first reason why not.
    pub open spec fn verify_recv_packet(self, octets: Seq<u8>, from: PublicKey) -> Result<
        (),
        RecvPacketError,
    > {
        match Ipv4Packet::of(octets) {
            Err(e) => Err(RecvPacketError::ParseError(e)),
            Ok(p) => if octets.len() > self.max_packet_size {
                Err(RecvPacketError::MtuError)
            } else if octets.len() < p.total_length {
                Err(RecvPacketError::BrokenLength)
            } else if !self.route_table.contains_key(p.src_ip) {
                Err(RecvPacketError::UnknownSrcIp)
            } else if p.dest_ip != self.ipv4_addr {
                Err(RecvPacketError::IncorrectDestIp)
            } else if self.route_table[p.src_ip] != from {
                Err(RecvPacketError::Spoofing)
            } else {
                Ok(())
            },
        }
    }

    /// The next state and the actions when a peer has connected.
    pub open spec fn on_peer_connected(self, node: PublicKey) -> (CoreView, Seq<Action>) {
        if !self.whitelisted(node) {
            (self, seq![Action::DisconnectFromPeer(node)])
        } else if self.peers[node].is_connected {
            (self, seq![Action::NoAction(LogEvent::AlreadyConnected)])
        } else {
            (
                self.with_peer(node, self.peers[node].connected()),
                self.peers[node].packet_queue.map_values(
                    |packet: Bytes| Action::SendPacketTo(packet, node),
                ),
            )
        }
    }

    /// The next state and the actions when a peer has disconnected.
    pub open spec fn on_peer_disconnected(self, node: PublicKey) -> (CoreView, Seq<Action>) {
        if !self.whitelisted(node) {
            (self, seq![Action::NoAction(LogEvent::UnknownPeer)])
        } else if !self.peers[node].is_connected {
            (self, seq![Action::NoAction(LogEvent::AlreadyDisconnected)])
        } else {
            (self.with_peer(node, self.peers[node].disconnected()), Seq::empty())
        }
    }

    /// The next state and the actions when the host sends a packet.
    pub open spec fn send_packet(self, packet: Bytes) -> (CoreView, Seq<Action>) {
        match self.verify_send_packet(octets_of(packet)) {
            Err(e) => (self, seq![Action::NoAction(LogEvent::SendPacketError(e))]),
            Ok(dest_ip) => {
                let key = self.route_table[dest_ip];
                let peer = self.peers[key];
                if peer.is_connected {
                    (self, seq![Action::SendPacketTo(packet, key)])
                } else {
                    (
                        self.with_peer(key, peer.buffering(packet)),
                        if peer.packet_queue.len() >= MAX_PACKETS_IN_QUEUE {
                            seq![
                                Action::NoAction(LogEvent::PacketQueueOverflow),
                                Action::NoAction(LogEvent::PacketBuffered),
                            ]
                        } else {
                            seq![Action::NoAction(LogEvent::PacketBuffered)]
                        },
                    )
                }
            },
        }
    }

    /// The actions when a packet has come from a peer.
    pub open spec fn recv_packet(self, packet: Bytes, from: PublicKey) -> Seq<Action> {
        match self.verify_recv_packet(octets_of(packet), from) {
            Ok(_) => seq![Action::WriteToTun(packet)],
            Err(e) => seq![Action::NoAction(LogEvent::RecvPacketError(e))],
        }
    }

    /// The next state and the actions for any event.
    pub open spec fn process(self, event: Event) -> (CoreView, Seq<Action>) {
        match event {
            Event::PeerConnected(node) => self.on_peer_connected(node),
            Event::PeerDisconnected(node) => self.on_peer_disconnected(node),
            Event::PacketFromIroh(packet, from) => (self, self.recv_packet(packet, from)),
            Event::PacketFromTun(packet) => self.send_packet(packet),
        }
    }
}

/// Empties a queue into packets for a peer, the oldest first.
fn drain(queue: &mut VecDeque<Bytes>, to: &PublicKey) -> (actions: Vec<Action>)
    ensures
        final(queue)@ == Seq::<Bytes>::empty(),
        actions@ == old(queue)@.map_values(|packet: Bytes| Action::SendPacketTo(packet, *to)),
{
    let ghost all = queue@;
    let mut actions: Vec<Action> = Vec::new();
    while queue.len() > 0
        invariant
            actions@.len() + queue@.len() == all.len(),
            queue@ == all.skip(actions@.len() as int),
            actions@ == all.take(actions@.len() as int).map_values(
                |packet: Bytes| Action::SendPacketTo(packet, *to),
            ),
        decreases queue@.len(),
    {
        match queue.pop_front() {
            Some(packet) => {
                actions.push(Action::SendPacketTo(packet, *to));
            },
            None => {},
        }
        assert(queue@ =~= all.skip(actions@.len() as int));
        assert(actions@ =~= all.take(actions@.len() as int).map_values(
            |packet: Bytes| Action::SendPacketTo(packet, *to),
        ));
    }
    assert(all.take(all.len() as int) =~= all);
    actions
}

impl VpnCore {
    /// The table of peers is in order.
    pub closed spec fn table_wf(&self) -> bool {
        self.peers.wf()
    }

    /// The invariant of the core.
    pub open spec fn wf(&self) -> bool {
        &&& self.table_wf()
        &&& self@.wf()
    }

    /// A core whose peers are the nodes of the route table, all disconnected.
    ///
    /// A node that has several addresses is remembered under one of them.
    pub fn new(ipv4_addr: Ipv4Addr, route_table: RouteTable, max_packet_size: usize) -> (core:
        VpnCore)
        ensures
            core.wf(),
            core@.ipv4_addr == ipv4_addr,
            core@.max_packet_size == max_packet_size,
            core@.route_table == route_table@,
            forall|key: PublicKey| #[trigger]
                core@.peers.contains_key(key) <==> core@.whitelisted(key),
            forall|key: PublicKey| #[trigger]
                core@.peers.contains_key(key) ==> {
                    &&& !core@.peers[key].is_connected
                    &&& core@.peers[key].packet_queue == Seq::<Bytes>::empty()
                    &&& route_table@.contains_key(core@.peers[key].ipv4_addr)
                    &&& route_table@[core@.peers[key].ipv4_addr] == key
                },
    {
        let mut peers: KeyMap<PeerState> = KeyMap::new();
        let pairs = route_table.pairs();
        let mut i: usize = 0;
        while i < pairs.len()
            invariant
                i <= pairs@.len(),
                peers.wf(),
                forall|k: int|
                    0 <= k < pairs@.len() ==> route_table@.contains_key((#[trigger] pairs@[k]).0)
                        && route_table@[pairs@[k].0] == pairs@[k].1,
                forall|k: int| 0 <= k < i ==> peers@.contains_key((#[trigger] pairs@[k]).1),
                forall|key: PublicKey| #[trigger]
                    peers@.contains_key(key) ==> {
                        &&& !peers@[key].is_connected
                        &&& peers@[key].packet_queue@ == Seq::<Bytes>::empty()
                        &&& route_table@.contains_key(peers@[key].ipv4_addr)
                        &&& route_table@[peers@[key].ipv4_addr] == key
                    },
            decreases pairs@.len() - i,
        {
            let (ip, pub_key) = pairs[i];
            peers.insert(
                pub_key,
                PeerState { is_connected: false, ipv4_addr: ip, packet_queue: VecDeque::new() },
            );
            i = i + 1;
        }
        let core = VpnCore { max_packet_size, ipv4_addr, peers, route_table };
        proof {
            assert forall|key: PublicKey| #[trigger]
                core@.peers.contains_key(key) <==> core@.whitelisted(key) by {
                if core@.whitelisted(key) {
                    let ip = choose|ip: Ipv4Addr| #[trigger]
                        core@.route_table.contains_key(ip) && core@.route_table[ip] == key;
                    assert(pairs@.contains((ip, key)));
                    let k = choose|k: int| 0 <= k < pairs@.len() && pairs@[k] == (ip, key);
                    assert(peers@.contains_key(pairs@[k].1));
                }
                if core@.peers.contains_key(key) {
                    assert(core@.route_table.contains_key(peers@[key].ipv4_addr));
                }
            }
        }
        core
    }

    /// Whether a connection with the node may be accepted.
    pub fn verify_connection(&self, pub_key: &PublicKey) -> (r: bool)
        requires
            self.wf(),
        ensures
            r == self@.whitelisted(*pub_key),
    {
        self.is_neighbour(pub_key)
    }

    /// A peer has connected: what waits for it goes out, the oldest first.
    pub fn on_peer_connected(&mut self, node: &PublicKey) -> (actions: Vec<Action>)
        requires
            old(self).wf(),
        ensures
            final(self).wf(),
            (final(self)@, actions@) == old(self)@.on_peer_connected(*node),
    {
        if !self.is_neighbour(node) {
            return vec![Action::DisconnectFromPeer(*node)];
        }
        if self.is_connect_open(node) {
            return vec![Action::NoAction(LogEvent::AlreadyConnected)];
        }
        let ghost before = self@;
        assert(before.peers.contains_key(*node));
        match self.peers.get_mut(node) {
            Some(peer) => {
                peer.is_connected = true;
                let actions = drain(&mut peer.packet_queue, node);
                assert(self@.peers =~= before.with_peer(
                    *node,
                    before.peers[*node].connected(),
                ).peers);
                proof {
                    before.lemma_with_peer(*node, before.peers[*node].connected());
                }
                actions
            },
            None => vec![Action::NoAction(LogEvent::InternalStateError)],
        }
    }

    /// A peer has disconnected: what is sent to it from now on waits.
    pub fn on_peer_disconnected(&mut self, node: &PublicKey) -> (actions: Vec<Action>)
        requires
            old(self).wf(),
        ensures
            final(self).wf(),
            (final(self)@, actions@) == old(self)@.on_peer_disconnected(*node),
    {
        if !self.is_neighbour(node) {
            return vec![Action::NoAction(LogEvent::UnknownPeer)];
        }
        if !self.is_connect_open(node) {
            return vec![Action::NoAction(LogEvent::AlreadyDisconnected)];
        }
        let ghost before = self@;
        assert(before.peers.contains_key(*node));
        match self.peers.get_mut(node) {
            Some(peer) => {
                peer.is_connected = false;
                assert(self@.peers =~= before.with_peer(
                    *node,
                    before.peers[*node].disconnected(),
                ).peers);
                proof {
                    before.lemma_with_peer(*node, before.peers[*node].disconnected());
                }
                vec![]
            },
            None => vec![Action::NoAction(LogEvent::InternalStateError)],
        }
    }

    /// The host sends a packet: it goes out, or waits for its peer, or is dropped.
    pub fn send_packet(&mut self, packet: Bytes) -> (actions: Vec<Action>)
        requires
            old(self).wf(),
        ensures
            final(self).wf(),
            (final(self)@, actions@) == old(self)@.send_packet(packet),
    {
        let dest_ip = match self.verify_send_packet(&packet) {
            Ok(ip) => ip,
            Err(e) => {
                return vec![Action::NoAction(LogEvent::SendPacketError(e))];
            },
        };
        let pub_key = match self.route_table.get(&dest_ip) {
            Some(pk) => pk,
            None => {
                return vec![
                    Action::NoAction(LogEvent::SendPacketError(SendPacketError::UnknownDestIp)),
                ];
            },
        };
        let ghost before = self@;
        assert(before.route_table.contains_key(dest_ip));
        assert(before.whitelisted(pub_key));
        assert(before.peers.contains_key(pub_key));
        if self.is_connect_open(&pub_key) {
            return vec![Action::SendPacketTo(packet, pub_key)];
        }
        match self.peers.get_mut(&pub_key) {
            Some(peer) => {
                let mut actions: Vec<Action> = Vec::with_capacity(2);
                if peer.packet_queue.len() >= MAX_PACKETS_IN_QUEUE {
                    let _ = peer.packet_queue.pop_front();
                    actions.push(Action::NoAction(LogEvent::PacketQueueOverflow));
                }
                peer.packet_queue.push_back(packet);
                actions.push(Action::NoAction(LogEvent::PacketBuffered));
                proof {
                    let waiting = before.peers[pub_key].buffering(packet);
                    assert(self@.peers[pub_key].packet_queue =~= waiting.packet_queue);
                    assert(self@.peers =~= before.with_peer(pub_key, waiting).peers);
                    before.lemma_with_peer(pub_key, waiting);
                }
                actions
            },
            None => vec![Action::NoAction(LogEvent::InternalStateError)],
        }
    }

    /// A packet has come from a peer: it goes to the host, or is dropped.
    pub fn recv_packet(&self, packet: Bytes, from: &PublicKey) -> (actions: Vec<Action>)
        ensures
            actions@ == self@.recv_packet(packet, *from),
    {
        match self.verify_recv_packet(&packet, from) {
            Ok(_) => vec![Action::WriteToTun(packet)],
            Err(e) => vec![Action::NoAction(LogEvent::RecvPacketError(e))],
        }
    }

    /// Handles any event.
    pub fn process(&mut self, event: Event) -> (actions: Vec<Action>)
        requires
            old(self).wf(),
        ensures
            final(self).wf(),
            (final(self)@, actions@) == old(self)@.process(event),
    {
        match event {
            Event::PeerConnected(node) => self.on_peer_connected(&node),
            Event::PeerDisconnected(node) => self.on_peer_disconnected(&node),
            Event::PacketFromIroh(packet, from) => self.recv_packet(packet, &from),
            Event::PacketFromTun(packet) => self.send_packet(packet),
        }
    }

    fn verify_send_packet(&self, packet: &Bytes) -> (r: Result<Ipv4Addr, SendPacketError>)
        ensures
            r == self@.verify_send_packet(octets_of(*packet)),
    {
        let ipv4_packet = match Ipv4Packet::new(packet) {
            Ok(header) => header,
            Err(e) => {
                return Err(SendPacketError::ParseError(e));
            },
        };
        if ipv4_packet.packet_length > self.max_packet_size {
            return Err(SendPacketError::MtuError);
        }
        if ipv4_packet.packet_length < ipv4_packet.total_length {
            return Err(SendPacketError::BrokenLength);
        }
        if ipv4_packet.ttl == 0 {
            return Err(SendPacketError::IncorrectTTL);
        }
        if ipv4_packet.src_ip != self.ipv4_addr {
            return Err(SendPacketError::IncorrectSrcIp);
        }
        if !self.is_neighbour_ipv4(&ipv4_packet.dest_ip) {
            return Err(SendPacketError::UnknownDestIp);
        }
        Ok(ipv4_packet.dest_ip)
    }

    fn verify_recv_packet(&self, packet: &Bytes, from: &PublicKey) -> (r: Result<
        (),
        RecvPacketError,
    >)
        ensures
            r == self@.verify_recv_packet(octets_of(*packet), *from),
    {
        let ipv4_packet = match Ipv4Packet::new(packet) {
            Ok(header) => header,
            Err(e) => {
                return Err(RecvPacketError::ParseError(e));
            },
        };
        if ipv4_packet.packet_length > self.max_packet_size {
            return Err(RecvPacketError::MtuError);
        }
        if ipv4_packet.packet_length < ipv4_packet.total_length {
            return Err(RecvPacketError::BrokenLength);
        }
        let owner = match self.route_table.get(&ipv4_packet.src_ip) {
            Some(key) => key,
            None => {
                return Err(RecvPacketError::UnknownSrcIp);
            },
        };
        if ipv4_packet.dest_ip != self.ipv4_addr {
            return Err(RecvPacketError::IncorrectDestIp);
        }
        match owner.order(from) {
            KeyOrder::Equal => Ok(()),
            _ => Err(RecvPacketError::Spoofing),
        }
    }

    fn is_neighbour(&self, node: &PublicKey) -> (r: bool)
        requires
            self.wf(),
        ensures
            r == self@.whitelisted(*node),
    {
        assert(self@.peers.contains_key(*node) == self.peers@.contains_key(*node));
        self.peers.contains_key(node)
    }

    fn is_neighbour_ipv4(&self, node: &Ipv4Addr) -> (r: bool)
        ensures
            r == self@.route_table.contains_key(*node),
    {
        self.route_table.contains_key(node)
    }

    fn is_connect_open(&self, node: &PublicKey) -> (r: bool)
        requires
            self.wf(),
            self@.whitelisted(*node),
        ensures
            r == self@.peers[*node].is_connected,
    {
        assert(self@.peers.contains_key(*node));
        match self.peers.get(node) {
            Some(peer) => peer.is_connected,
            None => false,
        }
    }
}

} // verus!
