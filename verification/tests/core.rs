use bytes::Bytes;

use mesh_network::addr::Ipv4Addr;
use mesh_network::key::PublicKey;
use mesh_network::packet::ipv4::{Ipv4Packet, ParseError};
use mesh_network::route::RouteTable;
use mesh_network::vpn_core::{
    Action, Event, LogEvent, RecvPacketError, SendPacketError, VpnCore, MAX_PACKETS_IN_QUEUE,
};

fn node(n: u8) -> PublicKey {
    PublicKey { bytes: [n; 32] }
}

fn ip(last: u8) -> Ipv4Addr {
    Ipv4Addr::new(10, 67, 1, last)
}

/// A node at 10.67.1.1 with peers at .2 and .3.
fn small_core() -> VpnCore {
    let mut table = RouteTable::new();
    table.insert(ip(2), node(2));
    table.insert(ip(3), node(3));
    VpnCore::new(ip(1), table, 1400)
}

fn octets(src: Ipv4Addr, dest: Ipv4Addr, payload: &[u8]) -> Vec<u8> {
    let total = (20 + payload.len()) as u16;
    let mut p = vec![0x45, 0, (total >> 8) as u8, total as u8, 0, 0, 0, 0, 64, 1, 0, 0];
    p.extend_from_slice(&src.octets());
    p.extend_from_slice(&dest.octets());
    p.extend_from_slice(payload);
    p
}

fn packet(src: u8, dest: u8, payload: &[u8]) -> Bytes {
    Bytes::from(octets(ip(src), ip(dest), payload))
}

fn dropped_on_send(e: SendPacketError) -> Vec<Action> {
    vec![Action::NoAction(LogEvent::SendPacketError(e))]
}

fn dropped_on_recv(e: RecvPacketError) -> Vec<Action> {
    vec![Action::NoAction(LogEvent::RecvPacketError(e))]
}

#[test]
fn header_is_read() {
    let mut raw = octets(Ipv4Addr::new(1, 2, 3, 4), Ipv4Addr::new(5, 6, 7, 8), &[9; 300]);
    raw[8] = 17;
    let header = Ipv4Packet::new(&Bytes::from(raw)).unwrap();
    assert_eq!(header.packet_length, 320);
    assert_eq!(header.total_length, 320);
    assert_eq!(header.ttl, 17);
    assert_eq!(header.src_ip, Ipv4Addr::new(1, 2, 3, 4));
    assert_eq!(header.dest_ip, Ipv4Addr::new(5, 6, 7, 8));
}

#[test]
fn short_packets_are_no_ipv4() {
    assert_eq!(Ipv4Packet::new(&Bytes::new()), Err(ParseError::TooSmallPacket));
    assert_eq!(Ipv4Packet::new(&Bytes::from(vec![0x45; 19])), Err(ParseError::TooSmallPacket));
    assert_eq!(
        ParseError::TooSmallPacket.message(),
        "packet is too small to contain a valid IPv4 header"
    );
}

#[test]
fn other_versions_are_no_ipv4() {
    let mut raw = octets(ip(1), ip(2), &[]);
    raw[0] = 0x65;
    assert_eq!(Ipv4Packet::new(&Bytes::from(raw)), Err(ParseError::IncorrectIpVersion));
    assert_eq!(
        ParseError::IncorrectIpVersion.message(),
        "unsupported IP version (only IPv4 is allowed)"
    );
}

#[test]
fn only_whitelisted_nodes_may_connect() {
    let core = small_core();
    assert!(core.verify_connection(&node(2)));
    assert!(core.verify_connection(&node(3)));
    assert!(!core.verify_connection(&node(4)));
}

#[test]
fn stranger_is_turned_away() {
    let mut core = small_core();
    assert_eq!(core.on_peer_connected(&node(9)), vec![Action::DisconnectFromPeer(node(9))]);
    assert_eq!(
        core.on_peer_disconnected(&node(9)),
        vec![Action::NoAction(LogEvent::UnknownPeer)]
    );
    assert_eq!(
        core.recv_packet(packet(2, 1, &[]), &node(9)),
        dropped_on_recv(RecvPacketError::Spoofing)
    );
}

#[test]
fn news_of_a_connection_count_once() {
    let mut core = small_core();
    assert_eq!(core.on_peer_connected(&node(2)), vec![]);
    assert_eq!(
        core.on_peer_connected(&node(2)),
        vec![Action::NoAction(LogEvent::AlreadyConnected)]
    );
    assert_eq!(core.on_peer_disconnected(&node(2)), vec![]);
    assert_eq!(
        core.on_peer_disconnected(&node(2)),
        vec![Action::NoAction(LogEvent::AlreadyDisconnected)]
    );
}

#[test]
fn packets_for_a_connected_peer_go_out() {
    let mut core = small_core();
    core.on_peer_connected(&node(2));
    let p = packet(1, 2, b"ping");
    assert_eq!(core.send_packet(p.clone()), vec![Action::SendPacketTo(p, node(2))]);
}

#[test]
fn waiting_packets_go_out_in_order() {
    let mut core = small_core();
    let packets: Vec<Bytes> = (0..5u8).map(|i| packet(1, 2, &[i])).collect();
    for p in &packets {
        assert_eq!(
            core.send_packet(p.clone()),
            vec![Action::NoAction(LogEvent::PacketBuffered)]
        );
    }
    let expected: Vec<Action> =
        packets.iter().map(|p| Action::SendPacketTo(p.clone(), node(2))).collect();
    assert_eq!(core.on_peer_connected(&node(2)), expected);
    core.on_peer_disconnected(&node(2));
    assert_eq!(core.on_peer_connected(&node(2)), vec![]);
}

#[test]
fn full_queue_drops_the_oldest() {
    let mut core = small_core();
    let packets: Vec<Bytes> =
        (0..MAX_PACKETS_IN_QUEUE as u16 + 2).map(|i| packet(1, 2, &i.to_be_bytes())).collect();
    for p in &packets[..MAX_PACKETS_IN_QUEUE] {
        assert_eq!(
            core.send_packet(p.clone()),
            vec![Action::NoAction(LogEvent::PacketBuffered)]
        );
    }
    for p in &packets[MAX_PACKETS_IN_QUEUE..] {
        assert_eq!(
            core.send_packet(p.clone()),
            vec![
                Action::NoAction(LogEvent::PacketQueueOverflow),
                Action::NoAction(LogEvent::PacketBuffered),
            ]
        );
    }
    let expected: Vec<Action> =
        packets[2..].iter().map(|p| Action::SendPacketTo(p.clone(), node(2))).collect();
    assert_eq!(core.on_peer_connected(&node(2)), expected);
}

#[test]
fn peers_do_not_share_queues() {
    let mut core = small_core();
    let p = packet(1, 3, b"for three");
    core.send_packet(p.clone());
    assert_eq!(core.on_peer_connected(&node(2)), vec![]);
    assert_eq!(core.on_peer_connected(&node(3)), vec![Action::SendPacketTo(p, node(3))]);
}

#[test]
fn outgoing_packets_are_checked() {
    let mut core = small_core();
    assert_eq!(
        core.send_packet(Bytes::new()),
        dropped_on_send(SendPacketError::ParseError(ParseError::TooSmallPacket))
    );
    assert_eq!(
        core.send_packet(packet(1, 2, &[0; 1381])),
        dropped_on_send(SendPacketError::MtuError)
    );
    let mut raw = octets(ip(1), ip(2), &[]);
    raw[3] = 21;
    assert_eq!(
        core.send_packet(Bytes::from(raw)),
        dropped_on_send(SendPacketError::BrokenLength)
    );
    let mut raw = octets(ip(1), ip(2), &[]);
    raw[8] = 0;
    assert_eq!(
        core.send_packet(Bytes::from(raw)),
        dropped_on_send(SendPacketError::IncorrectTTL)
    );
    assert_eq!(
        core.send_packet(packet(7, 2, &[])),
        dropped_on_send(SendPacketError::IncorrectSrcIp)
    );
    assert_eq!(
        core.send_packet(packet(1, 7, &[])),
        dropped_on_send(SendPacketError::UnknownDestIp)
    );
}

#[test]
fn largest_and_padded_packets_pass() {
    let mut core = small_core();
    core.on_peer_connected(&node(2));
    let largest = packet(1, 2, &[0; 1380]);
    assert_eq!(core.send_packet(largest.clone()), vec![Action::SendPacketTo(largest, node(2))]);
    let mut raw = octets(ip(1), ip(2), &[0; 10]);
    raw[3] = 20;
    let padded = Bytes::from(raw);
    assert_eq!(core.send_packet(padded.clone()), vec![Action::SendPacketTo(padded, node(2))]);
}

#[test]
fn incoming_packets_are_checked() {
    let core = small_core();
    assert_eq!(
        core.recv_packet(Bytes::from(vec![0; 20]), &node(2)),
        dropped_on_recv(RecvPacketError::ParseError(ParseError::IncorrectIpVersion))
    );
    assert_eq!(
        core.recv_packet(packet(2, 1, &[0; 1381]), &node(2)),
        dropped_on_recv(RecvPacketError::MtuError)
    );
    let mut raw = octets(ip(2), ip(1), &[]);
    raw[2] = 1;
    assert_eq!(
        core.recv_packet(Bytes::from(raw), &node(2)),
        dropped_on_recv(RecvPacketError::BrokenLength)
    );
    assert_eq!(
        core.recv_packet(packet(7, 1, &[]), &node(2)),
        dropped_on_recv(RecvPacketError::UnknownSrcIp)
    );
    assert_eq!(
        core.recv_packet(packet(2, 7, &[]), &node(2)),
        dropped_on_recv(RecvPacketError::IncorrectDestIp)
    );
    assert_eq!(
        core.recv_packet(packet(2, 1, &[]), &node(3)),
        dropped_on_recv(RecvPacketError::Spoofing)
    );
}

#[test]
fn incoming_packets_may_have_no_time_left() {
    let core = small_core();
    let mut raw = octets(ip(2), ip(1), &[]);
    raw[8] = 0;
    let p = Bytes::from(raw);
    assert_eq!(core.recv_packet(p.clone(), &node(2)), vec![Action::WriteToTun(p)]);
}

#[test]
fn what_one_node_sends_the_other_receives() {
    let mut sender = small_core();
    let mut table = RouteTable::new();
    table.insert(ip(1), node(1));
    let receiver = VpnCore::new(ip(2), table, 1400);

    sender.on_peer_connected(&node(2));
    let p = packet(1, 2, b"hello");
    assert_eq!(sender.send_packet(p.clone()), vec![Action::SendPacketTo(p.clone(), node(2))]);
    assert_eq!(receiver.recv_packet(p.clone(), &node(1)), vec![Action::WriteToTun(p)]);
}

#[test]
fn node_with_two_addresses_is_one_peer() {
    let mut table = RouteTable::new();
    table.insert(ip(2), node(2));
    table.insert(ip(3), node(2));
    let mut core = VpnCore::new(ip(1), table, 1400);
    let (a, b) = (packet(1, 2, b"a"), packet(1, 3, b"b"));
    core.send_packet(a.clone());
    core.send_packet(b.clone());
    assert_eq!(
        core.on_peer_connected(&node(2)),
        vec![Action::SendPacketTo(a, node(2)), Action::SendPacketTo(b, node(2))]
    );
}

#[test]
fn events_reach_their_handlers() {
    let mut core = small_core();
    let out = packet(1, 2, b"out");
    let inc = packet(2, 1, b"in");
    assert_eq!(
        core.process(Event::PacketFromTun(out.clone())),
        vec![Action::NoAction(LogEvent::PacketBuffered)]
    );
    assert_eq!(
        core.process(Event::PeerConnected(node(2))),
        vec![Action::SendPacketTo(out, node(2))]
    );
    assert_eq!(
        core.process(Event::PacketFromIroh(inc.clone(), node(2))),
        vec![Action::WriteToTun(inc)]
    );
    assert_eq!(core.process(Event::PeerDisconnected(node(2))), vec![]);
}

#[test]
fn route_table_gives_an_address_to_one_node() {
    let mut table = RouteTable::new();
    table.insert(ip(2), node(2));
    table.insert(ip(2), node(3));
    table.insert(ip(4), node(3));
    assert_eq!(table.get(&ip(2)), Some(node(3)));
    assert_eq!(table.get(&ip(9)), None);
    assert!(!table.contains_key(&ip(3)));
    let mut pairs = table.pairs();
    pairs.sort_by_key(|p| p.0.bits);
    assert_eq!(pairs, vec![(ip(2), node(3)), (ip(4), node(3))]);
    assert_eq!(table.public_keys(), vec![node(3), node(3)]);
}

#[test]
fn actions_are_worded() {
    let hex = "02".repeat(32);
    assert_eq!(Action::ConnectToPeer(node(2)).message(), format!("Connect to: {}", hex));
    assert_eq!(Action::DisconnectFromPeer(node(2)).message(), format!("Disconnect from: {}", hex));
    assert_eq!(
        Action::SendPacketTo(packet(1, 2, &[0; 100]), node(2)).message(),
        format!("Send 120 bytes to {}", hex)
    );
    assert_eq!(Action::WriteToTun(packet(2, 1, &[])).message(), "Write 20 bytes to TUN");
    assert_eq!(
        Action::NoAction(LogEvent::UnknownPeer).message(),
        "Info -> Unknown peer"
    );
}

#[test]
fn log_events_are_worded() {
    let wordings = [
        (LogEvent::UnknownPeer, "Unknown peer"),
        (LogEvent::AlreadyConnected, "Peers are already connected"),
        (LogEvent::AlreadyDisconnected, "Peers are already disconnected"),
        (LogEvent::ConnectionNotOpen, "Connection is not open"),
        (LogEvent::InternalStateError, "Internal State Error"),
        (LogEvent::PacketBuffered, "Packet buffered (connection is not open yet)"),
        (LogEvent::PacketQueueOverflow, "Queue overflow: oldest packet dropped"),
        (
            LogEvent::SendPacketError(SendPacketError::IncorrectTTL),
            "Dropped outgoing packet: TTL is 0 or invalid",
        ),
        (
            LogEvent::RecvPacketError(RecvPacketError::ParseError(ParseError::TooSmallPacket)),
            "Dropped incoming packet: packet parse error: packet is too small to contain a valid IPv4 header",
        ),
    ];
    for (event, wording) in wordings {
        assert_eq!(event.message(), wording);
    }
}

#[test]
fn packet_errors_are_worded() {
    let sends = [
        (SendPacketError::IncorrectSrcIp, "source IP does not match the assigned tun IP"),
        (SendPacketError::UnknownDestIp, "destination IP is not found in the routing table"),
        (SendPacketError::MtuError, "packet length exceeds the MTU limit"),
        (SendPacketError::BrokenLength, "incorrect length of packet"),
        (
            SendPacketError::ParseError(ParseError::IncorrectIpVersion),
            "packet parse error: unsupported IP version (only IPv4 is allowed)",
        ),
    ];
    for (e, wording) in sends {
        assert_eq!(e.message(), wording);
    }
    let recvs = [
        (RecvPacketError::UnknownSrcIp, "source IP is not found in the routing table"),
        (RecvPacketError::IncorrectDestIp, "destination IP does not match local tun IP"),
        (RecvPacketError::MtuError, "received packet length exceeds the MTU limit"),
        (
            RecvPacketError::Spoofing,
            "anti-spoofing triggered: Source IP does not match the sender's public key",
        ),
        (RecvPacketError::BrokenLength, "incorrect length of packet"),
    ];
    for (e, wording) in recvs {
        assert_eq!(e.message(), wording);
    }
}

#[test]
fn traffic_stays_within_the_mesh() {
    let mut core = small_core();
    core.on_peer_connected(&node(2));
    let outside = Ipv4Addr::new(192, 168, 1, 1);
    assert_eq!(
        core.send_packet(Bytes::from(octets(ip(1), outside, &[]))),
        dropped_on_send(SendPacketError::UnknownDestIp)
    );
    assert_eq!(
        core.send_packet(Bytes::from(octets(outside, ip(2), &[]))),
        dropped_on_send(SendPacketError::IncorrectSrcIp)
    );
    assert_eq!(
        core.recv_packet(Bytes::from(octets(outside, ip(1), &[])), &node(2)),
        dropped_on_recv(RecvPacketError::UnknownSrcIp)
    );
    assert_eq!(
        core.recv_packet(Bytes::from(octets(ip(2), outside, &[])), &node(2)),
        dropped_on_recv(RecvPacketError::IncorrectDestIp)
    );
}
