use bytes::Bytes;

use mesh_network::addr::Ipv4Addr;
use mesh_network::channel::SendOutcome;
use mesh_network::coord::{ChannelWasClosed, CoordInput, Coordinator, Dispatch};
use mesh_network::custom_transport::{CustomController, CustomControllerFactory};
use mesh_network::iroh::{CoreAction, IrohCommand, IrohEvent, IrohInput};
use mesh_network::key::PublicKey;
use mesh_network::node::{application_mtu, assemble, filter_settings};
use mesh_network::route::RouteTable;
use mesh_network::vpn_core::{Action, LogEvent, VpnCore};

fn peer(n: u8) -> PublicKey {
    PublicKey { bytes: [n; 32] }
}

fn table() -> RouteTable {
    let mut table = RouteTable::new();
    table.insert(Ipv4Addr::new(10, 67, 1, 2), peer(2));
    table
}

fn coordinator() -> Coordinator {
    Coordinator::new(VpnCore::new(Ipv4Addr::new(10, 67, 1, 1), table(), 1400))
}

fn between(src: u8, dest: u8) -> Bytes {
    Bytes::from(vec![
        0x45, 0, 0, 20, 0, 0, 0, 0, 64, 1, 0, 0, 10, 67, 1, src, 10, 67, 1, dest,
    ])
}

#[test]
fn coordinator_hands_events_to_the_core() {
    let mut c = coordinator();
    let out = between(1, 2);
    let inc = between(2, 1);
    assert_eq!(
        c.run(CoordInput::FromTun(Some(out.clone()))),
        Ok(vec![Action::NoAction(LogEvent::PacketBuffered)])
    );
    assert_eq!(
        c.run(CoordInput::FromIroh(Some(IrohEvent::ConnectedToPeer(peer(2))))),
        Ok(vec![Action::SendPacketTo(out.clone(), peer(2))])
    );
    assert_eq!(
        c.run(CoordInput::FromIroh(Some(IrohEvent::RecvPacketFrom(inc.clone(), peer(2))))),
        Ok(vec![Action::WriteToTun(inc)])
    );
    assert_eq!(
        c.run(CoordInput::FromIroh(Some(IrohEvent::DisconnectedFromPeer(peer(2))))),
        Ok(vec![])
    );
    assert_eq!(
        c.handle_packet_from_tun(out),
        vec![Action::NoAction(LogEvent::PacketBuffered)]
    );
}

#[test]
fn coordinator_ends_with_its_channels() {
    let mut c = coordinator();
    assert_eq!(c.run(CoordInput::FromIroh(None)), Err(ChannelWasClosed));
    assert_eq!(c.run(CoordInput::FromTun(None)), Err(ChannelWasClosed));
    assert_eq!(Coordinator::after_dispatch(SendOutcome::Closed), Err(ChannelWasClosed));
    assert_eq!(Coordinator::after_dispatch(SendOutcome::Full), Ok(()));
    assert_eq!(Coordinator::after_dispatch(SendOutcome::Sent), Ok(()));
}

#[test]
fn actions_are_dispatched_in_order() {
    let (out, inc) = (between(1, 2), between(2, 1));
    assert_eq!(
        Coordinator::handle_actions(vec![
            Action::ConnectToPeer(peer(2)),
            Action::DisconnectFromPeer(peer(9)),
            Action::SendPacketTo(out.clone(), peer(2)),
            Action::WriteToTun(inc.clone()),
            Action::NoAction(LogEvent::PacketBuffered),
        ]),
        vec![
            Dispatch::Nothing,
            Dispatch::SendToIroh(CoreAction::DisconnectFromPeer(peer(9))),
            Dispatch::TrySendToIroh(CoreAction::SendPacketTo(out, peer(2))),
            Dispatch::TrySendToTun(inc),
            Dispatch::Log(LogEvent::PacketBuffered),
        ]
    );
    assert_eq!(Coordinator::handle_actions(vec![]), vec![]);
}

fn carried(outcomes: &[SendOutcome]) -> (Vec<Dispatch>, Result<(), ChannelWasClosed>) {
    let mut left = Coordinator::handle_actions(vec![
        Action::DisconnectFromPeer(peer(9)),
        Action::WriteToTun(between(2, 1)),
        Action::NoAction(LogEvent::PacketBuffered),
    ]);
    let mut last = SendOutcome::Sent;
    let mut done = vec![];
    loop {
        match Coordinator::next_dispatch(&mut left, last) {
            Ok(Some(dispatch)) => {
                last = outcomes[done.len()];
                done.push(dispatch);
            }
            Ok(None) => return (done, Ok(())),
            Err(e) => return (done, Err(e)),
        }
    }
}

#[test]
fn closed_channel_stops_the_actions_behind_it() {
    let all = vec![
        Dispatch::SendToIroh(CoreAction::DisconnectFromPeer(peer(9))),
        Dispatch::TrySendToTun(between(2, 1)),
        Dispatch::Log(LogEvent::PacketBuffered),
    ];
    let (sent, full, closed) = (SendOutcome::Sent, SendOutcome::Full, SendOutcome::Closed);
    let (done, end) = carried(&[sent, full, sent]);
    assert_eq!((done.as_slice(), end), (&all[..], Ok(())));
    let (done, end) = carried(&[closed, sent, sent]);
    assert_eq!((done.as_slice(), end), (&all[..1], Err(ChannelWasClosed)));
    let (done, end) = carried(&[sent, closed, sent]);
    assert_eq!((done.as_slice(), end), (&all[..2], Err(ChannelWasClosed)));
    let (done, end) = carried(&[sent, sent, closed]);
    assert_eq!((done.as_slice(), end), (&all[..], Err(ChannelWasClosed)));
}

#[test]
fn packet_finds_its_tunnel() {
    let (core, mut manager) = assemble(peer(5), Ipv4Addr::new(10, 67, 1, 1), table(), 1500);
    let mut coordinator = Coordinator::new(core);
    assert_eq!(
        manager.init(),
        vec![IrohCommand::StartDial(peer(2)), IrohCommand::StartAccepting]
    );
    let commands = manager
        .run(IrohInput::FromTasks(Some(
            mesh_network::iroh::ConnectionEvent::OutgoingConnection { peer: peer(2), connection: 4 },
        )))
        .unwrap();
    for command in commands {
        if let IrohCommand::Notify(event) = command {
            assert_eq!(coordinator.handle_iroh_event(event), vec![]);
        }
    }
    let out = between(1, 2);
    let actions = coordinator.handle_packet_from_tun(out.clone());
    assert_eq!(
        Coordinator::handle_actions(actions),
        vec![Dispatch::TrySendToIroh(CoreAction::SendPacketTo(out.clone(), peer(2)))]
    );
    assert_eq!(
        manager.handle_core_event(CoreAction::SendPacketTo(out.clone(), peer(2))),
        vec![IrohCommand::QueuePacket { connection: 4, packet: out }]
    );
}

#[test]
fn tunnel_takes_a_hundred_octets() {
    assert_eq!(application_mtu(1500), 1400);
    assert_eq!(application_mtu(100), 0);
    assert_eq!(application_mtu(65535), 65435);
}

#[test]
fn log_filter_names_the_level() {
    assert_eq!(filter_settings("debug"), "error,mesh_network=debug");
    assert_eq!(filter_settings("off"), "error,mesh_network=off");
}

#[test]
fn congestion_changes_nothing() {
    let mut controller = CustomControllerFactory.build(9000);
    assert_eq!(controller, CustomController { mtu: 1200 });
    controller.on_congestion_event(true, true, 1_000_000);
    controller.on_congestion_event(false, false, 1);
    assert_eq!(controller, CustomController { mtu: 1200 });
    assert_eq!(controller.window(), 1_000_000_000);
    assert_eq!(controller.initial_window(), 1_000_000_000);
}

#[test]
fn controller_remembers_the_datagram_size() {
    let mut controller = CustomControllerFactory.build(1200);
    controller.on_mtu_update(1452);
    assert_eq!(controller.mtu, 1452);
    assert_eq!(controller.window(), 1_000_000_000);
}
