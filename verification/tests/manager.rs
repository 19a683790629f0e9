use bytes::Bytes;

use mesh_network::iroh::{
    bind_addr, connect_to_peer, on_peer_connected, CloseReason, ConnectionEvent, CoreAction,
    DatagramOutcome, DialStep, InitError, Iroh, IrohCommand, IrohEvent, IrohInput, IrohStop,
    SessionInput, SessionStep,
};
use mesh_network::key::PublicKey;

fn id(n: u8) -> PublicKey {
    PublicKey { bytes: [n; 32] }
}

/// A manager with key 5, which dials 2 and waits for 8.
fn manager() -> Iroh {
    Iroh::new(id(5), &vec![id(8), id(2)])
}

fn started() -> Iroh {
    let mut m = manager();
    m.init();
    m
}

fn outgoing(n: u8, connection: u64) -> IrohInput {
    IrohInput::FromTasks(Some(ConnectionEvent::OutgoingConnection { peer: id(n), connection }))
}

fn incoming(n: u8, connection: u64) -> IrohInput {
    IrohInput::FromTasks(Some(ConnectionEvent::IncomingConnection { peer: id(n), connection }))
}

fn lost(n: u8) -> IrohInput {
    IrohInput::FromTasks(Some(ConnectionEvent::Disconnected(id(n))))
}

fn ask(action: CoreAction) -> IrohInput {
    IrohInput::FromCoordinator(Some(action))
}

fn served(n: u8, connection: u64) -> Vec<IrohCommand> {
    vec![
        IrohCommand::Notify(IrohEvent::ConnectedToPeer(id(n))),
        IrohCommand::StartSession { peer: id(n), connection },
    ]
}

fn refused(connection: u64, reason: CloseReason) -> Result<Vec<IrohCommand>, IrohStop> {
    Ok(vec![IrohCommand::Close { connection, reason }])
}

fn queued(m: &mut Iroh, n: u8) -> Vec<IrohCommand> {
    m.run(ask(CoreAction::SendPacketTo(Bytes::from_static(b"p"), id(n)))).unwrap()
}

fn queue_on(connection: u64) -> Vec<IrohCommand> {
    vec![IrohCommand::QueuePacket { connection, packet: Bytes::from_static(b"p") }]
}

#[test]
fn manager_dials_smaller_keys_only() {
    assert_eq!(
        manager().init(),
        vec![IrohCommand::StartDial(id(2)), IrohCommand::StartAccepting]
    );
    let all: Vec<PublicKey> = vec![id(4), id(6), id(1), id(4)];
    assert_eq!(
        Iroh::new(id(5), &all).init(),
        vec![
            IrohCommand::StartDial(id(1)),
            IrohCommand::StartDial(id(4)),
            IrohCommand::StartAccepting,
        ]
    );
}

#[test]
fn second_start_disturbs_nobody() {
    let mut m = started();
    m.run(outgoing(2, 1)).unwrap();
    assert_eq!(m.init(), vec![IrohCommand::StartAccepting]);
    assert_eq!(queued(&mut m, 2), queue_on(1));
    assert_eq!(m.run(incoming(8, 2)), Ok(served(8, 2)));
}

#[test]
fn one_of_two_nodes_dials() {
    let a = Iroh::new(id(1), &vec![id(2)]).init();
    let b = Iroh::new(id(2), &vec![id(1)]).init();
    assert_eq!(a, vec![IrohCommand::StartAccepting]);
    assert_eq!(b, vec![IrohCommand::StartDial(id(1)), IrohCommand::StartAccepting]);
}

#[test]
fn dialled_connection_is_served() {
    let mut m = started();
    assert_eq!(m.run(outgoing(2, 1)), Ok(served(2, 1)));
    assert_eq!(queued(&mut m, 2), queue_on(1));
}

#[test]
fn accepted_connection_is_served() {
    let mut m = started();
    assert_eq!(m.run(incoming(8, 1)), Ok(served(8, 1)));
    assert_eq!(queued(&mut m, 8), queue_on(1));
}

#[test]
fn new_outgoing_connection_takes_the_place_of_the_old() {
    let mut m = started();
    m.run(outgoing(2, 1)).unwrap();
    let mut expected = vec![
        IrohCommand::AbortSession { connection: 1 },
        IrohCommand::Close { connection: 1, reason: CloseReason::DataRace },
    ];
    expected.extend(served(2, 2));
    assert_eq!(m.run(outgoing(2, 2)), Ok(expected));
    assert_eq!(queued(&mut m, 2), queue_on(2));
}

#[test]
fn new_incoming_connection_takes_the_place_of_the_old() {
    let mut m = started();
    m.run(incoming(8, 1)).unwrap();
    let mut expected = vec![
        IrohCommand::AbortSession { connection: 1 },
        IrohCommand::Close { connection: 1, reason: CloseReason::Replaced },
    ];
    expected.extend(served(8, 2));
    assert_eq!(m.run(incoming(8, 2)), Ok(expected));
    assert_eq!(queued(&mut m, 8), queue_on(2));
}

#[test]
fn connections_against_the_order_of_keys_are_refused() {
    let mut m = started();
    assert_eq!(m.run(incoming(2, 1)), refused(1, CloseReason::KeyOrderViolated));
    assert_eq!(m.run(outgoing(8, 2)), refused(2, CloseReason::KeyOrderViolated));
    assert_eq!(queued(&mut m, 2), vec![]);
    assert_eq!(queued(&mut m, 8), vec![]);
}

#[test]
fn connections_with_strangers_are_refused() {
    let mut m = started();
    assert_eq!(m.run(incoming(7, 1)), refused(1, CloseReason::UnknownPeer));
    assert_eq!(m.run(outgoing(3, 2)), refused(2, CloseReason::UnknownPeer));
    assert_eq!(m.run(lost(7)), Ok(vec![]));
    assert_eq!(m.run(ask(CoreAction::ConnectToPeer(id(7)))), Ok(vec![]));
    m.run(ask(CoreAction::DisconnectFromPeer(id(7)))).unwrap();
    assert_eq!(m.run(incoming(7, 3)), refused(3, CloseReason::NotNow));
    assert_eq!(queued(&mut m, 7), vec![]);
}

#[test]
fn connections_are_refused_before_the_start() {
    let mut m = manager();
    assert_eq!(m.run(incoming(8, 1)), refused(1, CloseReason::NotNow));
    assert_eq!(m.run(outgoing(2, 2)), refused(2, CloseReason::NotNow));
}

#[test]
fn lost_connection_is_sought_again() {
    let mut m = started();
    m.run(outgoing(2, 1)).unwrap();
    m.run(incoming(8, 2)).unwrap();
    assert_eq!(
        m.run(lost(2)),
        Ok(vec![
            IrohCommand::Notify(IrohEvent::DisconnectedFromPeer(id(2))),
            IrohCommand::StartDial(id(2)),
            IrohCommand::Release { connection: 1 },
        ])
    );
    assert_eq!(
        m.run(lost(8)),
        Ok(vec![
            IrohCommand::Notify(IrohEvent::DisconnectedFromPeer(id(8))),
            IrohCommand::Release { connection: 2 },
        ])
    );
    assert_eq!(m.run(outgoing(2, 3)), Ok(served(2, 3)));
    assert_eq!(m.run(incoming(8, 4)), Ok(served(8, 4)));
}

#[test]
fn loss_without_a_connection_is_ignored() {
    let mut m = started();
    assert_eq!(m.run(lost(2)), Ok(vec![]));
    assert_eq!(m.run(lost(8)), Ok(vec![]));
}

#[test]
fn coordinator_can_disconnect() {
    let mut m = started();
    m.run(incoming(8, 1)).unwrap();
    assert_eq!(
        m.run(ask(CoreAction::DisconnectFromPeer(id(8)))),
        Ok(vec![
            IrohCommand::AbortSession { connection: 1 },
            IrohCommand::Close { connection: 1, reason: CloseReason::CoreRequest },
            IrohCommand::Notify(IrohEvent::DisconnectedFromPeer(id(8))),
        ])
    );
    assert_eq!(m.run(incoming(8, 2)), refused(2, CloseReason::NotNow));
    assert_eq!(
        m.run(ask(CoreAction::DisconnectFromPeer(id(2)))),
        Ok(vec![IrohCommand::AbortDial(id(2))])
    );
    assert_eq!(m.run(ask(CoreAction::DisconnectFromPeer(id(2)))), Ok(vec![]));
}

#[test]
fn coordinator_can_connect_again() {
    let mut m = started();
    m.run(ask(CoreAction::DisconnectFromPeer(id(2)))).unwrap();
    m.run(ask(CoreAction::DisconnectFromPeer(id(8)))).unwrap();
    assert_eq!(
        m.run(ask(CoreAction::ConnectToPeer(id(2)))),
        Ok(vec![IrohCommand::StartDial(id(2))])
    );
    assert_eq!(m.run(ask(CoreAction::ConnectToPeer(id(2)))), Ok(vec![]));
    assert_eq!(m.run(ask(CoreAction::ConnectToPeer(id(8)))), Ok(vec![]));
    assert_eq!(m.run(incoming(8, 1)), Ok(served(8, 1)));
}

#[test]
fn packets_without_a_connection_are_dropped() {
    let mut m = started();
    assert_eq!(queued(&mut m, 2), vec![]);
    assert_eq!(queued(&mut m, 9), vec![]);
}

#[test]
fn manager_tells_why_it_ends() {
    let mut m = started();
    assert_eq!(
        m.run(IrohInput::FromTasks(Some(ConnectionEvent::InternalError))),
        Err(IrohStop::InternalError)
    );
    assert_eq!(m.run(IrohInput::FromTasks(None)), Err(IrohStop::TasksGone));
    assert_eq!(m.run(IrohInput::FromCoordinator(None)), Err(IrohStop::CoordinatorGone));
    assert_eq!(m.handle_conn_event(ConnectionEvent::InternalError), Err(()));
}

#[test]
fn session_forwards_both_ways() {
    let p = Bytes::from_static(b"packet");
    assert_eq!(
        on_peer_connected(id(2), SessionInput::Datagram(p.clone())),
        SessionStep::Forward(IrohEvent::RecvPacketFrom(p.clone(), id(2)))
    );
    assert_eq!(
        on_peer_connected(id(2), SessionInput::Outgoing(Some(p.clone()))),
        SessionStep::SendDatagram(p)
    );
}

#[test]
fn session_ends_with_its_connection_or_its_channel() {
    let report = SessionStep::Report(ConnectionEvent::Disconnected(id(2)));
    assert_eq!(on_peer_connected(id(2), SessionInput::ReadFailed), report);
    assert_eq!(
        on_peer_connected(id(2), SessionInput::DatagramSent(DatagramOutcome::Failed)),
        report
    );
    assert_eq!(on_peer_connected(id(2), SessionInput::Outgoing(None)), SessionStep::End);
    assert_eq!(
        on_peer_connected(id(2), SessionInput::DatagramSent(DatagramOutcome::TooLarge)),
        SessionStep::Continue
    );
    assert_eq!(
        on_peer_connected(id(2), SessionInput::DatagramSent(DatagramOutcome::Sent)),
        SessionStep::Continue
    );
}

#[test]
fn dialling_is_repeated_until_it_works() {
    assert_eq!(connect_to_peer(id(2), None), DialStep::RetryAfter(1));
    assert_eq!(
        connect_to_peer(id(2), Some(7)),
        DialStep::Report(ConnectionEvent::OutgoingConnection { peer: id(2), connection: 7 })
    );
}

#[test]
fn close_reasons_are_worded() {
    let wordings = [
        (CloseReason::DataRace, "connection is expired: data race resolver"),
        (CloseReason::Replaced, "connection is expired: peer open another connection"),
        (CloseReason::KeyOrderViolated, "peer violated public keys invariant"),
        (CloseReason::NotNow, "can't connect right now"),
        (CloseReason::UnknownPeer, "can't connect to unknown peer"),
        (CloseReason::CoreRequest, "disconnect from peer core action"),
    ];
    for (reason, wording) in wordings {
        assert_eq!(reason.message(), wording);
    }
}

#[test]
fn init_errors_and_addresses_are_worded() {
    assert_eq!(
        InitError::BindAddrError("bad address".to_string()).message(),
        "Iroh init error: bad address"
    );
    assert_eq!(InitError::BuildError("no socket".to_string()).message(), "Iroh init error: no socket");
    assert_eq!(bind_addr(6767), "0.0.0.0:6767");
    assert_eq!(bind_addr(0), "0.0.0.0:0");
    assert_eq!(bind_addr(65535), "0.0.0.0:65535");
}

fn dials(commands: &[IrohCommand], n: u8) -> bool {
    commands.contains(&IrohCommand::StartDial(id(n)))
}

#[test]
fn pair_gets_its_tunnel_and_gets_it_back() {
    let mut waiter = Iroh::new(id(1), &vec![id(2)]);
    let mut dialler = Iroh::new(id(2), &vec![id(1)]);
    assert!(!dials(&waiter.init(), 2));
    assert!(dials(&dialler.init(), 1));
    assert_eq!(dialler.run(outgoing(1, 10)), Ok(served(1, 10)));
    assert_eq!(waiter.run(incoming(2, 20)), Ok(served(2, 20)));

    assert!(!dials(&waiter.run(lost(2)).unwrap(), 2));
    assert!(dials(&dialler.run(lost(1)).unwrap(), 1));
    assert_eq!(dialler.run(outgoing(1, 11)), Ok(served(1, 11)));
    assert_eq!(waiter.run(incoming(2, 21)), Ok(served(2, 21)));
}
