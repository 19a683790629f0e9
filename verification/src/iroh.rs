//! The connection manager: one tunnel to each peer, whoever dials and however often.
use bytes::Bytes;
use vstd::prelude::*;

use crate::key::{KeyOrder, PublicKey};
use crate::key_map::KeyMap;
use crate::text::decimal_text;

verus! {

/// How many messages the channels of the manager hold.
pub const CHANNEL_CAPACITY: usize = 8192;

/// How long to wait before dialling again, in seconds.
pub const DIAL_RETRY_SECS: u64 = 1;

/// The connection manager of a node.
pub struct Iroh {
    id: PublicKey,
    state_table: KeyMap<ConnectionState>,
    peers: KeyMap<()>,
    started: bool,
}

/// Where the connection with a peer stands. Connections are told apart by number.
#[derive(Clone, Copy, Debug, PartialEq, Eq, Structural)]
pub enum ConnectionState {
    Connected { connection: u64 },
    Connecting,
    WaitingIncomingConnection,
    Disconnected,
}

/// What the manager tells the coordinator.
#[derive(Debug, PartialEq)]
pub enum IrohEvent {
    ConnectedToPeer(PublicKey),
    DisconnectedFromPeer(PublicKey),
    RecvPacketFrom(Bytes, PublicKey),
}

/// What the coordinator tells the manager.
#[derive(Debug, PartialEq)]
pub enum CoreAction {
    SendPacketTo(Bytes, PublicKey),
    ConnectToPeer(PublicKey),
    DisconnectFromPeer(PublicKey),
}

/// What the tasks of the manager tell it.
#[derive(Clone, Copy, Debug, PartialEq, Eq)]
pub enum ConnectionEvent {
    OutgoingConnection { peer: PublicKey, connection: u64 },
    IncomingConnection { peer: PublicKey, connection: u64 },
    Disconnected(PublicKey),
    InternalError,
}

/// Why the endpoint could not be made; the text says more.
#[derive(Debug)]
pub enum InitError {
    BindAddrError(String),
    BuildError(String),
}

/// Why a connection is closed.
#[derive(Clone, Copy, Debug, PartialEq, Eq, Structural)]
pub enum CloseReason {
    /// An outgoing connection takes its place.
    DataRace,
    /// The peer has opened another connection.
    Replaced,
    /// It is for the other side to dial.
    KeyOrderViolated,
    NotNow,
    UnknownPeer,
    CoreRequest,
}

/// What the manager wants done.
#[derive(Debug, PartialEq)]
pub enum IrohCommand {
    /// Tell the coordinator.
    Notify(IrohEvent),
    /// Start the task that serves the connection.
    StartSession { peer: PublicKey, connection: u64 },
    /// Abort the task that serves the connection.
    AbortSession { connection: u64 },
    /// Close the connection and give it up.
    Close { connection: u64, reason: CloseReason },
    /// Give the connection up: its task finds its channel closed and ends, and the connection
    /// closes with it.
    Release { connection: u64 },
    /// Start the task that dials the peer.
    StartDial(PublicKey),
    /// Abort the task that dials the peer.
    AbortDial(PublicKey),
    /// Hand a packet to the task that serves the connection, unless its channel is full.
    QueuePacket { connection: u64, packet: Bytes },
    /// Start the task that accepts connections.
    StartAccepting,
}

/// What the manager waits for.
#[derive(Debug, PartialEq)]
pub enum IrohInput {
    /// From the tasks; `None` when none of them can send any more.
    FromTasks(Option<ConnectionEvent>),
    /// From the coordinator; `None` when it sends no more.
    FromCoordinator(Option<CoreAction>),
}

/// Why the manager ends.
#[derive(Clone, Copy, Debug, PartialEq, Eq, Structural)]
pub enum IrohStop {
    InternalError,
    TasksGone,
    CoordinatorGone,
}

/// The manager as the contracts see it.
pub struct IrohView {
    pub id: PublicKey,
    pub table: Map<PublicKey, ConnectionState>,
    /// The whitelist, each key once, in ascending order.
    pub peers: Seq<PublicKey>,
    /// Whether the manager has been started.
    pub started: bool,
}

impl View for Iroh {
    type V = IrohView;

    closed spec fn view(&self) -> IrohView {
        IrohView {
            id: self.id,
            table: self.state_table@,
            peers: self.peers.keys(),
            started: self.started,
        }
    }
}

impl CloseReason {
    /// The reason as the other side is told it.
    pub open spec fn text(self) -> Seq<char> {
        match self {
            CloseReason::DataRace => "connection is expired: data race resolver"@,
            CloseReason::Replaced => "connection is expired: peer open another connection"@,
            CloseReason::KeyOrderViolated => "peer violated public keys invariant"@,
            CloseReason::NotNow => "can't connect right now"@,
            CloseReason::UnknownPeer => "can't connect to unknown peer"@,
            CloseReason::CoreRequest => "disconnect from peer core action"@,
        }
    }

    /// The reason as the other side is told it.
    pub fn message(&self) -> (s: String)
        ensures
            s@ == self.text(),
    {
        match self {
            CloseReason::DataRace => "connection is expired: data race resolver".to_owned(),
            CloseReason::Replaced => {
                "connection is expired: peer open another connection".to_owned()
            },
            CloseReason::KeyOrderViolated => "peer violated public keys invariant".to_owned(),
            CloseReason::NotNow => "can't connect right now".to_owned(),
            CloseReason::UnknownPeer => "can't connect to unknown peer".to_owned(),
            CloseReason::CoreRequest => "disconnect from peer core action".to_owned(),
        }
    }
}

impl InitError {
    /// What went wrong, for a reader.
    pub fn message(&self) -> (s: String)
        ensures
            s@ == "Iroh init error: "@ + (match *self {
                InitError::BindAddrError(e) => e@,
                InitError::BuildError(e) => e@,
            }),
    {
        match self {
            InitError::BindAddrError(e) => "Iroh init error: ".to_owned().concat(e.as_str()),
            InitError::BuildError(e) => "Iroh init error: ".to_owned().concat(e.as_str()),
        }
    }
}

/// The socket address to listen on: every interface, the given port.
pub fn bind_addr(listen_port: u16) -> (s: String)
    ensures
        s@ == "0.0.0.0:"@ + crate::text::decimal(listen_port as nat),
{
    "0.0.0.0:".to_owned().concat(decimal_text(listen_port as u64).as_str())
}

/// What became of a datagram that was handed to a connection.
#[derive(Clone, Copy, Debug, PartialEq, Eq, Structural)]
pub enum DatagramOutcome {
    Sent,
    TooLarge,
    Failed,
}

/// What the task that serves a connection is told.
#[derive(Debug, PartialEq)]
pub enum SessionInput {
    /// The peer has sent a packet.
    Datagram(Bytes),
    /// The connection gives no more packets.
    ReadFailed,
    /// A packet for the peer; `None` when the manager sends no more.
    Outgoing(Option<Bytes>),
    /// A packet was handed to the connection.
    DatagramSent(DatagramOutcome),
}

/// What the task that serves a connection does next.
#[derive(Debug, PartialEq)]
pub enum SessionStep {
    Continue,
    /// Tell the coordinator, unless its channel is full.
    Forward(IrohEvent),
    /// Hand the packet to the connection.
    SendDatagram(Bytes),
    /// Tell the manager, and end.
    Report(ConnectionEvent),
    End,
}

/// What the task that serves the connection with a peer does next.
pub open spec fn session_step(peer: PublicKey, input: SessionInput) -> SessionStep {
    match input {
        SessionInput::Datagram(packet) => SessionStep::Forward(
            IrohEvent::RecvPacketFrom(packet, peer),
        ),
        SessionInput::ReadFailed => SessionStep::Report(ConnectionEvent::Disconnected(peer)),
        SessionInput::Outgoing(Some(packet)) => SessionStep::SendDatagram(packet),
        SessionInput::Outgoing(None) => SessionStep::End,
        SessionInput::DatagramSent(DatagramOutcome::Failed) => SessionStep::Report(
            ConnectionEvent::Disconnected(peer),
        ),
        SessionInput::DatagramSent(_) => SessionStep::Continue,
    }
}

/// One step of the task that serves the connection with a peer.
pub fn on_peer_connected(peer: PublicKey, input: SessionInput) -> (step: SessionStep)
    ensures
        step == session_step(peer, input),
{
    match input {
        SessionInput::Datagram(packet) => {
            SessionStep::Forward(IrohEvent::RecvPacketFrom(packet, peer))
        },
        SessionInput::ReadFailed => SessionStep::Report(ConnectionEvent::Disconnected(peer)),
        SessionInput::Outgoing(Some(packet)) => SessionStep::SendDatagram(packet),
        SessionInput::Outgoing(None) => SessionStep::End,
        SessionInput::DatagramSent(outcome) => match outcome {
            DatagramOutcome::Failed => SessionStep::Report(ConnectionEvent::Disconnected(peer)),
            _ => SessionStep::Continue,
        },
    }
}

/// What the task that dials a peer does next.
#[derive(Debug, PartialEq)]
pub enum DialStep {
    /// Tell the manager, and end.
    Report(ConnectionEvent),
    /// Forget what was looked up of the peer, wait this many seconds, and dial again.
    RetryAfter(u64),
}

/// What the task that dials a peer does next.
pub open spec fn dial_step(to: PublicKey, attempt: Option<u64>) -> DialStep {
    match attempt {
        Some(connection) => DialStep::Report(
            ConnectionEvent::OutgoingConnection { peer: to, connection },
        ),
        None => DialStep::RetryAfter(DIAL_RETRY_SECS),
    }
}

/// One step of the task that dials a peer: the attempt gave a connection, or failed.
pub fn connect_to_peer(to: PublicKey, attempt: Option<u64>) -> (step: DialStep)
    ensures
        step == dial_step(to, attempt),
{
    match attempt {
        Some(connection) => {
            DialStep::Report(ConnectionEvent::OutgoingConnection { peer: to, connection })
        },
        None => DialStep::RetryAfter(DIAL_RETRY_SECS),
    }
}

/// The commands that put a connection into service.
pub open spec fn serve(peer: PublicKey, connection: u64) -> Seq<IrohCommand> {
    seq![
        IrohCommand::Notify(IrohEvent::ConnectedToPeer(peer)),
        IrohCommand::StartSession { peer, connection },
    ]
}

/// The commands that take an expired connection out of service.
pub open spec fn expire(connection: u64, reason: CloseReason) -> Seq<IrohCommand> {
    seq![
        IrohCommand::AbortSession { connection },
        IrohCommand::Close { connection, reason },
    ]
}

/// The command that turns a connection away.
pub open spec fn refuse(connection: u64, reason: CloseReason) -> Seq<IrohCommand> {
    seq![IrohCommand::Close { connection, reason }]
}

impl IrohView {
    /// Of two nodes, the one with the smaller key waits and the other dials.
    pub open spec fn dials(self, peer: PublicKey) -> bool {
        !self.id.lt(peer)
    }

    /// The manager dials only peers that it is to dial and waits only for those that dial it; every
    /// whitelisted peer has a state.
    pub open spec fn wf(self) -> bool {
        &&& self.peers.no_duplicates()
        &&& forall|i: int| 0 <= i < self.peers.len() ==> self.table.contains_key(#[trigger] self.peers[i])
        &&& forall|k: PublicKey| #[trigger]
            self.table.contains_key(k) ==> {
                &&& self.table[k] is Connecting ==> self.dials(k)
                &&& self.table[k] is WaitingIncomingConnection ==> !self.dials(k)
            }
    }

    /// The manager with the state of one peer changed.
    pub open spec fn with(self, peer: PublicKey, state: ConnectionState) -> IrohView {
        IrohView { table: self.table.insert(peer, state), ..self }
    }

    /// The state in which the manager is to get a connection with the peer.
    pub open spec fn seeking(self, peer: PublicKey) -> ConnectionState {
        if self.dials(peer) {
            ConnectionState::Connecting
        } else {
            ConnectionState::WaitingIncomingConnection
        }
    }

    /// The commands by which the manager is to get a connection with the peer.
    pub open spec fn seek(self, peer: PublicKey) -> Seq<IrohCommand> {
        if self.dials(peer) {
            seq![IrohCommand::StartDial(peer)]
        } else {
            Seq::empty()
        }
    }

    /// The next state and the commands when this node has dialled the peer.
    pub open spec fn on_outgoing(self, peer: PublicKey, connection: u64) -> (
        IrohView,
        Seq<IrohCommand>,
    ) {
        if !self.table.contains_key(peer) {
            (self, refuse(connection, CloseReason::UnknownPeer))
        } else {
            match self.table[peer] {
                ConnectionState::Connecting => (
                    self.with(peer, ConnectionState::Connected { connection }),
                    serve(peer, connection),
                ),
                ConnectionState::Connected { connection: expired } => (
                    self.with(peer, ConnectionState::Connected { connection }),
                    expire(expired, CloseReason::DataRace) + serve(peer, connection),
                ),
                ConnectionState::WaitingIncomingConnection => (
                    self,
                    refuse(connection, CloseReason::KeyOrderViolated),
                ),
                ConnectionState::Disconnected => (self, refuse(connection, CloseReason::NotNow)),
            }
        }
    }

    /// The next state and the commands when the peer has dialled this node.
    pub open spec fn on_incoming(self, peer: PublicKey, connection: u64) -> (
        IrohView,
        Seq<IrohCommand>,
    ) {
        if !self.table.contains_key(peer) {
            (self, refuse(connection, CloseReason::UnknownPeer))
        } else {
            match self.table[peer] {
                ConnectionState::WaitingIncomingConnection => (
                    self.with(peer, ConnectionState::Connected { connection }),
                    serve(peer, connection),
                ),
                ConnectionState::Connected { connection: expired } => (
                    self.with(peer, ConnectionState::Connected { connection }),
                    expire(expired, CloseReason::Replaced) + serve(peer, connection),
                ),
                ConnectionState::Connecting => (
                    self,
                    refuse(connection, CloseReason::KeyOrderViolated),
                ),
                ConnectionState::Disconnected => (self, refuse(connection, CloseReason::NotNow)),
            }
        }
    }

    /// The next state and the commands when the connection with the peer is lost.
    pub open spec fn on_disconnected(self, peer: PublicKey) -> (IrohView, Seq<IrohCommand>) {
        if self.table.contains_key(peer) && self.table[peer] is Connected {
            (
                self.with(peer, self.seeking(peer)),
                seq![IrohCommand::Notify(IrohEvent::DisconnectedFromPeer(peer))] + self.seek(peer)
                    + seq![IrohCommand::Release { connection: self.table[peer]->connection }],
            )
        } else {
            (self, Seq::empty())
        }
    }

    /// The next state and the commands for what a task reports; an internal error has none.
    pub open spec fn on_conn_event(self, event: ConnectionEvent) -> (IrohView, Seq<IrohCommand>) {
        match event {
            ConnectionEvent::OutgoingConnection { peer, connection } => self.on_outgoing(
                peer,
                connection,
            ),
            ConnectionEvent::IncomingConnection { peer, connection } => self.on_incoming(
                peer,
                connection,
            ),
            ConnectionEvent::Disconnected(peer) => self.on_disconnected(peer),
            ConnectionEvent::InternalError => (self, Seq::empty()),
        }
    }

    /// The next state and the commands for what the coordinator asks.
    pub open spec fn on_core_event(self, event: CoreAction) -> (IrohView, Seq<IrohCommand>) {
        match event {
            CoreAction::SendPacketTo(packet, to) => (
                self,
                if self.table.contains_key(to) && self.table[to] is Connected {
                    seq![
                        IrohCommand::QueuePacket { connection: self.table[to]->connection, packet },
                    ]
                } else {
                    Seq::empty()
                },
            ),
            CoreAction::ConnectToPeer(peer) => if self.table.contains_key(peer)
                && self.table[peer] is Disconnected {
                (self.with(peer, self.seeking(peer)), self.seek(peer))
            } else {
                (self, Seq::empty())
            },
            CoreAction::DisconnectFromPeer(peer) => (
                self.with(peer, ConnectionState::Disconnected),
                if !self.table.contains_key(peer) {
                    Seq::empty()
                } else {
                    match self.table[peer] {
                        ConnectionState::Connected { connection } => expire(
                            connection,
                            CloseReason::CoreRequest,
                        ).push(IrohCommand::Notify(IrohEvent::DisconnectedFromPeer(peer))),
                        ConnectionState::Connecting => seq![IrohCommand::AbortDial(peer)],
                        _ => Seq::empty(),
                    }
                },
            ),
        }
    }

    /// The commands that seek a connection with each of some peers.
    pub open spec fn seek_all(self, peers: Seq<PublicKey>) -> Seq<IrohCommand>
        decreases peers.len(),
    {
        if peers.len() == 0 {
            Seq::empty()
        } else {
            self.seek_all(peers.drop_last()) + self.seek(peers.last())
        }
    }

    /// The manager that seeks a connection with each of some peers.
    pub open spec fn seeking_all(self, peers: Seq<PublicKey>) -> IrohView {
        IrohView {
            table: Map::new(
                |k: PublicKey| self.table.contains_key(k) || peers.contains(k),
                |k: PublicKey|
                    if peers.contains(k) {
                        self.seeking(k)
                    } else {
                        self.table[k]
                    },
            ),
            ..self
        }
    }

    /// The next state and the commands when the manager starts. The whitelisted peers are sought at
    /// the first start alone; a later one only accepts connections.
    pub open spec fn on_init(self) -> (IrohView, Seq<IrohCommand>) {
        if self.started {
            (self, seq![IrohCommand::StartAccepting])
        } else {
            (
                IrohView { started: true, ..self.seeking_all(self.peers) },
                self.seek_all(self.peers).push(IrohCommand::StartAccepting),
            )
        }
    }

    /// The next state and the commands, or why the manager ends.
    pub open spec fn on_input(self, input: IrohInput) -> Result<
        (IrohView, Seq<IrohCommand>),
        IrohStop,
    > {
        match input {
            IrohInput::FromTasks(Some(ConnectionEvent::InternalError)) => Err(
                IrohStop::InternalError,
            ),
            IrohInput::FromTasks(Some(event)) => Ok(self.on_conn_event(event)),
            IrohInput::FromTasks(None) => Err(IrohStop::TasksGone),
            IrohInput::FromCoordinator(Some(event)) => Ok(self.on_core_event(event)),
            IrohInput::FromCoordinator(None) => Err(IrohStop::CoordinatorGone),
        }
    }

    /// Changing one state within the order of keys keeps the invariant.
    pub(crate) proof fn lemma_with(self, peer: PublicKey, state: ConnectionState)
        requires
            self.wf(),
            state is Connecting ==> self.dials(peer),
            state is WaitingIncomingConnection ==> !self.dials(peer),
        ensures
            self.with(peer, state).wf(),
    {
        let after = self.with(peer, state);
        assert forall|k: PublicKey| #[trigger] after.table.contains_key(k) implies {
            &&& after.table[k] is Connecting ==> after.dials(k)
            &&& after.table[k] is WaitingIncomingConnection ==> !after.dials(k)
        } by {
            if k != peer {
                assert(self.table.contains_key(k));
            }
        }
    }
}

impl Iroh {
    /// The tables of the manager are in order.
    pub closed spec fn tables_wf(&self) -> bool {
        self.state_table.wf() && self.peers.wf()
    }

    /// The invariant of the manager.
    pub open spec fn wf(&self) -> bool {
        &&& self.tables_wf()
        &&& self@.wf()
    }

    /// A manager for the given node and whitelist, with every peer disconnected.
    pub fn new(id: PublicKey, peers: &Vec<PublicKey>) -> (iroh: Iroh)
        ensures
            iroh.wf(),
            iroh@.id == id,
            !iroh@.started,
            forall|k: PublicKey| iroh@.peers.contains(k) <==> peers@.contains(k),
            forall|k: PublicKey| #[trigger] iroh@.table.contains_key(k) <==> peers@.contains(k),
            forall|k: PublicKey| #[trigger]
                iroh@.table.contains_key(k) ==> iroh@.table[k] is Disconnected,
    {
        let mut state_table: KeyMap<ConnectionState> = KeyMap::new();
        let mut whitelist: KeyMap<()> = KeyMap::new();
        let mut i: usize = 0;
        while i < peers.len()
            invariant
                i <= peers@.len(),
                state_table.wf(),
                whitelist.wf(),
                forall|k: PublicKey| #[trigger]
                    state_table@.contains_key(k) <==> peers@.take(i as int).contains(k),
                forall|k: PublicKey| #[trigger]
                    state_table@.contains_key(k) ==> state_table@[k] is Disconnected,
                forall|k: PublicKey| #[trigger]
                    whitelist@.contains_key(k) <==> peers@.take(i as int).contains(k),
            decreases peers@.len() - i,
        {
            state_table.insert(peers[i], ConnectionState::Disconnected);
            whitelist.insert(peers[i], ());
            proof {
                let now = peers@.take(i as int);
                let later = peers@.take(i + 1);
                assert(later =~= now.push(peers@[i as int]));
                assert forall|k: PublicKey| later.contains(k) <==> (now.contains(k) || k
                    == peers@[i as int]) by {
                    if now.contains(k) {
                        let j = choose|j: int| 0 <= j < now.len() && now[j] == k;
                        assert(later[j] == k);
                    }
                    assert(later[i as int] == peers@[i as int]);
                }
            }
            i = i + 1;
        }
        let iroh = Iroh { id, state_table, peers: whitelist, started: false };
        proof {
            assert(peers@.take(peers@.len() as int) =~= peers@);
            whitelist.keys_are_the_domain();
            assert forall|k: PublicKey| iroh@.peers.contains(k) <==> peers@.contains(k) by {
                assert(whitelist@.contains_key(k) <==> peers@.contains(k));
            }
            assert forall|j: int| 0 <= j < iroh@.peers.len() implies iroh@.table.contains_key(
                #[trigger] iroh@.peers[j],
            ) by {
                assert(iroh@.peers.contains(iroh@.peers[j]));
            }
        }
        iroh
    }

    /// Whether this node is to dial the peer.
    fn is_dialler(&self, peer: &PublicKey) -> (r: bool)
        ensures
            r == self@.dials(*peer),
    {
        match self.id.order(peer) {
            KeyOrder::Less => false,
            _ => true,
        }
    }

    /// Dials the peer or waits for it, as the order of keys has it.
    fn init_new_connection(&mut self, pub_key: PublicKey, commands: &mut Vec<IrohCommand>)
        requires
            old(self).wf(),
        ensures
            final(self).wf(),
            final(self)@ == old(self)@.with(pub_key, old(self)@.seeking(pub_key)),
            final(commands)@ == old(commands)@ + old(self)@.seek(pub_key),
    {
        let ghost before = self@;
        proof {
            before.lemma_with(pub_key, before.seeking(pub_key));
        }
        if self.is_dialler(&pub_key) {
            commands.push(IrohCommand::StartDial(pub_key));
            self.state_table.insert(pub_key, ConnectionState::Connecting);
        } else {
            self.state_table.insert(pub_key, ConnectionState::WaitingIncomingConnection);
        }
        assert(self@ == before.with(pub_key, before.seeking(pub_key)));
    }

    /// Puts a connection into service.
    fn init_ready_connection(
        &mut self,
        peer: PublicKey,
        connection: u64,
        commands: &mut Vec<IrohCommand>,
    )
        requires
            old(self).wf(),
        ensures
            final(self).wf(),
            final(self)@ == old(self)@.with(peer, ConnectionState::Connected { connection }),
            final(commands)@ == old(commands)@ + serve(peer, connection),
    {
        let ghost before = self@;
        proof {
            before.lemma_with(peer, ConnectionState::Connected { connection });
        }
        commands.push(IrohCommand::Notify(IrohEvent::ConnectedToPeer(peer)));
        commands.push(IrohCommand::StartSession { peer, connection });
        self.state_table.insert(peer, ConnectionState::Connected { connection });
        assert(self@ == before.with(peer, ConnectionState::Connected { connection }));
    }

    /// The state of a peer, if it has one.
    fn state_of(&self, peer: &PublicKey) -> (r: Option<ConnectionState>)
        requires
            self.wf(),
        ensures
            r == (if self@.table.contains_key(*peer) {
                Some(self@.table[*peer])
            } else {
                None
            }),
    {
        match self.state_table.get(peer) {
            Some(state) => Some(*state),
            None => None,
        }
    }

    /// Starts the manager: it seeks a connection with every whitelisted peer, unless it was started
    /// before, and accepts connections.
    pub fn init(&mut self) -> (commands: Vec<IrohCommand>)
        requires
            old(self).wf(),
        ensures
            final(self).wf(),
            (final(self)@, commands@) == old(self)@.on_init(),
    {
        let ghost before = self@;
        let ghost keys = self@.peers;
        let mut commands: Vec<IrohCommand> = Vec::new();
        if self.started {
            commands.push(IrohCommand::StartAccepting);
            return commands;
        }
        let mut i: usize = 0;
        assert(self@.table =~= before.seeking_all(keys.take(0)).table);
        while i < self.peers.len()
            invariant
                self.wf(),
                i <= keys.len(),
                keys == before.peers,
                keys == self.peers.keys(),
                self@ == before.seeking_all(keys.take(i as int)),
                commands@ == before.seek_all(keys.take(i as int)),
            decreases keys.len() - i,
        {
            let peer = self.peers.key_at(i);
            self.init_new_connection(peer, &mut commands);
            proof {
                let now = keys.take(i as int);
                let later = keys.take(i + 1);
                assert(later.drop_last() =~= now);
                assert(later.last() == peer);
                assert forall|k: PublicKey| later.contains(k) <==> (now.contains(k) || k == peer) by {
                    if now.contains(k) {
                        let j = choose|j: int| 0 <= j < now.len() && now[j] == k;
                        assert(later[j] == k);
                    }
                    assert(later[i as int] == peer);
                }
                assert(self@.table =~= before.seeking_all(later).table);
            }
            i = i + 1;
        }
        assert(keys.take(keys.len() as int) =~= keys);
        self.started = true;
        commands.push(IrohCommand::StartAccepting);
        commands
    }

    /// Handles whatever the manager was waiting for, or tells why it ends.
    pub fn run(&mut self, input: IrohInput) -> (r: Result<Vec<IrohCommand>, IrohStop>)
        requires
            old(self).wf(),
        ensures
            final(self).wf(),
            match old(self)@.on_input(input) {
                Ok((next, commands)) => final(self)@ == next && (r matches Ok(list) && list@
                    == commands),
                Err(stop) => final(self)@ == old(self)@ && r == Err::<Vec<IrohCommand>, IrohStop>(
                    stop,
                ),
            },
    {
        match input {
            IrohInput::FromTasks(Some(event)) => match self.handle_conn_event(event) {
                Ok(commands) => Ok(commands),
                Err(_) => Err(IrohStop::InternalError),
            },
            IrohInput::FromTasks(None) => Err(IrohStop::TasksGone),
            IrohInput::FromCoordinator(Some(event)) => Ok(self.handle_core_event(event)),
            IrohInput::FromCoordinator(None) => Err(IrohStop::CoordinatorGone),
        }
    }

    /// Handles what a task reports.
    pub fn handle_conn_event(&mut self, event: ConnectionEvent) -> (r: Result<
        Vec<IrohCommand>,
        (),
    >)
        requires
            old(self).wf(),
        ensures
            final(self).wf(),
            final(self)@ == old(self)@.on_conn_event(event).0,
            match r {
                Ok(commands) => event !is InternalError && commands@ == old(self)@.on_conn_event(
                    event,
                ).1,
                Err(_) => event is InternalError,
            },
    {
        let mut commands: Vec<IrohCommand> = Vec::new();
        match event {
            ConnectionEvent::OutgoingConnection { peer, connection } => {
                match self.state_of(&peer) {
                    Some(ConnectionState::Connecting) => {
                        self.init_ready_connection(peer, connection, &mut commands);
                    },
                    Some(ConnectionState::Connected { connection: expired }) => {
                        commands.push(IrohCommand::AbortSession { connection: expired });
                        commands.push(
                            IrohCommand::Close { connection: expired, reason: CloseReason::DataRace },
                        );
                        self.init_ready_connection(peer, connection, &mut commands);
                    },
                    Some(ConnectionState::WaitingIncomingConnection) => {
                        commands.push(
                            IrohCommand::Close { connection, reason: CloseReason::KeyOrderViolated },
                        );
                    },
                    Some(ConnectionState::Disconnected) => {
                        commands.push(
                            IrohCommand::Close { connection, reason: CloseReason::NotNow },
                        );
                    },
                    None => {
                        commands.push(
                            IrohCommand::Close { connection, reason: CloseReason::UnknownPeer },
                        );
                    },
                }
            },
            ConnectionEvent::IncomingConnection { peer, connection } => {
                match self.state_of(&peer) {
                    Some(ConnectionState::WaitingIncomingConnection) => {
                        self.init_ready_connection(peer, connection, &mut commands);
                    },
                    Some(ConnectionState::Connected { connection: expired }) => {
                        commands.push(IrohCommand::AbortSession { connection: expired });
                        commands.push(
                            IrohCommand::Close { connection: expired, reason: CloseReason::Replaced },
                        );
                        self.init_ready_connection(peer, connection, &mut commands);
                    },
                    Some(ConnectionState::Connecting) => {
                        commands.push(
                            IrohCommand::Close { connection, reason: CloseReason::KeyOrderViolated },
                        );
                    },
                    Some(ConnectionState::Disconnected) => {
                        commands.push(
                            IrohCommand::Close { connection, reason: CloseReason::NotNow },
                        );
                    },
                    None => {
                        commands.push(
                            IrohCommand::Close { connection, reason: CloseReason::UnknownPeer },
                        );
                    },
                }
            },
            ConnectionEvent::Disconnected(pub_key) => {
                match self.state_of(&pub_key) {
                    Some(ConnectionState::Connected { connection }) => {
                        commands.push(
                            IrohCommand::Notify(IrohEvent::DisconnectedFromPeer(pub_key)),
                        );
                        self.init_new_connection(pub_key, &mut commands);
                        commands.push(IrohCommand::Release { connection });
                    },
                    _ => {},
                }
            },
            ConnectionEvent::InternalError => {
                return Err(());
            },
        }
        assert(commands@ =~= old(self)@.on_conn_event(event).1);
        Ok(commands)
    }

    /// Handles what the coordinator asks.
    pub fn handle_core_event(&mut self, event: CoreAction) -> (commands: Vec<IrohCommand>)
        requires
            old(self).wf(),
        ensures
            final(self).wf(),
            (final(self)@, commands@) == old(self)@.on_core_event(event),
    {
        let ghost before = self@;
        let mut commands: Vec<IrohCommand> = Vec::new();
        match event {
            CoreAction::SendPacketTo(packet, to) => {
                match self.state_of(&to) {
                    Some(ConnectionState::Connected { connection }) => {
                        commands.push(IrohCommand::QueuePacket { connection, packet });
                    },
                    _ => {},
                }
            },
            CoreAction::ConnectToPeer(pub_key) => {
                match self.state_of(&pub_key) {
                    Some(ConnectionState::Disconnected) => {
                        self.init_new_connection(pub_key, &mut commands);
                    },
                    _ => {},
                }
            },
            CoreAction::DisconnectFromPeer(pub_key) => {
                match self.state_of(&pub_key) {
                    Some(ConnectionState::Connected { connection }) => {
                        commands.push(IrohCommand::AbortSession { connection });
                        commands.push(
                            IrohCommand::Close { connection, reason: CloseReason::CoreRequest },
                        );
                        commands.push(
                            IrohCommand::Notify(IrohEvent::DisconnectedFromPeer(pub_key)),
                        );
                    },
                    Some(ConnectionState::Connecting) => {
                        commands.push(IrohCommand::AbortDial(pub_key));
                    },
                    _ => {},
                }
                proof {
                    before.lemma_with(pub_key, ConnectionState::Disconnected);
                }
                self.state_table.insert(pub_key, ConnectionState::Disconnected);
                assert(self@ == before.with(pub_key, ConnectionState::Disconnected));
            },
        }
        assert(commands@ =~= before.on_core_event(event).1);
        commands
    }
}

/// While a connection lasts, its task hands every packet on, in both directions, unchanged and under
/// the peer's name. It ends exactly when the connection fails, and then it reports the peer as
/// disconnected, or when the manager sends no more; a packet that is too large costs that packet.
pub proof fn sessions_pass_packets_on(peer: PublicKey, packet: Bytes, input: SessionInput)
    ensures
        session_step(peer, SessionInput::Datagram(packet)) == SessionStep::Forward(
            IrohEvent::RecvPacketFrom(packet, peer),
        ),
        session_step(peer, SessionInput::Outgoing(Some(packet))) == SessionStep::SendDatagram(
            packet,
        ),
        session_step(peer, input) is Report <==> input is ReadFailed || input
            == SessionInput::DatagramSent(DatagramOutcome::Failed),
        session_step(peer, input) is Report ==> session_step(peer, input) == SessionStep::Report(
            ConnectionEvent::Disconnected(peer),
        ),
        session_step(peer, input) is End <==> input == SessionInput::Outgoing(None),
        session_step(peer, input) is Continue <==> input == SessionInput::DatagramSent(
            DatagramOutcome::Sent,
        ) || input == SessionInput::DatagramSent(DatagramOutcome::TooLarge),
{
}

/// A peer is dialled every second until it answers, and then the connection is reported as one with
/// that peer.
pub proof fn dialling_goes_on_until_it_works(to: PublicKey, connection: u64)
    ensures
        dial_step(to, None) == DialStep::RetryAfter(1),
        dial_step(to, Some(connection)) == DialStep::Report(
            ConnectionEvent::OutgoingConnection { peer: to, connection },
        ),
{
}

} // verus!
