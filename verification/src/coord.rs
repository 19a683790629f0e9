//! The coordinator between the tun device, the connection manager and the routing core.
use bytes::Bytes;
use std::collections::VecDeque;
use vstd::prelude::*;

use crate::channel::SendOutcome;
use crate::iroh::{CoreAction, IrohEvent};
use crate::vpn_core::{Action, Event, LogEvent, VpnCore};

verus! {

/// The coordinator of a node.
pub struct Coordinator {
    core: VpnCore,
}

/// The other side of a channel is gone.
#[derive(Clone, Copy, Debug, PartialEq, Eq, Structural)]
pub struct ChannelWasClosed;

/// What is to be done for an action of the core.
#[derive(Debug, PartialEq)]
pub enum Dispatch {
    /// There is nothing to do.
    Nothing,
    /// Send to the manager, and wait for room.
    SendToIroh(CoreAction),
    /// Send to the manager if there is room.
    TrySendToIroh(CoreAction),
    /// Send to the tun device if there is room.
    TrySendToTun(Bytes),
    /// Write to the log.
    Log(LogEvent),
}

/// What the coordinator waits for.
#[derive(Debug, PartialEq)]
pub enum CoordInput {
    /// From the manager; `None` when it sends no more.
    FromIroh(Option<IrohEvent>),
    /// From the tun device; `None` when it sends no more.
    FromTun(Option<Bytes>),
}

/// What an event of the manager is to the core.
pub open spec fn core_event(event: IrohEvent) -> Event {
    match event {
        IrohEvent::ConnectedToPeer(pub_key) => Event::PeerConnected(pub_key),
        IrohEvent::DisconnectedFromPeer(pub_key) => Event::PeerDisconnected(pub_key),
        IrohEvent::RecvPacketFrom(packet, pub_key) => Event::PacketFromIroh(packet, pub_key),
    }
}

/// What is to be done for an action of the core. The core does not ask for connections: the
/// manager seeks them by itself.
pub open spec fn dispatch_of(action: Action) -> Dispatch {
    match action {
        Action::ConnectToPeer(_) => Dispatch::Nothing,
        Action::DisconnectFromPeer(pub_key) => Dispatch::SendToIroh(
            CoreAction::DisconnectFromPeer(pub_key),
        ),
        Action::SendPacketTo(packet, to) => Dispatch::TrySendToIroh(
            CoreAction::SendPacketTo(packet, to),
        ),
        Action::WriteToTun(packet) => Dispatch::TrySendToTun(packet),
        Action::NoAction(log) => Dispatch::Log(log),
    }
}

/// What is carried out next, where `last` is what became of the dispatch before: the first that is
/// left, nothing if none is left, and nothing any more once a channel is closed.
pub open spec fn next_of(left: Seq<Dispatch>, last: SendOutcome) -> Result<
    Option<Dispatch>,
    ChannelWasClosed,
> {
    if last == SendOutcome::Closed {
        Err(ChannelWasClosed)
    } else if left.len() == 0 {
        Ok(None)
    } else {
        Ok(Some(left[0]))
    }
}

/// Which of some dispatches are carried out, and how that ends, where each meets the outcome at its
/// place.
pub open spec fn carried_out(
    left: Seq<Dispatch>,
    last: SendOutcome,
    outcomes: Seq<SendOutcome>,
) -> (Seq<Dispatch>, Result<(), ChannelWasClosed>)
    decreases left.len(),
{
    match next_of(left, last) {
        Err(e) => (Seq::empty(), Err(e)),
        Ok(None) => (Seq::empty(), Ok(())),
        Ok(Some(first)) => {
            let (others, end) = carried_out(
                left.drop_first(),
                outcomes[0],
                outcomes.drop_first(),
            );
            (seq![first] + others, end)
        },
    }
}

/// How many dispatches meet some outcomes: up to the first that finds its channel closed, which
/// counts, or all.
pub open spec fn reach(outcomes: Seq<SendOutcome>) -> nat
    decreases outcomes.len(),
{
    if outcomes.len() == 0 {
        0
    } else if outcomes[0] == SendOutcome::Closed {
        1
    } else {
        1 + reach(outcomes.drop_first())
    }
}

impl View for Coordinator {
    type V = crate::vpn_core::CoreView;

    closed spec fn view(&self) -> crate::vpn_core::CoreView {
        self.core@
    }
}

impl Coordinator {
    /// The tables of the core are in order.
    pub closed spec fn table_wf(&self) -> bool {
        self.core.table_wf()
    }

    /// The invariant of the coordinator: that of its core.
    pub open spec fn wf(&self) -> bool {
        &&& self.table_wf()
        &&& self@.wf()
    }

    /// A coordinator of the given core.
    pub fn new(core: VpnCore) -> (coordinator: Coordinator)
        requires
            core.wf(),
        ensures
            coordinator.wf(),
            coordinator@ == core@,
    {
        Coordinator { core }
    }

    /// Handles whatever the coordinator was waiting for: the actions to dispatch, or the news that
    /// one side is gone.
    pub fn run(&mut self, input: CoordInput) -> (r: Result<Vec<Action>, ChannelWasClosed>)
        requires
            old(self).wf(),
        ensures
            final(self).wf(),
            match input {
                CoordInput::FromIroh(Some(event)) => r matches Ok(actions) && (
                    final(self)@,
                    actions@,
                ) == old(self)@.process(core_event(event)),
                CoordInput::FromTun(Some(packet)) => r matches Ok(actions) && (
                    final(self)@,
                    actions@,
                ) == old(self)@.process(Event::PacketFromTun(packet)),
                _ => r is Err && final(self)@ == old(self)@,
            },
    {
        match input {
            CoordInput::FromIroh(Some(event)) => Ok(self.handle_iroh_event(event)),
            CoordInput::FromTun(Some(packet)) => Ok(self.handle_packet_from_tun(packet)),
            _ => Err(ChannelWasClosed),
        }
    }

    /// Hands an event of the manager to the core.
    pub fn handle_iroh_event(&mut self, event: IrohEvent) -> (actions: Vec<Action>)
        requires
            old(self).wf(),
        ensures
            final(self).wf(),
            (final(self)@, actions@) == old(self)@.process(core_event(event)),
    {
        self.core.process(Self::map_iroh_event_to_core_event(event))
    }

    /// Hands a packet of the host to the core.
    pub fn handle_packet_from_tun(&mut self, packet: Bytes) -> (actions: Vec<Action>)
        requires
            old(self).wf(),
        ensures
            final(self).wf(),
            (final(self)@, actions@) == old(self)@.process(Event::PacketFromTun(packet)),
    {
        self.core.process(Event::PacketFromTun(packet))
    }

    /// Tells what is to be done for the actions of the core, one after the other.
    pub fn handle_actions(actions: Vec<Action>) -> (list: VecDeque<Dispatch>)
        ensures
            list@ == actions@.map_values(|action: Action| dispatch_of(action)),
    {
        let ghost all = actions@;
        let mut list: VecDeque<Dispatch> = VecDeque::new();
        for action in it: actions
            invariant
                it.seq() == all,
                list@.len() == it.index(),
                forall|i: int| 0 <= i < list@.len() ==> #[trigger] list@[i] == dispatch_of(all[i]),
        {
            list.push_back(Self::dispatch(action));
        }
        assert(list@ =~= all.map_values(|action: Action| dispatch_of(action)));
        list
    }

    fn dispatch(action: Action) -> (r: Dispatch)
        ensures
            r == dispatch_of(action),
    {
        match action {
            Action::ConnectToPeer(_) => Dispatch::Nothing,
            Action::DisconnectFromPeer(pub_key) => {
                Dispatch::SendToIroh(CoreAction::DisconnectFromPeer(pub_key))
            },
            Action::SendPacketTo(packet, to) => {
                Dispatch::TrySendToIroh(CoreAction::SendPacketTo(packet, to))
            },
            Action::WriteToTun(packet) => Dispatch::TrySendToTun(packet),
            Action::NoAction(log) => Dispatch::Log(log),
        }
    }

    /// Tells whether the coordinator goes on once a message was handed to a channel: a full channel
    /// costs the packet, a closed one ends the coordinator.
    pub fn after_dispatch(outcome: SendOutcome) -> (r: Result<(), ChannelWasClosed>)
        ensures
            r == (if outcome == SendOutcome::Closed {
                Err(ChannelWasClosed)
            } else {
                Ok(())
            }),
    {
        match outcome {
            SendOutcome::Closed => Err(ChannelWasClosed),
            _ => Ok(()),
        }
    }

    /// Takes the next dispatch off the list, once it is known what became of the one before. After a
    /// closed channel none is taken any more.
    pub fn next_dispatch(left: &mut VecDeque<Dispatch>, last: SendOutcome) -> (r: Result<
        Option<Dispatch>,
        ChannelWasClosed,
    >)
        ensures
            r == next_of(old(left)@, last),
            final(left)@ == (if r matches Ok(Some(_)) {
                old(left)@.drop_first()
            } else {
                old(left)@
            }),
    {
        match Self::after_dispatch(last) {
            Ok(_) => Ok(left.pop_front()),
            Err(e) => Err(e),
        }
    }

    fn map_iroh_event_to_core_event(event: IrohEvent) -> (r: Event)
        ensures
            r == core_event(event),
    {
        match event {
            IrohEvent::ConnectedToPeer(pub_key) => Event::PeerConnected(pub_key),
            IrohEvent::DisconnectedFromPeer(pub_key) => Event::PeerDisconnected(pub_key),
            IrohEvent::RecvPacketFrom(packet, pub_key) => Event::PacketFromIroh(packet, pub_key),
        }
    }
}

/// A closed channel ends the coordinator at once: of the actions of the core, those up to and with the
/// first that finds its channel closed are carried out, in their order, and none after it; if none
/// finds it closed, all are, and a full channel stops nothing.
pub proof fn closed_channel_stops_the_rest(actions: Seq<Action>, outcomes: Seq<SendOutcome>)
    requires
        outcomes.len() == actions.len(),
    ensures
        ({
            let list = actions.map_values(|action: Action| dispatch_of(action));
            let (done, end) = carried_out(list, SendOutcome::Sent, outcomes);
            &&& done == list.take(reach(outcomes) as int)
            &&& reach(outcomes) <= outcomes.len()
            &&& forall|i: int|
                0 <= i < reach(outcomes) - 1 ==> #[trigger] outcomes[i] != SendOutcome::Closed
            &&& match end {
                Ok(_) => done == list && !outcomes.contains(SendOutcome::Closed),
                Err(_) => reach(outcomes) > 0 && outcomes[reach(outcomes) - 1]
                    == SendOutcome::Closed,
            }
        }),
{
    let list = actions.map_values(|action: Action| dispatch_of(action));
    lemma_carried_out(list, SendOutcome::Sent, outcomes);
    lemma_reach(outcomes);
    let n = reach(outcomes) as int;
    if !outcomes.contains(SendOutcome::Closed) {
        assert(list.take(n) =~= list);
    }
}

/// Where the first closed channel stands.
proof fn lemma_reach(outcomes: Seq<SendOutcome>)
    ensures
        reach(outcomes) <= outcomes.len(),
        forall|i: int|
            0 <= i < reach(outcomes) - 1 ==> #[trigger] outcomes[i] != SendOutcome::Closed,
        outcomes.contains(SendOutcome::Closed) ==> reach(outcomes) > 0 && outcomes[reach(outcomes)
            - 1] == SendOutcome::Closed,
        !outcomes.contains(SendOutcome::Closed) ==> reach(outcomes) == outcomes.len(),
    decreases outcomes.len(),
{
    if outcomes.len() > 0 && outcomes[0] != SendOutcome::Closed {
        let others = outcomes.drop_first();
        lemma_reach(others);
        assert forall|i: int| 0 <= i < reach(outcomes) - 1 implies #[trigger] outcomes[i]
            != SendOutcome::Closed by {
            if i > 0 {
                assert(others[i - 1] == outcomes[i]);
            }
        }
        if outcomes.contains(SendOutcome::Closed) {
            let i = choose|i: int| 0 <= i < outcomes.len() && outcomes[i] == SendOutcome::Closed;
            assert(others[i - 1] == SendOutcome::Closed);
        }
        if others.contains(SendOutcome::Closed) {
            let i = choose|i: int| 0 <= i < others.len() && others[i] == SendOutcome::Closed;
            assert(outcomes[i + 1] == SendOutcome::Closed);
        }
    } else if outcomes.len() > 0 {
        assert(outcomes.contains(outcomes[0]));
    }
}

/// Taking one dispatch after the other goes as far as the outcomes reach.
proof fn lemma_carried_out(list: Seq<Dispatch>, last: SendOutcome, outcomes: Seq<SendOutcome>)
    requires
        outcomes.len() == list.len(),
        last != SendOutcome::Closed,
    ensures
        carried_out(list, last, outcomes).0 == list.take(reach(outcomes) as int),
        carried_out(list, last, outcomes).1 is Err <==> outcomes.contains(SendOutcome::Closed),
    decreases list.len(),
{
    lemma_reach(outcomes);
    if list.len() > 0 {
        let others = outcomes.drop_first();
        let rest = list.drop_first();
        let done = carried_out(rest, outcomes[0], others);
        assert(carried_out(list, last, outcomes).0 == seq![list[0]] + done.0);
        if outcomes[0] == SendOutcome::Closed {
            assert(outcomes.contains(outcomes[0]));
            assert(seq![list[0]] + done.0 =~= list.take(1));
        } else {
            lemma_reach(others);
            lemma_carried_out(rest, outcomes[0], others);
            assert(seq![list[0]] + rest.take(reach(others) as int) =~= list.take(
                reach(outcomes) as int,
            ));
            if outcomes.contains(SendOutcome::Closed) {
                let i = choose|i: int|
                    0 <= i < outcomes.len() && outcomes[i] == SendOutcome::Closed;
                assert(others[i - 1] == SendOutcome::Closed);
            }
            if others.contains(SendOutcome::Closed) {
                let i = choose|i: int| 0 <= i < others.len() && others[i] == SendOutcome::Closed;
                assert(outcomes[i + 1] == SendOutcome::Closed);
            }
        }
    } else {
        assert(list.take(0) =~= list);
    }
}

} // verus!
