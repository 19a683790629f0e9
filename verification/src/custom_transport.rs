//! A congestion controller that never holds anything back.
use vstd::prelude::*;

verus! {

/// The window that the controller always grants, in bytes.
pub const WINDOW: u64 = 1_000_000_000;

/// The datagram size that a new controller starts from.
pub const INITIAL_MTU: u16 = 1200;

/// A controller with a fixed window: the traffic in the tunnel has its own congestion control.
#[derive(Clone, Copy, Debug, PartialEq, Eq, Structural)]
pub struct CustomController {
    pub mtu: u16,
}

/// Makes controllers.
#[derive(Clone, Copy, Debug, PartialEq, Eq, Structural)]
pub struct CustomControllerFactory;

/// What a connection tells its controller.
#[derive(Clone, Copy, Debug, PartialEq, Eq, Structural)]
pub enum ControllerEvent {
    Congestion { is_persistent_congestion: bool, is_ecn: bool, lost_bytes: u64 },
    MtuUpdate { new_mtu: u16 },
}

impl CustomController {
    /// The window that the controller grants.
    pub open spec fn granted(self) -> u64 {
        WINDOW
    }

    /// The controller after an event.
    pub open spec fn after(self, event: ControllerEvent) -> CustomController {
        match event {
            ControllerEvent::Congestion { .. } => self,
            ControllerEvent::MtuUpdate { new_mtu } => CustomController { mtu: new_mtu },
        }
    }

    /// The controller after a run of events.
    pub open spec fn after_all(self, events: Seq<ControllerEvent>) -> CustomController
        decreases events.len(),
    {
        if events.len() == 0 {
            self
        } else {
            self.after_all(events.drop_last()).after(events.last())
        }
    }

    /// Congestion changes nothing.
    pub fn on_congestion_event(
        &mut self,
        is_persistent_congestion: bool,
        is_ecn: bool,
        lost_bytes: u64,
    )
        ensures
            *final(self) == old(self).after(
                ControllerEvent::Congestion { is_persistent_congestion, is_ecn, lost_bytes },
            ),
            *final(self) == *old(self),
    {
    }

    /// Remembers the datagram size.
    pub fn on_mtu_update(&mut self, new_mtu: u16)
        ensures
            *final(self) == old(self).after(ControllerEvent::MtuUpdate { new_mtu }),
            final(self).mtu == new_mtu,
    {
        self.mtu = new_mtu;
    }

    /// The window of the connection.
    pub fn window(&self) -> (w: u64)
        ensures
            w == self.granted(),
            w == WINDOW,
    {
        WINDOW
    }

    /// The window that a connection starts with.
    pub fn initial_window(&self) -> (w: u64)
        ensures
            w == self.granted(),
            w == WINDOW,
    {
        WINDOW
    }
}

impl CustomControllerFactory {
    /// A new controller, whatever the size that the connection starts with.
    pub fn build(&self, current_mtu: u16) -> (controller: CustomController)
        ensures
            controller == (CustomController { mtu: INITIAL_MTU }),
    {
        CustomController { mtu: INITIAL_MTU }
    }
}

/// Congestion control is off: no run of congestion events changes the controller, and no run of any
/// events changes the window that it grants.
pub proof fn congestion_control_is_off(
    controller: CustomController,
    events: Seq<ControllerEvent>,
)
    ensures
        controller.after_all(events).granted() == controller.granted(),
        (forall|i: int| 0 <= i < events.len() ==> #[trigger] events[i] is Congestion)
            ==> controller.after_all(events) == controller,
    decreases events.len(),
{
    if events.len() > 0 {
        congestion_control_is_off(controller, events.drop_last());
        if forall|i: int| 0 <= i < events.len() ==> #[trigger] events[i] is Congestion {
            assert forall|i: int| 0 <= i < events.drop_last().len() implies #[trigger]
                events.drop_last()[i] is Congestion by {
                assert(events[i] is Congestion);
            }
            assert(events[events.len() - 1] is Congestion);
        }
    }
}

/// Whatever a connection tells its controller, the window is a thousand million bytes; and the
/// datagram size is the last one that was told.
pub proof fn window_is_fixed(controller: CustomController, events: Seq<ControllerEvent>, size: u16)
    ensures
        controller.after_all(events).granted() == 1_000_000_000,
        controller.after_all(events.push(ControllerEvent::MtuUpdate { new_mtu: size })).mtu == size,
{
    let told = events.push(ControllerEvent::MtuUpdate { new_mtu: size });
    assert(told.drop_last() =~= events);
    assert(told.last() == ControllerEvent::MtuUpdate { new_mtu: size });
}

} // verus!
