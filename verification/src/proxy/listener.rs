//! The life of a listener: whom it serves, and how it shuts down.

use vstd::prelude::*;

use crate::engine::connector::{Connector, ConnectorError};
use crate::engine::time::Duration;
use crate::proxy::ConnectionLimits;

verus! {

/// Why a listener cannot be run.
#[derive(Debug, Clone, PartialEq, Eq)]
pub enum ProxyError {
    /// The address cannot be listened on.
    Bind { addr: String },
    /// No further connection can be accepted.
    Accept,
}

impl ProxyError {
    /// What the error reads.
    pub open spec fn text(self) -> Seq<char> {
        match self {
            ProxyError::Bind { addr } => "binding listener on "@ + addr@,
            ProxyError::Accept => "accepting connection"@,
        }
    }

    /// The text of the error.
    pub fn message(&self) -> (message: String)
        ensures
            message@ == self.text(),
    {
        match self {
            ProxyError::Bind { addr } => {
                let mut message = "binding listener on ".to_owned();
                message.append(addr.as_str());
                message
            },
            ProxyError::Accept => "accepting connection".to_owned(),
        }
    }
}

/// What a listener is doing.
#[derive(Debug, Clone, Copy, PartialEq, Eq, Structural)]
pub enum Phase {
    /// It accepts connections.
    Accepting,
    /// It accepts none, and waits for those in flight to finish.
    Draining,
    /// It has ended.
    Done,
}

/// Why accepting a connection has failed.
#[derive(Debug, Clone, Copy, PartialEq, Eq, Structural)]
pub enum AcceptFault {
    /// The process has too many files open.
    ProcessFileLimit,
    /// The system has too many files open.
    SystemFileLimit,
    /// The client was gone before it was accepted.
    Aborted,
    /// The system has no buffer space left.
    NoBuffers,
    /// The system has no memory left.
    NoMemory,
    /// Anything else.
    Other,
}

impl AcceptFault {
    /// Whether the next attempt may succeed: the client alone was at fault, or
    /// the system may recover.
    pub open spec fn transient(self) -> bool {
        self != AcceptFault::Other
    }

    /// Whether the next attempt may succeed.
    pub fn is_transient(&self) -> (transient: bool)
        ensures
            transient == self.transient(),
    {
        match self {
            AcceptFault::ProcessFileLimit => true,
            AcceptFault::SystemFileLimit => true,
            AcceptFault::Aborted => true,
            AcceptFault::NoBuffers => true,
            AcceptFault::NoMemory => true,
            AcceptFault::Other => false,
        }
    }
}

/// Something that happens to a listener.
#[derive(Debug, Clone, Copy, PartialEq, Eq, Structural)]
pub enum ListenerEvent {
    /// A client has connected.
    Accepted,
    /// Accepting a connection has failed.
    AcceptFailed { fault: AcceptFault },
    /// A connection has ended, in whichever way.
    ConnectionEnded,
    /// Shutdown has been requested.
    ShutdownRequested,
    /// The time that connections in flight were given has passed.
    GraceElapsed,
}

/// What is to be done about it.
#[derive(Debug, Clone, Copy)]
pub enum ListenerAction {
    /// Serve the connection.
    Serve,
    /// Close the connection at once.
    Refuse,
    /// Go on.
    Continue,
    /// Give the connections in flight so much time.
    Drain { in_flight: usize, timeout: Duration },
    /// Abort the connections that are left, and end.
    Abort { remaining: usize },
    /// End.
    Finish,
    /// End with an error.
    Fail,
}

/// The state of a listener.
#[derive(Debug, Clone, Copy)]
pub struct Listener {
    limits: ConnectionLimits,
    phase: Phase,
    in_flight: usize,
}

/// A [`Listener`] as a mathematical value.
pub struct ListenerView {
    pub max_connections: nat,
    pub io_timeout: Duration,
    pub shutdown_timeout: Duration,
    pub phase: Phase,
    pub in_flight: nat,
}

impl View for Listener {
    type V = ListenerView;

    closed spec fn view(&self) -> ListenerView {
        ListenerView {
            max_connections: self.limits.max_connections as nat,
            io_timeout: self.limits.io_timeout,
            shutdown_timeout: self.limits.shutdown_timeout,
            phase: self.phase,
            in_flight: self.in_flight as nat,
        }
    }
}

impl ListenerView {
    /// No more connections are in flight than allowed, and none once the
    /// listener has ended.
    pub open spec fn wf(self) -> bool {
        &&& self.in_flight <= self.max_connections
        &&& self.phase == Phase::Done ==> self.in_flight == 0
        &&& self.phase == Phase::Draining ==> self.in_flight > 0
    }
}

/// The state of a listener after an event.
pub open spec fn next(state: ListenerView, event: ListenerEvent) -> ListenerView {
    match event {
        ListenerEvent::Accepted => if state.phase == Phase::Accepting && state.in_flight
            < state.max_connections {
            ListenerView { in_flight: state.in_flight + 1, ..state }
        } else {
            state
        },
        ListenerEvent::AcceptFailed { fault } => if state.phase == Phase::Accepting
            && !fault.transient() {
            ListenerView { phase: Phase::Done, in_flight: 0, ..state }
        } else {
            state
        },
        ListenerEvent::ConnectionEnded => if state.in_flight == 0 {
            state
        } else if state.phase == Phase::Draining && state.in_flight == 1 {
            ListenerView { phase: Phase::Done, in_flight: 0, ..state }
        } else {
            ListenerView { in_flight: (state.in_flight - 1) as nat, ..state }
        },
        ListenerEvent::ShutdownRequested => if state.phase == Phase::Accepting {
            if state.in_flight == 0 {
                ListenerView { phase: Phase::Done, ..state }
            } else {
                ListenerView { phase: Phase::Draining, ..state }
            }
        } else {
            state
        },
        ListenerEvent::GraceElapsed => if state.phase == Phase::Draining {
            ListenerView { phase: Phase::Done, in_flight: 0, ..state }
        } else {
            state
        },
    }
}

/// Whether `action` is what an event calls for in a state.
pub open spec fn calls_for(
    state: ListenerView,
    event: ListenerEvent,
    action: ListenerAction,
) -> bool {
    match event {
        ListenerEvent::Accepted => if state.phase == Phase::Accepting && state.in_flight
            < state.max_connections {
            action is Serve
        } else {
            action is Refuse
        },
        ListenerEvent::AcceptFailed { fault } => if state.phase == Phase::Accepting
            && !fault.transient() {
            action is Fail
        } else {
            action is Continue
        },
        ListenerEvent::ConnectionEnded => if state.phase == Phase::Draining && state.in_flight
            == 1 {
            action is Finish
        } else {
            action is Continue
        },
        ListenerEvent::ShutdownRequested => if state.phase == Phase::Accepting {
            if state.in_flight == 0 {
                action is Finish
            } else {
                action matches ListenerAction::Drain { in_flight, timeout } && in_flight
                    == state.in_flight && timeout == state.shutdown_timeout
            }
        } else {
            action is Continue
        },
        ListenerEvent::GraceElapsed => if state.phase == Phase::Draining {
            action matches ListenerAction::Abort { remaining } && remaining == state.in_flight
        } else {
            action is Continue
        },
    }
}

impl Listener {
    /// A listener that serves nobody yet.
    pub fn new(limits: ConnectionLimits) -> (listener: Listener)
        ensures
            listener@.max_connections == limits.max_connections,
            listener@.io_timeout == limits.io_timeout,
            listener@.shutdown_timeout == limits.shutdown_timeout,
            listener@.phase == Phase::Accepting,
            listener@.in_flight == 0,
            listener@.wf(),
    {
        Listener { limits, phase: Phase::Accepting, in_flight: 0 }
    }

    /// The limits that connections are served under.
    pub fn limits(&self) -> (limits: ConnectionLimits)
        ensures
            limits.max_connections == self@.max_connections,
            limits.io_timeout == self@.io_timeout,
            limits.shutdown_timeout == self@.shutdown_timeout,
    {
        self.limits
    }

    /// Takes note of an event and tells what is to be done about it.
    pub fn on_event(&mut self, event: ListenerEvent) -> (action: ListenerAction)
        requires
            old(self)@.wf(),
        ensures
            final(self)@.wf(),
            final(self)@ == next(old(self)@, event),
            calls_for(old(self)@, event, action),
    {
        match event {
            ListenerEvent::Accepted => if self.phase == Phase::Accepting && self.in_flight
                < self.limits.max_connections {
                self.in_flight = self.in_flight + 1;
                ListenerAction::Serve
            } else {
                ListenerAction::Refuse
            },
            ListenerEvent::AcceptFailed { fault } => if self.phase == Phase::Accepting
                && !fault.is_transient() {
                self.phase = Phase::Done;
                self.in_flight = 0;
                ListenerAction::Fail
            } else {
                ListenerAction::Continue
            },
            ListenerEvent::ConnectionEnded => {
                if self.in_flight == 0 {
                    return ListenerAction::Continue;
                }
                self.in_flight = self.in_flight - 1;
                if self.phase == Phase::Draining && self.in_flight == 0 {
                    self.phase = Phase::Done;
                    ListenerAction::Finish
                } else {
                    ListenerAction::Continue
                }
            },
            ListenerEvent::ShutdownRequested => if self.phase != Phase::Accepting {
                ListenerAction::Continue
            } else if self.in_flight == 0 {
                self.phase = Phase::Done;
                ListenerAction::Finish
            } else {
                self.phase = Phase::Draining;
                ListenerAction::Drain {
                    in_flight: self.in_flight,
                    timeout: self.limits.shutdown_timeout,
                }
            },
            ListenerEvent::GraceElapsed => if self.phase == Phase::Draining {
                let remaining: usize = self.in_flight;
                self.phase = Phase::Done;
                self.in_flight = 0;
                ListenerAction::Abort { remaining }
            } else {
                ListenerAction::Continue
            },
        }
    }
}

/// The state of a listener after a number of events.
pub open spec fn state_after(state: ListenerView, events: Seq<ListenerEvent>) -> ListenerView
    decreases events.len(),
{
    if events.len() == 0 {
        state
    } else {
        next(state_after(state, events.drop_last()), events.last())
    }
}

/// Whatever happens, a listener never serves more connections at once than
/// configured.
pub proof fn connections_stay_within_the_limit(state: ListenerView, events: Seq<ListenerEvent>)
    requires
        state.wf(),
    ensures
        state_after(state, events).wf(),
        state_after(state, events).in_flight <= state.max_connections,
        state_after(state, events).max_connections == state.max_connections,
    decreases events.len(),
{
    if events.len() > 0 {
        connections_stay_within_the_limit(state, events.drop_last());
    }
}

/// Once shutdown has been requested, no connection is served any more: one
/// that still arrives is refused.
pub proof fn nobody_is_served_after_shutdown(
    state: ListenerView,
    events: Seq<ListenerEvent>,
    at: int,
    action: ListenerAction,
)
    requires
        0 <= at < events.len(),
        events[at] == ListenerEvent::ShutdownRequested,
        calls_for(state_after(state, events), ListenerEvent::Accepted, action),
    ensures
        state_after(state, events).phase != Phase::Accepting,
        action is Refuse,
{
    lemma_shutdown_sticks(state, events, at);
}

proof fn lemma_shutdown_sticks(state: ListenerView, events: Seq<ListenerEvent>, at: int)
    requires
        0 <= at < events.len(),
        events[at] == ListenerEvent::ShutdownRequested,
    ensures
        state_after(state, events).phase != Phase::Accepting,
    decreases events.len(),
{
    if at < events.len() - 1 {
        assert(events.drop_last()[at] == events[at]);
        lemma_shutdown_sticks(state, events.drop_last(), at);
    }
}

/// Only a lasting fault and a request to shut down stop a listener from
/// accepting: as long as there was neither, it goes on, however many
/// connections could not be accepted.
pub proof fn transient_faults_do_not_stop_a_listener(
    state: ListenerView,
    events: Seq<ListenerEvent>,
)
    requires
        state.phase == Phase::Accepting,
        forall|i: int|
            0 <= i < events.len() ==> match #[trigger] events[i] {
                ListenerEvent::AcceptFailed { fault } => fault.transient(),
                ListenerEvent::ShutdownRequested => false,
                _ => true,
            },
    ensures
        state_after(state, events).phase == Phase::Accepting,
    decreases events.len(),
{
    if events.len() > 0 {
        assert(events.last() == events[events.len() - 1]);
        assert forall|i: int| 0 <= i < events.drop_last().len() implies match
        #[trigger] events.drop_last()[i] {
            ListenerEvent::AcceptFailed { fault } => fault.transient(),
            ListenerEvent::ShutdownRequested => false,
            _ => true,
        } by {
            assert(events.drop_last()[i] == events[i]);
        }
        transient_faults_do_not_stop_a_listener(state, events.drop_last());
    }
}

/// Shutting down always comes to an end: when the time for draining has
/// passed, nothing is in flight.
pub proof fn draining_ends(state: ListenerView)
    requires
        state.wf(),
        state.phase == Phase::Draining,
    ensures
        next(state, ListenerEvent::GraceElapsed).phase == Phase::Done,
        next(state, ListenerEvent::GraceElapsed).in_flight == 0,
{
}

/// What becomes of a connection after a look at its first frame.
#[derive(Debug, Clone)]
pub enum FirstFrame {
    /// Relay as it is, beginning with the frame, if there was one.
    Relay(Option<Vec<u8>>),
    /// Send the answer, then encrypt the connection, then relay.
    Upgrade(Vec<u8>),
}

/// Whether the first frame leads to `step`: an upgrade request is answered
/// and not relayed, and any other frame is relayed and not lost.
pub open spec fn leads_to<C: Connector>(
    connector: C,
    first: Option<Vec<u8>>,
    step: Result<FirstFrame, ConnectorError>,
) -> bool {
    match first {
        None => step matches Ok(FirstFrame::Relay(None)),
        Some(frame) => match connector.upgrade_of(frame@) {
            Err(error) => step matches Err(e) && e == error,
            Ok(None) => step matches Ok(FirstFrame::Relay(Some(kept))) && kept@ == frame@,
            Ok(Some(octets)) => step matches Ok(FirstFrame::Upgrade(answer)) && answer@ == octets,
        },
    }
}

/// Decides about a connection by its first frame; none means that the client
/// sent nothing.
pub fn maybe_upgrade_to_tls<C: Connector>(connector: &C, first: Option<Vec<u8>>) -> (step: Result<
    FirstFrame,
    ConnectorError,
>)
    ensures
        leads_to(*connector, first, step),
{
    match first {
        None => Ok(FirstFrame::Relay(None)),
        Some(frame) => match connector.upgrade_request(frame.as_slice()) {
            Ok(Some(answer)) => Ok(FirstFrame::Upgrade(answer)),
            Ok(None) => Ok(FirstFrame::Relay(Some(frame))),
            Err(error) => Err(error),
        },
    }
}

/// A listener serves whoever comes while it accepts and fewer connections are
/// in flight than allowed, and refuses everybody else. Each one served counts,
/// and none refused does; neither changes anything else.
pub proof fn connections_are_served_up_to_the_limit(state: ListenerView, action: ListenerAction)
    requires
        calls_for(state, ListenerEvent::Accepted, action),
    ensures
        action is Serve <==> state.phase == Phase::Accepting && state.in_flight
            < state.max_connections,
        action is Serve || action is Refuse,
        ({
            let after = next(state, ListenerEvent::Accepted);
            &&& after.in_flight == state.in_flight + if action is Serve {
                1int
            } else {
                0
            }
            &&& after.phase == state.phase
            &&& after.max_connections == state.max_connections
            &&& after.io_timeout == state.io_timeout
            &&& after.shutdown_timeout == state.shutdown_timeout
        }),
{
}

/// A connection that ends makes room for one more. If it was the last that a
/// shutdown waited for, the listener ends; otherwise it goes on.
pub proof fn ended_connections_make_room(state: ListenerView, action: ListenerAction)
    requires
        state.wf(),
        calls_for(state, ListenerEvent::ConnectionEnded, action),
    ensures
        ({
            let after = next(state, ListenerEvent::ConnectionEnded);
            &&& state.in_flight > 0 ==> after.in_flight == state.in_flight - 1
            &&& state.in_flight == 0 ==> after == state
            &&& action is Finish <==> state.phase == Phase::Draining && after.in_flight == 0
            &&& action is Finish || action is Continue
            &&& after.phase == if action is Finish {
                Phase::Done
            } else {
                state.phase
            }
        }),
{
}

/// A request to shut down ends an idle listener at once, and gives one with
/// connections in flight the configured time to finish them; none of them is
/// dropped. A second request changes nothing.
pub proof fn shutdown_waits_for_connections(state: ListenerView, action: ListenerAction)
    requires
        state.wf(),
        calls_for(state, ListenerEvent::ShutdownRequested, action),
    ensures
        ({
            let after = next(state, ListenerEvent::ShutdownRequested);
            &&& after.in_flight == state.in_flight
            &&& state.phase == Phase::Accepting && state.in_flight == 0 ==> action is Finish
                && after.phase == Phase::Done
            &&& state.phase == Phase::Accepting && state.in_flight > 0 ==> after.phase
                == Phase::Draining && (action matches ListenerAction::Drain { in_flight, timeout }
                && in_flight == state.in_flight && timeout == state.shutdown_timeout)
            &&& state.phase != Phase::Accepting ==> action is Continue && after == state
        }),
{
}

/// When the time that a shutdown gave has passed, exactly the connections that
/// are still in flight are aborted, and the listener ends. At any other time
/// nothing comes of it.
pub proof fn the_rest_is_aborted(state: ListenerView, action: ListenerAction)
    requires
        calls_for(state, ListenerEvent::GraceElapsed, action),
    ensures
        ({
            let after = next(state, ListenerEvent::GraceElapsed);
            &&& state.phase == Phase::Draining ==> after.phase == Phase::Done && after.in_flight == 0
                && (action matches ListenerAction::Abort { remaining } && remaining
                == state.in_flight)
            &&& state.phase != Phase::Draining ==> action is Continue && after == state
        }),
{
}

/// A fault while accepting is fatal if and only if it is neither a lack of
/// files, buffers or memory nor a client that went away; and only while
/// connections are accepted at all.
pub proof fn lasting_faults_end_a_listener(
    state: ListenerView,
    fault: AcceptFault,
    action: ListenerAction,
)
    requires
        calls_for(state, ListenerEvent::AcceptFailed { fault }, action),
    ensures
        ({
            let after = next(state, ListenerEvent::AcceptFailed { fault });
            let passing = fault == AcceptFault::ProcessFileLimit || fault
                == AcceptFault::SystemFileLimit || fault == AcceptFault::Aborted || fault
                == AcceptFault::NoBuffers || fault == AcceptFault::NoMemory;
            &&& fault.transient() == passing
            &&& action is Fail <==> state.phase == Phase::Accepting && !passing
            &&& action is Fail || action is Continue
            &&& action is Fail ==> after.phase == Phase::Done && after.in_flight == 0
            &&& action is Continue ==> after == state
        }),
{
}

/// How many connections are in flight is what was served less what has ended,
/// for as long as a listener accepts.
pub proof fn connections_in_flight_add_up(state: ListenerView, events: Seq<ListenerEvent>, at: int)
    requires
        state.wf(),
        0 <= at < events.len(),
        state_after(state, events.take(at + 1)).phase == Phase::Accepting,
    ensures
        ({
            let before = state_after(state, events.take(at));
            let after = state_after(state, events.take(at + 1));
            &&& before.phase == Phase::Accepting
            &&& after.in_flight - before.in_flight == match events[at] {
                ListenerEvent::Accepted => if before.in_flight < state.max_connections {
                    1int
                } else {
                    0
                },
                ListenerEvent::ConnectionEnded => if before.in_flight > 0 {
                    -1
                } else {
                    0
                },
                _ => 0,
            }
        }),
{
    assert(events.take(at + 1).drop_last() =~= events.take(at));
    assert(events.take(at + 1).last() == events[at]);
    connections_stay_within_the_limit(state, events.take(at));
}

/// A first frame is either answered and followed by an upgrade, or relayed
/// octet for octet; it is answered if and only if the protocol takes it for a
/// request to upgrade, and one that the protocol cannot read is an error.
pub proof fn first_frames_are_answered_or_relayed<C: Connector>(
    connector: C,
    first: Option<Vec<u8>>,
    step: Result<FirstFrame, ConnectorError>,
)
    requires
        leads_to(connector, first, step),
    ensures
        step matches Ok(FirstFrame::Upgrade(answer)) ==> first matches Some(frame)
            && connector.upgrade_of(frame@) == Ok::<Option<Seq<u8>>, ConnectorError>(
            Some(answer@),
        ),
        step matches Ok(FirstFrame::Relay(Some(kept))) ==> first matches Some(frame) && kept@
            == frame@ && connector.upgrade_of(frame@) matches Ok(None),
        step matches Ok(FirstFrame::Relay(None)) ==> first is None,
        step matches Err(error) ==> first matches Some(frame) && connector.upgrade_of(frame@)
            == Err::<Option<Seq<u8>>, ConnectorError>(error),
{
}

/// What errors in running a listener read.
pub proof fn listener_errors_read(addr: String)
    ensures
        (ProxyError::Bind { addr }).text() == "binding listener on "@ + addr@,
        ProxyError::Accept.text() == "accepting connection"@,
{
}

/// A listener is in order if and only if no more connections are in flight
/// than allowed, a draining one has some left to wait for, and one that has
/// ended has none.
pub proof fn listeners_in_order(state: ListenerView)
    ensures
        state.wf() ==> state.in_flight <= state.max_connections,
        state.wf() && state.phase == Phase::Draining ==> state.in_flight >= 1,
        state.wf() && state.phase == Phase::Done ==> state.in_flight == 0,
        state.phase == Phase::Accepting && state.in_flight <= state.max_connections ==> state.wf(),
{
}

}
