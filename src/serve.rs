//! The accept loop: pulls accepted connections, hands each one to the proxy
//! service as an independent unit of work, and stops for good when the
//! cancellation signal fires or the listener runs dry.
//!
//! Per-connection failures are discarded and never stop the loop; the loop
//! has no action that reaches into a connection it has already dispatched.
use vstd::prelude::*;

verus! {

/// Where the accept loop stands.
#[derive(Clone, Copy, Debug, PartialEq, Eq, Structural)]
pub enum ServePhase {
    /// Racing the next accepted connection against cancellation.
    Accepting,
    /// No further connection will be taken; the loop has returned.
    Stopped,
}

/// What the race between the listener and the cancellation signal produced.
#[derive(Clone, Copy, Debug, PartialEq, Eq, Structural)]
pub enum AcceptEvent {
    /// A connection arrived and its handshake completed.
    Ready,
    /// A connection arrived but its handshake failed.
    HandshakeFailed,
    /// The listener reported an error for one connection.
    AcceptFailed,
    /// The listener will yield no more connections.
    Exhausted,
    /// The cancellation signal fired first.
    Cancelled,
}

/// What the accept loop asks its driver to do.
#[derive(Clone, Copy, Debug, PartialEq, Eq, Structural)]
pub enum ServeAction {
    /// Hand the connection to the proxy service as an independent task, then
    /// wait for the next one.
    Dispatch,
    /// Drop this connection (after logging its error), then wait for the next.
    Discard,
    /// Return from the loop without waiting for dispatched tasks.
    Return,
}

/// The abstract state of the accept loop.
pub struct ServeModel {
    pub phase: ServePhase,
    /// Connections handed to the proxy service so far.
    pub dispatched: nat,
    /// Connections dropped for an accept or handshake error so far.
    pub discarded: nat,
}

/// The loop before its first accept.
pub open spec fn serve_start() -> ServeModel {
    ServeModel { phase: ServePhase::Accepting, dispatched: 0, discarded: 0 }
}

/// One transition of the accept loop.
pub open spec fn serve_next(s: ServeModel, e: AcceptEvent) -> ServeModel {
    match s.phase {
        ServePhase::Accepting => match e {
            AcceptEvent::Ready => ServeModel { dispatched: s.dispatched + 1, ..s },
            AcceptEvent::HandshakeFailed | AcceptEvent::AcceptFailed => ServeModel {
                discarded: s.discarded + 1,
                ..s
            },
            AcceptEvent::Exhausted | AcceptEvent::Cancelled => ServeModel {
                phase: ServePhase::Stopped,
                ..s
            },
        },
        ServePhase::Stopped => s,
    }
}

/// The action that event `e` calls for in state `s`.
pub open spec fn serve_action(s: ServeModel, e: AcceptEvent) -> ServeAction {
    match s.phase {
        ServePhase::Accepting => match e {
            AcceptEvent::Ready => ServeAction::Dispatch,
            AcceptEvent::HandshakeFailed | AcceptEvent::AcceptFailed => ServeAction::Discard,
            AcceptEvent::Exhausted | AcceptEvent::Cancelled => ServeAction::Return,
        },
        ServePhase::Stopped => ServeAction::Return,
    }
}

/// The state after a sequence of events, taken in order.
pub open spec fn serve_run(s: ServeModel, events: Seq<AcceptEvent>) -> ServeModel
    decreases events.len(),
{
    if events.len() == 0 {
        s
    } else {
        serve_run(serve_next(s, events[0]), events.skip(1))
    }
}

/// The accept loop's decisions.
pub struct ServeLoop {
    phase: ServePhase,
    dispatched: Ghost<nat>,
    discarded: Ghost<nat>,
}

impl View for ServeLoop {
    type V = ServeModel;

    closed spec fn view(&self) -> ServeModel {
        ServeModel {
            phase: self.phase,
            dispatched: self.dispatched@,
            discarded: self.discarded@,
        }
    }
}

impl ServeLoop {
    pub fn new() -> (r: ServeLoop)
        ensures
            r@ == serve_start(),
    {
        ServeLoop { phase: ServePhase::Accepting, dispatched: Ghost(0), discarded: Ghost(0) }
    }

    /// Where the loop stands.
    pub fn phase(&self) -> (r: ServePhase)
        ensures
            r == self@.phase,
    {
        self.phase
    }

    /// Takes what the race produced and says what to do with it.
    pub fn on_event(&mut self, e: AcceptEvent) -> (a: ServeAction)
        ensures
            final(self)@ == serve_next(old(self)@, e),
            a == serve_action(old(self)@, e),
    {
        match self.phase {
            ServePhase::Accepting => match e {
                AcceptEvent::Ready => {
                    self.dispatched = Ghost(self.dispatched@ + 1);
                    ServeAction::Dispatch
                },
                AcceptEvent::HandshakeFailed | AcceptEvent::AcceptFailed => {
                    self.discarded = Ghost(self.discarded@ + 1);
                    ServeAction::Discard
                },
                AcceptEvent::Exhausted | AcceptEvent::Cancelled => {
                    self.phase = ServePhase::Stopped;
                    ServeAction::Return
                },
            },
            ServePhase::Stopped => ServeAction::Return,
        }
    }
}

/// Cancellation is final and leaves established connections alone: once the
/// signal has fired, the loop is stopped, every later event is answered with
/// `Return` (no connection is dispatched any more), and the count of
/// dispatched connections never changes again. No action of the loop closes a
/// dispatched connection, so those run on to their own end.
pub proof fn lemma_cancel_stops_accepting(s: ServeModel, later: Seq<AcceptEvent>)
    ensures
        serve_next(s, AcceptEvent::Cancelled).phase == ServePhase::Stopped,
        serve_next(s, AcceptEvent::Cancelled).dispatched == s.dispatched,
        serve_run(serve_next(s, AcceptEvent::Cancelled), later) == serve_next(
            s,
            AcceptEvent::Cancelled,
        ),
        forall|i: int|
            0 <= i < later.len() ==> serve_action(
                serve_run(serve_next(s, AcceptEvent::Cancelled), later.take(i)),
                #[trigger] later[i],
            ) == ServeAction::Return,
{
    let t = serve_next(s, AcceptEvent::Cancelled);
    lemma_stopped_stays(t, later);
    assert forall|i: int| 0 <= i < later.len() implies serve_action(
        serve_run(t, later.take(i)),
        #[trigger] later[i],
    ) == ServeAction::Return by {
        lemma_stopped_stays(t, later.take(i));
    }
}

proof fn lemma_stopped_stays(t: ServeModel, events: Seq<AcceptEvent>)
    requires
        t.phase == ServePhase::Stopped,
    ensures
        serve_run(t, events) == t,
    decreases events.len(),
{
    if events.len() > 0 {
        lemma_stopped_stays(serve_next(t, events[0]), events.skip(1));
    }
}

/// Exactly one dispatch per completed handshake: while the loop accepts, the
/// number of dispatched connections grows by one for each `Ready` event and
/// by nothing for any other, so failures never cost another connection its
/// backend.
pub proof fn lemma_one_dispatch_per_ready(s: ServeModel, e: AcceptEvent)
    ensures
        s.phase == ServePhase::Accepting && e == AcceptEvent::Ready ==> serve_next(s, e).dispatched
            == s.dispatched + 1 && serve_action(s, e) == ServeAction::Dispatch,
        e != AcceptEvent::Ready ==> serve_next(s, e).dispatched == s.dispatched
            && serve_action(s, e) != ServeAction::Dispatch,
        e == AcceptEvent::HandshakeFailed || e == AcceptEvent::AcceptFailed ==> serve_next(
            s,
            e,
        ).phase == s.phase,
{
}

} // verus!
