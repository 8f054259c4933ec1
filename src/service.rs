//! The proxy service: for each accepted session, one backend connection is
//! attempted, and on success the two relay directions are opened, each owning
//! its own state.
//!
//! The two directions are not coordinated: one finishing does not stop the
//! other. That is what lets a client half-close its side and still receive
//! the backend's answer.
use vstd::prelude::*;
use crate::relay::{Relay, RelayEnd, RelayInput, RelayModel, RelayPhase, relay_next, relay_run, relay_start, deliver_all, lemma_payload_delivered};

verus! {

/// Relay size that the service uses unless told otherwise.
pub const DEFAULT_CHUNK_SIZE: usize = 256;

/// Which relay direction of a connection an event belongs to.
#[derive(Clone, Copy, Debug, PartialEq, Eq, Structural)]
pub enum Direction {
    /// Client read half to backend write half.
    ClientToBackend,
    /// Backend read half to client write half.
    BackendToClient,
}

/// The two relay directions of one proxied connection.
pub struct ConnectionModel {
    pub upstream: RelayModel,
    pub downstream: RelayModel,
}

/// An event on one direction moves that direction alone.
pub open spec fn connection_next(c: ConnectionModel, d: Direction, e: RelayInput) -> ConnectionModel {
    match d {
        Direction::ClientToBackend => ConnectionModel { upstream: relay_next(c.upstream, e), ..c },
        Direction::BackendToClient => ConnectionModel { downstream: relay_next(c.downstream, e), ..c },
    }
}

/// The connection after a sequence of events on one direction.
pub open spec fn connection_run(c: ConnectionModel, d: Direction, inputs: Seq<RelayInput>) -> ConnectionModel
    decreases inputs.len(),
{
    if inputs.len() == 0 {
        c
    } else {
        connection_run(connection_next(c, d, inputs[0]), d, inputs.skip(1))
    }
}

/// Opens the relays of each accepted session.
pub struct ProxyService {
    chunk_size: usize,
}

impl ProxyService {
    /// Relays always read at least one byte at a time.
    #[verifier::type_invariant]
    spec fn inv(&self) -> bool {
        self.chunk_size > 0
    }

    /// A service whose relays read at most `chunk_size` bytes at a time.
    pub fn new(chunk_size: usize) -> (r: ProxyService)
        requires
            chunk_size > 0,
        ensures
            r.chunk_size() == chunk_size,
            r.chunk_size() > 0,
    {
        ProxyService { chunk_size }
    }

    pub closed spec fn chunk_size(&self) -> nat {
        self.chunk_size as nat
    }

    /// Decides what becomes of a session once the single backend connection
    /// attempt for it has been made. When the backend could not be reached
    /// nothing is relayed and the session is dropped; otherwise both
    /// directions start fresh, sharing no state with each other or with any
    /// other session.
    pub fn open(&self, backend_connected: bool) -> (r: Option<(Relay, Relay)>)
        ensures
            r.is_some() == backend_connected,
            r matches Some((up, down)) ==> up@ == relay_start(self.chunk_size()) && down@
                == relay_start(self.chunk_size()) && up@.wf() && down@.wf(),
    {
        proof {
            use_type_invariant(self);
        }
        if backend_connected {
            Some((Relay::new(self.chunk_size), Relay::new(self.chunk_size)))
        } else {
            None
        }
    }
}

/// Events on one direction never touch the other.
pub proof fn lemma_directions_independent(c: ConnectionModel, d: Direction, inputs: Seq<RelayInput>)
    ensures
        d == Direction::ClientToBackend ==> connection_run(c, d, inputs).downstream == c.downstream
            && connection_run(c, d, inputs).upstream == relay_run(c.upstream, inputs),
        d == Direction::BackendToClient ==> connection_run(c, d, inputs).upstream == c.upstream
            && connection_run(c, d, inputs).downstream == relay_run(c.downstream, inputs),
    decreases inputs.len(),
{
    if inputs.len() > 0 {
        lemma_directions_independent(connection_next(c, d, inputs[0]), d, inputs.skip(1));
    }
}

/// Orderly half-close: when the client sends `payload` and then shuts down its
/// write side, the client-to-backend direction finishes by an orderly close
/// with exactly `payload` written to the backend (its driver then shuts down
/// the backend's write side), while the backend-to-client direction is left as
/// it was and goes on relaying whatever comes afterwards.
pub proof fn lemma_half_close(
    c: ConnectionModel,
    payload: Seq<u8>,
    reverse: Seq<RelayInput>,
)
    requires
        c.upstream == relay_start(c.upstream.chunk_size),
        c.upstream.chunk_size > 0,
    ensures
        ({
            let closed = connection_run(
                c,
                Direction::ClientToBackend,
                deliver_all(payload, c.upstream.chunk_size),
            );
            &&& closed.upstream.phase == RelayPhase::Finished(RelayEnd::SourceClosed)
            &&& closed.upstream.written == payload
            &&& closed.downstream == c.downstream
            &&& connection_run(closed, Direction::BackendToClient, reverse).downstream == relay_run(
                c.downstream,
                reverse,
            )
            &&& connection_run(closed, Direction::BackendToClient, reverse).upstream
                == closed.upstream
        }),
{
    let k = c.upstream.chunk_size;
    let evs = deliver_all(payload, k);
    lemma_directions_independent(c, Direction::ClientToBackend, evs);
    lemma_payload_delivered(payload, k);
    let closed = connection_run(c, Direction::ClientToBackend, evs);
    lemma_directions_independent(closed, Direction::BackendToClient, reverse);
}

/// No cross-talk between connections: when several sessions, each opened
/// fresh, are each sent their own payload and then closed by the client, every
/// backend connection receives exactly its own session's payload, whatever the
/// others carry.
pub proof fn lemma_sessions_isolated(payloads: Seq<Seq<u8>>, chunk_size: nat)
    requires
        chunk_size > 0,
    ensures
        forall|i: int|
            0 <= i < payloads.len() ==> #[trigger] relay_run(
                relay_start(chunk_size),
                deliver_all(payloads[i], chunk_size),
            ).written == payloads[i],
{
    assert forall|i: int| 0 <= i < payloads.len() implies #[trigger] relay_run(
        relay_start(chunk_size),
        deliver_all(payloads[i], chunk_size),
    ).written == payloads[i] by {
        lemma_payload_delivered(payloads[i], chunk_size);
    }
}

} // verus!
