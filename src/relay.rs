//! One direction of a proxied connection: bytes read from a source half are
//! written, in order and unmodified, to a sink half.
//!
//! The relay itself performs no I/O. It is a state machine: the driver
//! performs the action that the relay asks for (read a chunk, write the
//! pending bytes, finish) and hands back what happened as an event.
use vstd::prelude::*;

verus! {

/// Why a relay direction stopped.
#[derive(Clone, Copy, Debug, PartialEq, Eq, Structural)]
pub enum RelayEnd {
    /// The source reported end of stream with a zero-length read.
    SourceClosed,
    /// Reading from the source failed.
    ReadFailed,
    /// Writing to the sink failed, or the sink accepted no bytes.
    WriteFailed,
}

/// Where a relay direction stands.
#[derive(Clone, Copy, Debug, PartialEq, Eq, Structural)]
pub enum RelayPhase {
    /// Waiting for the next chunk from the source.
    Reading,
    /// A chunk has been read and part of it is still to be written.
    Writing,
    /// The relay has stopped for good.
    Finished(RelayEnd),
}

/// What the driver observed when it performed the last action.
#[derive(Debug)]
pub enum RelayEvent {
    /// A read returned these bytes; no bytes means end of stream.
    Data(Vec<u8>),
    /// A read failed.
    ReadError,
    /// The sink accepted this many bytes from the front of the pending chunk.
    Written(usize),
    /// A write failed.
    WriteError,
}

/// The mathematical content of a [`RelayEvent`].
pub enum RelayInput {
    Data(Seq<u8>),
    ReadError,
    Written(nat),
    WriteError,
}

impl View for RelayEvent {
    type V = RelayInput;

    open spec fn view(&self) -> RelayInput {
        match self {
            RelayEvent::Data(b) => RelayInput::Data(b@),
            RelayEvent::ReadError => RelayInput::ReadError,
            RelayEvent::Written(n) => RelayInput::Written(*n as nat),
            RelayEvent::WriteError => RelayInput::WriteError,
        }
    }
}

/// What the relay asks the driver to do next.
#[derive(Debug)]
pub enum RelayAction {
    /// Read at most this many bytes from the source.
    Read(usize),
    /// Write these bytes to the sink.
    Write(Vec<u8>),
    /// Stop. On `SourceClosed` the driver shuts down the sink's write side,
    /// so that the far end sees end of stream after the relayed bytes.
    Finish(RelayEnd),
}

/// The abstract state of a relay direction.
pub struct RelayModel {
    pub phase: RelayPhase,
    /// Largest read that the relay asks for.
    pub chunk_size: nat,
    /// Bytes read but not yet accepted by the sink.
    pub pending: Seq<u8>,
    /// Every byte read from the source so far, in order.
    pub read: Seq<u8>,
    /// Every byte the sink has accepted so far, in order.
    pub written: Seq<u8>,
}

impl RelayModel {
    /// The sink has received a prefix of the source's bytes, and the rest of
    /// what was read is pending; nothing is pending while reading or after an
    /// orderly close.
    pub open spec fn wf(self) -> bool {
        &&& self.chunk_size > 0
        &&& self.written + self.pending == self.read
        &&& self.phase == RelayPhase::Reading ==> self.pending.len() == 0
        &&& self.phase == RelayPhase::Writing ==> self.pending.len() > 0
        &&& self.phase == RelayPhase::Finished(RelayEnd::SourceClosed) ==> self.pending.len() == 0
    }

    pub open spec fn with_phase(self, phase: RelayPhase) -> RelayModel {
        RelayModel { phase, ..self }
    }
}

/// A fresh relay: nothing read, nothing written, waiting for the first chunk.
pub open spec fn relay_start(chunk_size: nat) -> RelayModel {
    RelayModel {
        phase: RelayPhase::Reading,
        chunk_size,
        pending: Seq::empty(),
        read: Seq::empty(),
        written: Seq::empty(),
    }
}

/// One transition. Events that do not answer the current action (a write
/// result while reading, anything after finishing) leave the state as it is.
pub open spec fn relay_next(s: RelayModel, e: RelayInput) -> RelayModel {
    match s.phase {
        RelayPhase::Reading => match e {
            RelayInput::Data(b) => if b.len() == 0 {
                s.with_phase(RelayPhase::Finished(RelayEnd::SourceClosed))
            } else {
                RelayModel { phase: RelayPhase::Writing, pending: b, read: s.read + b, ..s }
            },
            RelayInput::ReadError => s.with_phase(RelayPhase::Finished(RelayEnd::ReadFailed)),
            _ => s,
        },
        RelayPhase::Writing => match e {
            RelayInput::Written(n) => if n == 0 || n > s.pending.len() {
                s.with_phase(RelayPhase::Finished(RelayEnd::WriteFailed))
            } else {
                RelayModel {
                    phase: if n == s.pending.len() {
                        RelayPhase::Reading
                    } else {
                        RelayPhase::Writing
                    },
                    pending: s.pending.skip(n as int),
                    written: s.written + s.pending.take(n as int),
                    ..s
                }
            },
            RelayInput::WriteError => s.with_phase(RelayPhase::Finished(RelayEnd::WriteFailed)),
            _ => s,
        },
        RelayPhase::Finished(_) => s,
    }
}

/// The state after a sequence of events, taken in order.
pub open spec fn relay_run(s: RelayModel, inputs: Seq<RelayInput>) -> RelayModel
    decreases inputs.len(),
{
    if inputs.len() == 0 {
        s
    } else {
        relay_run(relay_next(s, inputs[0]), inputs.skip(1))
    }
}

/// Whether `a` is the action that state `s` asks for.
pub open spec fn asks_for(s: RelayModel, a: RelayAction) -> bool {
    match a {
        RelayAction::Read(n) => s.phase == RelayPhase::Reading && n == s.chunk_size,
        RelayAction::Write(b) => s.phase == RelayPhase::Writing && b@ == s.pending,
        RelayAction::Finish(end) => s.phase == RelayPhase::Finished(end),
    }
}

/// The events of a source that delivers `payload` in chunks of at most
/// `chunk_size` bytes and then closes, against a sink that accepts each chunk
/// in one write.
pub open spec fn deliver_all(payload: Seq<u8>, chunk_size: nat) -> Seq<RelayInput>
    decreases payload.len(),
{
    if payload.len() == 0 || chunk_size == 0 {
        seq![RelayInput::Data(Seq::empty())]
    } else {
        let k = if payload.len() < chunk_size { payload.len() } else { chunk_size };
        seq![RelayInput::Data(payload.take(k as int)), RelayInput::Written(k)]
            + deliver_all(payload.skip(k as int), chunk_size)
    }
}

/// A relay direction driven by events.
pub struct Relay {
    phase: RelayPhase,
    chunk_size: usize,
    pending: Vec<u8>,
    read: Ghost<Seq<u8>>,
    written: Ghost<Seq<u8>>,
}

impl View for Relay {
    type V = RelayModel;

    closed spec fn view(&self) -> RelayModel {
        RelayModel {
            phase: self.phase,
            chunk_size: self.chunk_size as nat,
            pending: self.pending@,
            read: self.read@,
            written: self.written@,
        }
    }
}

impl Relay {
    /// Every relay is well formed.
    #[verifier::type_invariant]
    spec fn inv(&self) -> bool {
        self@.wf()
    }

    /// A relay that reads at most `chunk_size` bytes at a time.
    pub fn new(chunk_size: usize) -> (r: Relay)
        requires
            chunk_size > 0,
        ensures
            r@ == relay_start(chunk_size as nat),
            r@.wf(),
    {
        Relay {
            phase: RelayPhase::Reading,
            chunk_size,
            pending: Vec::new(),
            read: Ghost(Seq::empty()),
            written: Ghost(Seq::empty()),
        }
    }

    /// Where the relay stands.
    pub fn phase(&self) -> (r: RelayPhase)
        ensures
            r == self@.phase,
            self@.wf(),
    {
        proof {
            use_type_invariant(self);
        }
        self.phase
    }

    /// The action that the current state asks for.
    pub fn action(&self) -> (a: RelayAction)
        ensures
            asks_for(self@, a),
    {
        match self.phase {
            RelayPhase::Reading => RelayAction::Read(self.chunk_size),
            RelayPhase::Writing => {
                let out = bytes_from(&self.pending, 0);
                assert(self.pending@.skip(0) =~= self.pending@);
                RelayAction::Write(out)
            },
            RelayPhase::Finished(end) => RelayAction::Finish(end),
        }
    }

    /// Takes the outcome of the last action and returns the next one.
    pub fn step(&mut self, e: RelayEvent) -> (a: RelayAction)
        ensures
            final(self)@ == relay_next(old(self)@, e@),
            final(self)@.wf(),
            asks_for(final(self)@, a),
    {
        proof {
            use_type_invariant(&*self);
            lemma_next_wf(self@, e@);
        }
        match self.phase {
            RelayPhase::Reading => match e {
                RelayEvent::Data(b) => {
                    if b.len() == 0 {
                        self.phase = RelayPhase::Finished(RelayEnd::SourceClosed);
                    } else {
                        *self = Relay {
                            phase: RelayPhase::Writing,
                            chunk_size: self.chunk_size,
                            read: Ghost(self.read@ + b@),
                            written: Ghost(self.written@),
                            pending: b,
                        };
                    }
                },
                RelayEvent::ReadError => {
                    self.phase = RelayPhase::Finished(RelayEnd::ReadFailed);
                },
                _ => {},
            },
            RelayPhase::Writing => match e {
                RelayEvent::Written(n) => {
                    if n == 0 || n > self.pending.len() {
                        self.phase = RelayPhase::Finished(RelayEnd::WriteFailed);
                    } else {
                        let rest = bytes_from(&self.pending, n);
                        let phase = if rest.len() == 0 {
                            RelayPhase::Reading
                        } else {
                            RelayPhase::Writing
                        };
                        proof {
                            assert(self.pending@.take(n as int) + rest@ =~= self.pending@);
                        }
                        *self = Relay {
                            phase,
                            chunk_size: self.chunk_size,
                            read: Ghost(self.read@),
                            written: Ghost(self.written@ + self.pending@.take(n as int)),
                            pending: rest,
                        };
                    }
                },
                RelayEvent::WriteError => {
                    self.phase = RelayPhase::Finished(RelayEnd::WriteFailed);
                },
                _ => {},
            },
            RelayPhase::Finished(_) => {},
        }
        self.action()
    }
}

/// A copy of `v` without its first `from` bytes.
fn bytes_from(v: &Vec<u8>, from: usize) -> (r: Vec<u8>)
    requires
        from <= v@.len(),
    ensures
        r@ == v@.skip(from as int),
{
    let mut out: Vec<u8> = Vec::new();
    let mut i: usize = from;
    while i < v.len()
        invariant
            from <= i <= v@.len(),
            out@ == v@.subrange(from as int, i as int),
        decreases v@.len() - i,
    {
        out.push(v[i]);
        i = i + 1;
        assert(out@ =~= v@.subrange(from as int, i as int));
    }
    assert(out@ =~= v@.skip(from as int));
    out
}

/// A transition keeps a well-formed state well-formed.
pub proof fn lemma_next_wf(s: RelayModel, e: RelayInput)
    requires
        s.wf(),
    ensures
        relay_next(s, e).wf(),
{
    if let RelayPhase::Writing = s.phase {
        if let RelayInput::Written(n) = e {
            if n > 0 && n <= s.pending.len() {
                assert(s.pending.take(n as int) + s.pending.skip(n as int) =~= s.pending);
                assert(s.written + s.pending.take(n as int) + s.pending.skip(n as int)
                    =~= s.written + s.pending);
            }
        }
    }
    if let RelayPhase::Reading = s.phase {
        if let RelayInput::Data(b) = e {
            assert(s.written + b =~= s.read + b);
        }
    }
}

/// Content fidelity of a relay direction: whatever the events, the sink has
/// received exactly the bytes read from the source, in order, except for a
/// pending tail; bytes once read or written are never taken back; and after an
/// orderly close of the source the sink has received every byte read.
pub proof fn lemma_relay_faithful(s: RelayModel, inputs: Seq<RelayInput>)
    requires
        s.wf(),
    ensures
        relay_run(s, inputs).wf(),
        relay_run(s, inputs).written + relay_run(s, inputs).pending == relay_run(s, inputs).read,
        relay_run(s, inputs).written.is_prefix_of(relay_run(s, inputs).read),
        s.read.is_prefix_of(relay_run(s, inputs).read),
        s.written.is_prefix_of(relay_run(s, inputs).written),
        relay_run(s, inputs).chunk_size == s.chunk_size,
        relay_run(s, inputs).phase == RelayPhase::Finished(RelayEnd::SourceClosed)
            ==> relay_run(s, inputs).written == relay_run(s, inputs).read,
    decreases inputs.len(),
{
    let r = relay_run(s, inputs);
    if inputs.len() > 0 {
        let t = relay_next(s, inputs[0]);
        lemma_next_wf(s, inputs[0]);
        lemma_relay_faithful(t, inputs.skip(1));
        assert(s.read.is_prefix_of(t.read));
        assert(s.written.is_prefix_of(t.written));
    }
    assert(r.written =~= r.read.subrange(0, r.written.len() as int));
}

/// Every payload, of any length, goes through a relay unmodified: a source that
/// delivers it in chunks of at most `chunk_size` bytes and then closes leaves
/// the relay finished by an orderly close, with the sink holding the payload.
pub proof fn lemma_payload_delivered(payload: Seq<u8>, chunk_size: nat)
    requires
        chunk_size > 0,
    ensures
        relay_run(relay_start(chunk_size), deliver_all(payload, chunk_size)).phase
            == RelayPhase::Finished(RelayEnd::SourceClosed),
        relay_run(relay_start(chunk_size), deliver_all(payload, chunk_size)).written == payload,
        relay_run(relay_start(chunk_size), deliver_all(payload, chunk_size)).read == payload,
{
    lemma_deliver_from(relay_start(chunk_size), payload);
    assert(Seq::<u8>::empty() + payload =~= payload);
}

proof fn lemma_deliver_from(s: RelayModel, payload: Seq<u8>)
    requires
        s.wf(),
        s.phase == RelayPhase::Reading,
    ensures
        relay_run(s, deliver_all(payload, s.chunk_size)).phase
            == RelayPhase::Finished(RelayEnd::SourceClosed),
        relay_run(s, deliver_all(payload, s.chunk_size)).written == s.written + payload,
        relay_run(s, deliver_all(payload, s.chunk_size)).read == s.read + payload,
        relay_run(s, deliver_all(payload, s.chunk_size)).chunk_size == s.chunk_size,
    decreases payload.len(),
{
    let c = s.chunk_size;
    let evs = deliver_all(payload, c);
    if payload.len() == 0 {
        let t = relay_next(s, evs[0]);
        assert(evs.skip(1) =~= Seq::<RelayInput>::empty());
        assert(s.written + payload =~= s.written);
        assert(s.read + payload =~= s.read);
        assert(relay_run(s, evs) == relay_run(t, evs.skip(1)));
    } else {
        let k = if payload.len() < c { payload.len() } else { c };
        let chunk = payload.take(k as int);
        let rest = payload.skip(k as int);
        let tail = deliver_all(rest, c);
        let s1 = relay_next(s, RelayInput::Data(chunk));
        let s2 = relay_next(s1, RelayInput::Written(k));
        assert(evs[0] == RelayInput::Data(chunk));
        assert(evs.skip(1)[0] == RelayInput::Written(k));
        assert(evs.skip(1).skip(1) =~= tail);
        assert(relay_run(s, evs) == relay_run(s1, evs.skip(1)));
        assert(relay_run(s1, evs.skip(1)) == relay_run(s2, tail));
        assert(s2.pending =~= Seq::<u8>::empty());
        assert(s2.written =~= s.written + chunk);
        lemma_deliver_from(s2, rest);
        assert(chunk + rest =~= payload);
        assert(s.written + chunk + rest =~= s.written + payload);
        assert(s.read + chunk + rest =~= s.read + payload);
    }
}

} // verus!
