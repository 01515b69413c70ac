use vstd::prelude::*;

use crate::config::PACKET_SIZE;

verus! {

/// Where a server connection stands.
#[derive(Clone, Copy, Debug, PartialEq, Eq, Structural)]
pub enum EchoPhase {
    /// Reading a packet into the buffer.
    Reading,
    /// Writing the buffer back.
    Writing,
    /// Finished; the connection is dropped.
    Closed,
}

/// What the connection asks its runtime to do next. The buffer travels with
/// the action and comes back with the outcome.
pub enum EchoAction {
    /// Fill this buffer from the peer.
    Read(Vec<u8>),
    /// Send this buffer to the peer.
    Write(Vec<u8>),
    /// Drop the connection.
    Close,
}

/// What happened to a server connection, as its state machine saw it.
pub ghost enum EchoEvent {
    /// A read filled the whole buffer with these bytes.
    Read(Seq<u8>),
    /// A read put `fresh` new bytes at the front of `buffer`; the rest of
    /// the buffer is what it held before.
    ReadSome { fresh: nat, buffer: Seq<u8> },
    ReadFailed,
    /// The buffer handed out for writing was written in full.
    Written,
    WriteFailed,
}

/// A server connection after a run of events: its phase, every byte it has
/// read from the peer, the buffers it took in (which equal the bytes read
/// when every read fills its buffer), every byte it has written, and the
/// buffer it has taken in but not yet written back.
pub ghost struct EchoState {
    pub phase: EchoPhase,
    pub read: Seq<u8>,
    pub buffered: Seq<u8>,
    pub written: Seq<u8>,
    pub pending: Seq<u8>,
}

/// A packet of zeros: the buffer a connection starts with.
pub open spec fn zero_packet() -> Seq<u8> {
    Seq::new(PACKET_SIZE as nat, |i: int| 0u8)
}

pub open spec fn echo_init() -> EchoState {
    EchoState {
        phase: EchoPhase::Reading,
        read: Seq::empty(),
        buffered: Seq::empty(),
        written: Seq::empty(),
        pending: Seq::empty(),
    }
}

/// The events that each phase waits for; the buffer is one packet.
pub open spec fn echo_fits(phase: EchoPhase, e: EchoEvent) -> bool {
    match phase {
        EchoPhase::Reading => match e {
            EchoEvent::Read(b) => b.len() == PACKET_SIZE,
            EchoEvent::ReadSome { fresh, buffer } => buffer.len() == PACKET_SIZE && fresh
                <= buffer.len(),
            EchoEvent::ReadFailed => true,
            _ => false,
        },
        EchoPhase::Writing => e is Written || e is WriteFailed,
        EchoPhase::Closed => false,
    }
}

pub open spec fn echo_step(s: EchoState, e: EchoEvent) -> EchoState {
    match e {
        EchoEvent::Read(b) => EchoState {
            phase: EchoPhase::Writing,
            read: s.read + b,
            buffered: s.buffered + b,
            written: s.written,
            pending: b,
        },
        EchoEvent::ReadSome { fresh, buffer } => EchoState {
            phase: EchoPhase::Writing,
            read: s.read + buffer.take(fresh as int),
            buffered: s.buffered + buffer,
            written: s.written,
            pending: buffer,
        },
        EchoEvent::Written => EchoState {
            phase: EchoPhase::Reading,
            written: s.written + s.pending,
            pending: Seq::empty(),
            ..s
        },
        _ => EchoState { phase: EchoPhase::Closed, ..s },
    }
}

/// The state after `events`, from a new connection.
pub open spec fn echo_run(events: Seq<EchoEvent>) -> EchoState
    decreases events.len(),
{
    if events.len() == 0 {
        echo_init()
    } else {
        echo_step(echo_run(events.drop_last()), events.last())
    }
}

/// Every event came when its phase waited for it.
pub open spec fn echo_valid(events: Seq<EchoEvent>) -> bool
    decreases events.len(),
{
    if events.len() == 0 {
        true
    } else {
        echo_valid(events.drop_last()) && echo_fits(echo_run(events.drop_last()).phase, events.last())
    }
}

/// Every read filled its whole buffer.
pub open spec fn full_reads(events: Seq<EchoEvent>) -> bool {
    forall|i: int|
        0 <= i < events.len() ==> (#[trigger] events[i] matches EchoEvent::ReadSome { fresh, buffer }
            ==> fresh == buffer.len())
}

/// Over any run, reads and writes alternate and the connection writes back
/// the buffers it took in, in order: the bytes written are a prefix of the
/// buffers taken in, and at most one packet has been taken in and not yet
/// written. Once closed, the connection takes no more events.
pub proof fn lemma_echo_run(events: Seq<EchoEvent>)
    requires
        echo_valid(events),
    ensures
        ({
            let s = echo_run(events);
            &&& s.written.is_prefix_of(s.buffered)
            &&& s.buffered.len() <= s.written.len() + PACKET_SIZE
            &&& s.phase == EchoPhase::Reading ==> s.buffered == s.written
            &&& s.phase == EchoPhase::Writing ==> s.buffered == s.written + s.pending
                && s.pending.len() == PACKET_SIZE
            &&& forall|e: EchoEvent| !echo_fits(EchoPhase::Closed, e)
        }),
    decreases events.len(),
{
    if events.len() > 0 {
        let prev = events.drop_last();
        lemma_echo_run(prev);
        let p = echo_run(prev);
        let s = echo_run(events);
        match events.last() {
            EchoEvent::Written => {
                assert(s.buffered =~= s.written);
            },
            EchoEvent::ReadFailed | EchoEvent::WriteFailed => {
                if p.phase == EchoPhase::Writing {
                    assert forall|i: int| 0 <= i < s.written.len() implies s.written[i]
                        == s.buffered[i] by {
                        assert(p.buffered[i] == (p.written + p.pending)[i]);
                    }
                }
            },
            _ => {
                assert forall|i: int| 0 <= i < s.written.len() implies s.written[i]
                    == s.buffered[i] by {
                    assert(p.buffered[i] == p.written[i]);
                }
            },
        }
    }
}

/// When every read fills its buffer, the buffers taken in are exactly the
/// bytes read from the peer: the connection writes back what it read, in
/// order, at most one packet behind.
pub proof fn lemma_echo_full_reads(events: Seq<EchoEvent>)
    requires
        echo_valid(events),
        full_reads(events),
    ensures
        echo_run(events).read == echo_run(events).buffered,
        echo_run(events).written.is_prefix_of(echo_run(events).read),
        echo_run(events).read.len() <= echo_run(events).written.len() + PACKET_SIZE,
    decreases events.len(),
{
    lemma_echo_run(events);
    if events.len() > 0 {
        let prev = events.drop_last();
        assert(full_reads(prev)) by {
            assert forall|i: int| 0 <= i < prev.len() implies (#[trigger] prev[i] matches EchoEvent::ReadSome { fresh, buffer }
                ==> fresh == buffer.len()) by {
                assert(prev[i] == events[i]);
            }
        }
        lemma_echo_full_reads(prev);
        let last = events.last();
        assert(last == events[events.len() - 1]);
        match last {
            EchoEvent::ReadSome { fresh, buffer } => {
                assert(buffer.take(fresh as int) =~= buffer);
            },
            _ => {},
        }
    }
}

/// One server connection: read a packet, write the same buffer back, and
/// again, until a read or a write fails.
pub struct EchoConn {
    phase: EchoPhase,
    history: Ghost<Seq<EchoEvent>>,
}

impl EchoConn {
    /// The connection's phase.
    pub closed spec fn phase_of(&self) -> EchoPhase {
        self.phase
    }

    /// Everything that happened to the connection, in order.
    pub closed spec fn history(&self) -> Seq<EchoEvent> {
        self.history@
    }

    /// The connection's phase agrees with a valid run of its history.
    pub open spec fn wf(&self) -> bool {
        &&& echo_valid(self.history())
        &&& self.phase_of() == echo_run(self.history()).phase
    }

    /// The connection's phase.
    pub fn phase(&self) -> (r: EchoPhase)
        ensures
            r == self.phase_of(),
    {
        self.phase
    }

    /// A new connection and its first action: read into a zeroed buffer of
    /// one packet.
    pub fn new() -> (r: (EchoConn, EchoAction))
        ensures
            r.0.wf(),
            r.0.history() == Seq::<EchoEvent>::empty(),
            r.0.phase_of() == EchoPhase::Reading,
            r.1 matches EchoAction::Read(buf) && buf@ == zero_packet(),
            r.1 matches EchoAction::Read(buf) && buf@.len() == PACKET_SIZE && forall|i: int|
                0 <= i < buf@.len() ==> buf@[i] == 0,
    {
        let buf: Vec<u8> = vec![0u8; PACKET_SIZE];
        assert(buf@ =~= zero_packet());
        (EchoConn { phase: EchoPhase::Reading, history: Ghost(Seq::empty()) }, EchoAction::Read(buf))
    }

    /// A read that fills the whole buffer finished (`ok`) or failed; `buf`
    /// holds what was read. What is written back is exactly what was read.
    pub fn on_read(&mut self, ok: bool, buf: Vec<u8>) -> (r: EchoAction)
        requires
            old(self).wf(),
            old(self).phase_of() == EchoPhase::Reading,
            ok ==> buf@.len() == PACKET_SIZE,
        ensures
            final(self).wf(),
            ok ==> final(self).history() == old(self).history().push(EchoEvent::Read(buf@)),
            !ok ==> final(self).history() == old(self).history().push(EchoEvent::ReadFailed),
            ok ==> final(self).phase_of() == EchoPhase::Writing && (r matches EchoAction::Write(
                out,
            ) && out@ == buf@ && out@ == echo_run(final(self).history()).pending),
            !ok ==> final(self).phase_of() == EchoPhase::Closed && r is Close,
    {
        if ok {
            self.history = Ghost(self.history@.push(EchoEvent::Read(buf@)));
            proof {
                assert(self.history@.drop_last() =~= old(self).history@);
            }
            self.phase = EchoPhase::Writing;
            EchoAction::Write(buf)
        } else {
            self.history = Ghost(self.history@.push(EchoEvent::ReadFailed));
            proof {
                assert(self.history@.drop_last() =~= old(self).history@);
            }
            self.phase = EchoPhase::Closed;
            EchoAction::Close
        }
    }

    /// A read that may fill only part of the buffer finished with `fresh`
    /// new bytes at its front (`Some`) or failed (`None`). The whole buffer
    /// is written back, fresh bytes and old ones alike.
    pub fn on_read_some(&mut self, fresh: Option<usize>, buf: Vec<u8>) -> (r: EchoAction)
        requires
            old(self).wf(),
            old(self).phase_of() == EchoPhase::Reading,
            fresh matches Some(n) ==> buf@.len() == PACKET_SIZE && n <= buf@.len(),
        ensures
            final(self).wf(),
            fresh matches Some(n) ==> final(self).history() == old(self).history().push(
                EchoEvent::ReadSome { fresh: n as nat, buffer: buf@ },
            ),
            fresh is None ==> final(self).history() == old(self).history().push(
                EchoEvent::ReadFailed,
            ),
            fresh is Some ==> final(self).phase_of() == EchoPhase::Writing && (
            r matches EchoAction::Write(out) && out@ == buf@ && out@ == echo_run(
                final(self).history(),
            ).pending),
            fresh is None ==> final(self).phase_of() == EchoPhase::Closed && r is Close,
    {
        match fresh {
            Some(n) => {
                self.history = Ghost(
                    self.history@.push(EchoEvent::ReadSome { fresh: n as nat, buffer: buf@ }),
                );
                proof {
                    assert(self.history@.drop_last() =~= old(self).history@);
                }
                self.phase = EchoPhase::Writing;
                EchoAction::Write(buf)
            },
            None => {
                self.history = Ghost(self.history@.push(EchoEvent::ReadFailed));
                proof {
                    assert(self.history@.drop_last() =~= old(self).history@);
                }
                self.phase = EchoPhase::Closed;
                EchoAction::Close
            },
        }
    }

    /// A write finished (`ok`) or failed; `buf` is the buffer that was
    /// written. The next read reuses it.
    pub fn on_written(&mut self, ok: bool, buf: Vec<u8>) -> (r: EchoAction)
        requires
            old(self).wf(),
            old(self).phase_of() == EchoPhase::Writing,
        ensures
            final(self).wf(),
            ok ==> final(self).history() == old(self).history().push(EchoEvent::Written),
            !ok ==> final(self).history() == old(self).history().push(EchoEvent::WriteFailed),
            ok ==> final(self).phase_of() == EchoPhase::Reading && (r matches EchoAction::Read(
                next,
            ) && next@ == buf@),
            !ok ==> final(self).phase_of() == EchoPhase::Closed && r is Close,
    {
        if ok {
            self.history = Ghost(self.history@.push(EchoEvent::Written));
            proof {
                assert(self.history@.drop_last() =~= old(self).history@);
            }
            self.phase = EchoPhase::Reading;
            EchoAction::Read(buf)
        } else {
            self.history = Ghost(self.history@.push(EchoEvent::WriteFailed));
            proof {
                assert(self.history@.drop_last() =~= old(self).history@);
            }
            self.phase = EchoPhase::Closed;
            EchoAction::Close
        }
    }
}

} // verus!
