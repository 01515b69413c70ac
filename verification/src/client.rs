use vstd::prelude::*;

use crate::config::PACKET_SIZE;
use crate::echo::zero_packet;

verus! {

/// What one core's connections have completed since the last grain: the
/// number of round trips and the sum of their latencies in microseconds.
#[derive(Clone, Copy, Debug, PartialEq, Eq, Structural)]
pub struct Tally {
    pub requests: usize,
    pub latency_us: u64,
}

/// What a grain tick hands on: the counts to add to the global totals, and
/// the permits to add to the core's request budget (`None` when unlimited).
#[derive(Clone, Copy, Debug, PartialEq, Eq, Structural)]
pub struct GrainFlush {
    pub requests: usize,
    pub latency_us: u64,
    pub permits: Option<usize>,
}

/// Whether one more round trip of `latency_us` can be counted without
/// overflowing the tally.
pub open spec fn can_record(t: Tally, latency_us: u64) -> bool {
    t.requests < usize::MAX && t.latency_us + latency_us <= u64::MAX
}

/// The tally after one more round trip of `latency_us`.
pub open spec fn spec_record(t: Tally, latency_us: u64) -> Tally {
    Tally { requests: (t.requests + 1) as usize, latency_us: (t.latency_us + latency_us) as u64 }
}

pub open spec fn empty_tally() -> Tally {
    Tally { requests: 0, latency_us: 0 }
}

impl Tally {
    pub fn new() -> (r: Tally)
        ensures
            r == empty_tally(),
    {
        Tally { requests: 0, latency_us: 0 }
    }

    /// Counts one completed round trip that took `latency_us` microseconds.
    pub fn record(&mut self, latency_us: u64)
        requires
            can_record(*old(self), latency_us),
        ensures
            *final(self) == spec_record(*old(self), latency_us),
            final(self).requests == old(self).requests + 1,
            final(self).latency_us == old(self).latency_us + latency_us,
    {
        self.requests = self.requests + 1;
        self.latency_us = self.latency_us + latency_us;
    }

    /// Whether `record(latency_us)` may be called.
    pub fn has_room(&self, latency_us: u64) -> (r: bool)
        ensures
            r == can_record(*self, latency_us),
            r == (self.requests < usize::MAX && self.latency_us + latency_us <= u64::MAX),
    {
        self.requests < usize::MAX && latency_us <= u64::MAX - self.latency_us
    }

    /// Hands over what was counted and starts again from zero.
    pub fn take(&mut self) -> (r: Tally)
        ensures
            r == *old(self),
            *final(self) == empty_tally(),
            final(self).requests == 0 && final(self).latency_us == 0,
    {
        let r = *self;
        self.requests = 0;
        self.latency_us = 0;
        r
    }
}

/// One core's request budget, as the client's semaphore holds it: it starts
/// with one grain's worth of permits, every grain adds as many again, and
/// every send of a limited connection takes one. An unlimited core has no
/// budget.
pub ghost struct BudgetView {
    pub limited: bool,
    pub per_grain: nat,
    pub available: nat,
    pub taken: nat,
    pub grains: nat,
}

/// Permits are never made up: what was taken plus what is left is one
/// grain's worth for the start and for every grain since.
pub open spec fn budget_inv(b: BudgetView) -> bool {
    &&& b.limited ==> b.available + b.taken == b.per_grain * (b.grains + 1)
    &&& !b.limited ==> b.available == 0 && b.taken == 0
}

pub struct Budget {
    per_grain: Option<usize>,
    available: usize,
    taken: Ghost<nat>,
    grains: Ghost<nat>,
}

impl View for Budget {
    type V = BudgetView;

    closed spec fn view(&self) -> BudgetView {
        BudgetView {
            limited: self.per_grain is Some,
            per_grain: match self.per_grain {
                Some(g) => g as nat,
                None => 0,
            },
            available: self.available as nat,
            taken: self.taken@,
            grains: self.grains@,
        }
    }
}

impl Budget {
    /// A new budget: one grain's worth of permits when limited.
    pub fn new(permits_per_grain: Option<usize>) -> (r: Budget)
        ensures
            budget_inv(r@),
            r@.limited == permits_per_grain is Some,
            r@.per_grain == match permits_per_grain {
                Some(g) => g as nat,
                None => 0,
            },
            r@.available == r@.per_grain,
            r@.taken == 0,
            r@.grains == 0,
    {
        let available = match permits_per_grain {
            Some(g) => g,
            None => 0,
        };
        let r = Budget { per_grain: permits_per_grain, available, taken: Ghost(0), grains: Ghost(0) };
        assert(r@.per_grain * (0 + 1) == r@.per_grain) by (nonlinear_arith);
        r
    }

    /// The permits left.
    pub fn available(&self) -> (r: usize)
        ensures
            r == self@.available,
    {
        self.available
    }

    /// Whether one more grain fits in the budget's counter.
    pub fn has_room_for_grain(&self) -> (r: bool)
        ensures
            r == (self@.available + self@.per_grain <= usize::MAX),
    {
        match self.per_grain {
            Some(g) => g <= usize::MAX - self.available,
            None => true,
        }
    }

    /// A grain passes: a limited budget gains its per-grain permits, which
    /// are returned for the semaphore.
    pub fn grant(&mut self) -> (r: Option<usize>)
        requires
            budget_inv(old(self)@),
            old(self)@.available + old(self)@.per_grain <= usize::MAX,
        ensures
            budget_inv(final(self)@),
            final(self)@ == (BudgetView {
                available: old(self)@.available + old(self)@.per_grain,
                grains: old(self)@.grains + 1,
                ..old(self)@
            }),
            old(self)@.limited ==> r == Some(old(self)@.per_grain as usize),
            !old(self)@.limited ==> r is None,
    {
        let ghost b = self@;
        self.grains = Ghost(self.grains@ + 1);
        match self.per_grain {
            Some(g) => {
                self.available = self.available + g;
                assert(b.per_grain * (b.grains + 1) + b.per_grain == b.per_grain * (b.grains + 1
                    + 1)) by (nonlinear_arith);
                Some(g)
            },
            None => None,
        }
    }

    /// A limited connection takes one permit for its next send.
    fn take(&mut self)
        requires
            budget_inv(old(self)@),
            old(self)@.limited,
            old(self)@.available > 0,
        ensures
            budget_inv(final(self)@),
            final(self)@ == (BudgetView {
                available: (old(self)@.available - 1) as nat,
                taken: old(self)@.taken + 1,
                ..old(self)@
            }),
    {
        self.available = self.available - 1;
        self.taken = Ghost(self.taken@ + 1);
    }
}

/// A budget never hands out more than one grain's worth of permits for the
/// start and for every grain since.
pub proof fn lemma_budget_bound(b: BudgetView)
    requires
        budget_inv(b),
    ensures
        b.taken <= b.per_grain * (b.grains + 1),
{
}

/// The work of one grain tick: the core's tally moves to the global totals
/// and, when the core is limited, its budget grows by one grain's worth.
pub fn flush_grain(tally: &mut Tally, budget: &mut Budget) -> (r: GrainFlush)
    requires
        budget_inv(old(budget)@),
        old(budget)@.available + old(budget)@.per_grain <= usize::MAX,
    ensures
        r.requests == old(tally).requests,
        r.latency_us == old(tally).latency_us,
        *final(tally) == empty_tally(),
        final(tally).requests == 0 && final(tally).latency_us == 0,
        budget_inv(final(budget)@),
        final(budget)@ == (BudgetView {
            available: old(budget)@.available + old(budget)@.per_grain,
            grains: old(budget)@.grains + 1,
            ..old(budget)@
        }),
        old(budget)@.limited ==> r.permits == Some(old(budget)@.per_grain as usize),
        !old(budget)@.limited ==> r.permits is None,
{
    let t = tally.take();
    let permits = budget.grant();
    GrainFlush { requests: t.requests, latency_us: t.latency_us, permits }
}

/// Where a client connection stands in its request loop.
#[derive(Clone, Copy, Debug, PartialEq, Eq, Structural)]
pub enum ConnPhase {
    /// Waiting for a permit from the core's budget.
    Acquiring,
    /// Sending a packet.
    Sending,
    /// Waiting for the packet to come back.
    Receiving,
    /// Finished; nothing more is done on this connection.
    Closed,
}

/// Why a client connection stopped.
#[derive(Clone, Copy, Debug, PartialEq, Eq, Structural)]
pub enum ConnExit {
    WriteFailed,
    ReadFailed,
}

/// What the connection asks its runtime to do next. Buffers travel with the
/// action and come back with the event.
#[derive(Debug, PartialEq, Eq)]
pub enum ConnAction {
    /// Wait for one permit and consume it.
    AcquirePermit,
    /// Note the time, then send this packet in full.
    SendPacket(Vec<u8>),
    /// Fill this buffer with the reply.
    ReceivePacket(Vec<u8>),
    /// Close the connection.
    Exit(ConnExit),
}

/// What the runtime reports back after doing the action.
#[derive(Debug, PartialEq, Eq)]
pub enum ConnEvent {
    /// The packet was sent in full; this is its buffer, handed back.
    Sent(Vec<u8>),
    SendFailed,
    /// The reply `packet` came back, `latency_us` microseconds after the
    /// packet was sent.
    Received { latency_us: u64, packet: Vec<u8> },
    ReceiveFailed,
}

/// What happened to a client connection, as its state machine saw it.
pub ghost enum ClientEvent {
    PermitAcquired,
    Sent,
    SendFailed,
    Received { latency_us: u64, packet: Seq<u8> },
    ReceiveFailed,
}

impl View for ConnEvent {
    type V = ClientEvent;

    open spec fn view(&self) -> ClientEvent {
        match self {
            ConnEvent::Sent(_) => ClientEvent::Sent,
            ConnEvent::SendFailed => ClientEvent::SendFailed,
            ConnEvent::Received { latency_us, packet } => ClientEvent::Received {
                latency_us: *latency_us,
                packet: packet@,
            },
            ConnEvent::ReceiveFailed => ClientEvent::ReceiveFailed,
        }
    }
}

/// A client connection after a run of events: its phase, the packet it
/// sends next (or is sending), every byte it has sent and received, the
/// permits it took, the sends it started, and its round trips with their
/// total latency.
pub ghost struct ClientState {
    pub phase: ConnPhase,
    pub next: Seq<u8>,
    pub sent: Seq<u8>,
    pub received: Seq<u8>,
    pub permits: nat,
    pub sends: nat,
    pub round_trips: nat,
    pub latency: nat,
}

/// Where a round trip starts: at the budget when limited, else at sending.
pub open spec fn round_start(limited: bool) -> ConnPhase {
    if limited {
        ConnPhase::Acquiring
    } else {
        ConnPhase::Sending
    }
}

/// A new connection: its first packet is all zeros.
pub open spec fn client_init(limited: bool) -> ClientState {
    ClientState {
        phase: round_start(limited),
        next: zero_packet(),
        sent: Seq::empty(),
        received: Seq::empty(),
        permits: 0,
        sends: if limited {
            0
        } else {
            1
        },
        round_trips: 0,
        latency: 0,
    }
}

/// The events that each phase waits for; a reply is a whole packet.
pub open spec fn client_fits(phase: ConnPhase, e: ClientEvent) -> bool {
    match phase {
        ConnPhase::Acquiring => e is PermitAcquired,
        ConnPhase::Sending => e is Sent || e is SendFailed,
        ConnPhase::Receiving => match e {
            ClientEvent::Received { packet, .. } => packet.len() == PACKET_SIZE,
            ClientEvent::ReceiveFailed => true,
            _ => false,
        },
        ConnPhase::Closed => false,
    }
}

pub open spec fn client_step(limited: bool, s: ClientState, e: ClientEvent) -> ClientState {
    match e {
        ClientEvent::PermitAcquired => ClientState {
            phase: ConnPhase::Sending,
            permits: s.permits + 1,
            sends: s.sends + 1,
            ..s
        },
        ClientEvent::Sent => ClientState { phase: ConnPhase::Receiving, sent: s.sent + s.next, ..s },
        ClientEvent::Received { latency_us, packet } => ClientState {
            phase: round_start(limited),
            next: packet,
            received: s.received + packet,
            round_trips: s.round_trips + 1,
            latency: s.latency + (latency_us as nat),
            sends: if limited {
                s.sends
            } else {
                s.sends + 1
            },
            ..s
        },
        _ => ClientState { phase: ConnPhase::Closed, ..s },
    }
}

/// The state after `events`, from a new connection.
pub open spec fn client_run(limited: bool, events: Seq<ClientEvent>) -> ClientState
    decreases events.len(),
{
    if events.len() == 0 {
        client_init(limited)
    } else {
        client_step(limited, client_run(limited, events.drop_last()), events.last())
    }
}

/// Every event came when its phase waited for it.
pub open spec fn client_valid(limited: bool, events: Seq<ClientEvent>) -> bool
    decreases events.len(),
{
    if events.len() == 0 {
        true
    } else {
        client_valid(limited, events.drop_last()) && client_fits(
            client_run(limited, events.drop_last()).phase,
            events.last(),
        )
    }
}

/// The action that a state asks for: a permit, the next packet, a buffer of
/// one packet for the reply, or an exit.
pub open spec fn action_fits(s: ClientState, a: ConnAction) -> bool {
    match s.phase {
        ConnPhase::Acquiring => a is AcquirePermit,
        ConnPhase::Sending => a matches ConnAction::SendPacket(b) && b@ == s.next,
        ConnPhase::Receiving => a matches ConnAction::ReceivePacket(b) && b@.len() == PACKET_SIZE,
        ConnPhase::Closed => a is Exit,
    }
}

/// One client connection's request loop: (acquire a permit,) send a packet,
/// read the reply, count the round trip, and send the reply back, until a
/// send or a read fails.
pub struct ClientConn {
    limited: bool,
    phase: ConnPhase,
    /// The packet waiting for a permit.
    held: Vec<u8>,
    history: Ghost<Seq<ClientEvent>>,
}

impl ClientConn {
    /// Whether the connection's sends wait for permits.
    pub closed spec fn is_limited(&self) -> bool {
        self.limited
    }

    /// The connection's phase.
    pub closed spec fn phase_of(&self) -> ConnPhase {
        self.phase
    }

    /// Everything that happened to the connection, in order.
    pub closed spec fn history(&self) -> Seq<ClientEvent> {
        self.history@
    }

    /// A connection waiting for a permit holds the packet it will send.
    pub closed spec fn holds_next(&self) -> bool {
        self.phase == ConnPhase::Acquiring ==> self.held@ == client_run(
            self.limited,
            self.history@,
        ).next
    }

    /// The connection's phase agrees with a valid run of its history.
    pub open spec fn wf(&self) -> bool {
        &&& client_valid(self.is_limited(), self.history())
        &&& self.phase_of() == client_run(self.is_limited(), self.history()).phase
        &&& self.holds_next()
    }

    /// The state that the connection's history leads to.
    pub open spec fn state(&self) -> ClientState {
        client_run(self.is_limited(), self.history())
    }

    pub fn limited(&self) -> (r: bool)
        ensures
            r == self.is_limited(),
    {
        self.limited
    }

    pub fn phase(&self) -> (r: ConnPhase)
        ensures
            r == self.phase_of(),
    {
        self.phase
    }

    /// A new connection and its first action.
    pub fn new(limited: bool) -> (r: (ClientConn, ConnAction))
        ensures
            r.0.wf(),
            r.0.is_limited() == limited,
            r.0.history() == Seq::<ClientEvent>::empty(),
            r.0.phase_of() == round_start(limited),
            action_fits(client_init(limited), r.1),
            limited ==> r.0.phase_of() == ConnPhase::Acquiring && r.1 is AcquirePermit,
            !limited ==> r.0.phase_of() == ConnPhase::Sending && (r.1 matches ConnAction::SendPacket(
                b,
            ) && b@.len() == PACKET_SIZE && forall|i: int| 0 <= i < b@.len() ==> b@[i] == 0),
    {
        let packet: Vec<u8> = vec![0u8; PACKET_SIZE];
        assert(packet@ =~= zero_packet());
        if limited {
            (
                ClientConn {
                    limited,
                    phase: ConnPhase::Acquiring,
                    held: packet,
                    history: Ghost(Seq::empty()),
                },
                ConnAction::AcquirePermit,
            )
        } else {
            (
                ClientConn {
                    limited,
                    phase: ConnPhase::Sending,
                    held: Vec::new(),
                    history: Ghost(Seq::empty()),
                },
                ConnAction::SendPacket(packet),
            )
        }
    }

    /// Whether `event` is one that the connection is waiting for.
    pub fn expects(&self, event: &ConnEvent) -> (r: bool)
        ensures
            r == client_fits(self.phase_of(), event@),
            self.phase_of() == ConnPhase::Sending ==> (r <==> (event is Sent || event is SendFailed)),
            self.phase_of() == ConnPhase::Receiving ==> (event is ReceiveFailed ==> r),
            self.phase_of() == ConnPhase::Receiving ==> (event matches ConnEvent::Received {
                packet,
                ..
            } ==> (r <==> packet@.len() == PACKET_SIZE)),
            self.phase_of() == ConnPhase::Receiving ==> (event is Sent || event is SendFailed
                ==> !r),
            self.phase_of() == ConnPhase::Acquiring ==> !r,
            self.phase_of() == ConnPhase::Closed ==> !r,
    {
        match self.phase {
            ConnPhase::Sending => match event {
                ConnEvent::Sent(_) | ConnEvent::SendFailed => true,
                _ => false,
            },
            ConnPhase::Receiving => match event {
                ConnEvent::Received { packet, .. } => packet.len() == PACKET_SIZE,
                ConnEvent::ReceiveFailed => true,
                _ => false,
            },
            _ => false,
        }
    }

    /// The connection was granted a permit: it takes it from the core's
    /// budget and sends its next packet.
    pub fn on_permit(&mut self, budget: &mut Budget) -> (r: ConnAction)
        requires
            old(self).wf(),
            old(self).phase_of() == ConnPhase::Acquiring,
            budget_inv(old(budget)@),
            old(budget)@.limited,
            old(budget)@.available > 0,
        ensures
            final(self).wf(),
            final(self).is_limited() == old(self).is_limited(),
            final(self).history() == old(self).history().push(ClientEvent::PermitAcquired),
            final(self).phase_of() == ConnPhase::Sending,
            action_fits(final(self).state(), r),
            final(self).state().permits == old(self).state().permits + 1,
            budget_inv(final(budget)@),
            final(budget)@ == (BudgetView {
                available: (old(budget)@.available - 1) as nat,
                taken: old(budget)@.taken + 1,
                ..old(budget)@
            }),
    {
        budget.take();
        self.history = Ghost(self.history@.push(ClientEvent::PermitAcquired));
        proof {
            assert(self.history@.drop_last() =~= old(self).history@);
        }
        let mut out: Vec<u8> = Vec::new();
        std::mem::swap(&mut out, &mut self.held);
        self.phase = ConnPhase::Sending;
        ConnAction::SendPacket(out)
    }

    /// Takes in what the last send or receive gave and chooses the next
    /// action. A reply is counted in `tally` and becomes the next packet sent.
    pub fn step(&mut self, event: ConnEvent, tally: &mut Tally) -> (r: ConnAction)
        requires
            old(self).wf(),
            client_fits(old(self).phase_of(), event@),
            event matches ConnEvent::Sent(b) ==> b@.len() == PACKET_SIZE,
            event matches ConnEvent::Received { latency_us, .. } ==> can_record(
                *old(tally),
                latency_us,
            ),
        ensures
            final(self).wf(),
            final(self).is_limited() == old(self).is_limited(),
            final(self).history() == old(self).history().push(event@),
            action_fits(final(self).state(), r),
            final(self).state().permits == old(self).state().permits,
            event is SendFailed ==> r == ConnAction::Exit(ConnExit::WriteFailed),
            event is ReceiveFailed ==> r == ConnAction::Exit(ConnExit::ReadFailed),
            event is SendFailed || event is ReceiveFailed ==> final(self).phase_of()
                == ConnPhase::Closed,
            event matches ConnEvent::Sent(b) ==> final(self).phase_of() == ConnPhase::Receiving
                && (r matches ConnAction::ReceivePacket(buf) && buf@ == b@),
            event matches ConnEvent::Received { latency_us, packet } ==> {
                &&& final(tally).requests == old(tally).requests + 1
                &&& final(tally).latency_us == old(tally).latency_us + latency_us
                &&& old(self).is_limited() ==> r is AcquirePermit && final(self).phase_of()
                    == ConnPhase::Acquiring
                &&& !old(self).is_limited() ==> final(self).phase_of() == ConnPhase::Sending && (
                r matches ConnAction::SendPacket(next) && next@ == packet@)
            },
            match event {
                ConnEvent::Received { latency_us, .. } => *final(tally) == spec_record(
                    *old(tally),
                    latency_us,
                ),
                _ => *final(tally) == *old(tally),
            },
    {
        let ghost ev = event@;
        self.history = Ghost(self.history@.push(ev));
        proof {
            assert(self.history@.drop_last() =~= old(self).history@);
        }
        match event {
            ConnEvent::Sent(buf) => {
                self.phase = ConnPhase::Receiving;
                ConnAction::ReceivePacket(buf)
            },
            ConnEvent::SendFailed => {
                self.phase = ConnPhase::Closed;
                ConnAction::Exit(ConnExit::WriteFailed)
            },
            ConnEvent::Received { latency_us, packet } => {
                tally.record(latency_us);
                if self.limited {
                    self.held = packet;
                    self.phase = ConnPhase::Acquiring;
                    ConnAction::AcquirePermit
                } else {
                    self.phase = ConnPhase::Sending;
                    ConnAction::SendPacket(packet)
                }
            },
            ConnEvent::ReceiveFailed => {
                self.phase = ConnPhase::Closed;
                ConnAction::Exit(ConnExit::ReadFailed)
            },
        }
    }
}

impl ConnExit {
    /// The line the client prints when a connection stops.
    pub fn message(&self) -> (r: &'static str)
        ensures
            r@ == match *self {
                ConnExit::WriteFailed => "Write failed, connection exit"@,
                ConnExit::ReadFailed => "Read failed, connection exit"@,
            },
    {
        match self {
            ConnExit::WriteFailed => "Write failed, connection exit",
            ConnExit::ReadFailed => "Read failed, connection exit",
        }
    }
}

/// The once-a-second report: how many round trips the last report saw.
#[derive(Clone, Copy, Debug, PartialEq, Eq, Structural)]
pub struct Progress {
    pub last_total: usize,
}

/// The sum of the increments that `observe` reports for `totals`, starting
/// from a report that saw `last`.
pub open spec fn reported_sum(last: nat, totals: Seq<usize>) -> nat
    decreases totals.len(),
{
    if totals.len() == 0 {
        0
    } else {
        let prev = if totals.len() == 1 {
            last
        } else {
            totals[totals.len() - 2] as nat
        };
        reported_sum(last, totals.drop_last()) + (totals.last() - prev) as nat
    }
}

/// The totals never go down.
pub open spec fn totals_rise(last: nat, totals: Seq<usize>) -> bool {
    &&& forall|i: int| 0 <= i < totals.len() ==> last <= #[trigger] totals[i]
    &&& forall|i: int, j: int| 0 <= i <= j < totals.len() ==> totals[i] <= totals[j]
}

impl Progress {
    pub fn new() -> (r: Progress)
        ensures
            r.last_total == 0,
    {
        Progress { last_total: 0 }
    }

    /// Takes in the running total and gives the round trips added since the
    /// last report. The total never goes down.
    pub fn observe(&mut self, total: usize) -> (added: usize)
        requires
            total >= old(self).last_total,
        ensures
            added == total - old(self).last_total,
            final(self).last_total == total,
    {
        let added = total - self.last_total;
        self.last_total = total;
        added
    }
}

/// Over a run of `observe` calls with totals that never go down, the
/// increments reported add up to the last total less the first report's
/// starting point: nothing is reported twice or left out.
pub proof fn lemma_reports_add_up(last: nat, totals: Seq<usize>)
    requires
        totals.len() > 0,
        totals_rise(last, totals),
    ensures
        reported_sum(last, totals) == totals.last() - last,
    decreases totals.len(),
{
    if totals.len() > 1 {
        let prev = totals.drop_last();
        assert(totals_rise(last, prev));
        lemma_reports_add_up(last, prev);
        assert(prev.last() == totals[totals.len() - 2]);
        assert(totals[totals.len() - 2] <= totals.last());
        assert(reported_sum(last, totals) == reported_sum(last, prev) + (totals.last()
            - totals[totals.len() - 2]) as nat);
    } else {
        assert(totals.drop_last().len() == 0);
        assert(last <= totals[0]);
        assert(reported_sum(last, totals) == reported_sum(last, totals.drop_last()) + (
        totals.last() - last) as nat);
    }
}

/// Over any run of a client connection:
/// - the first packet sent is all zeros and every later one is the reply last
///   received: the bytes sent are a prefix of a zero packet followed by the
///   bytes received;
/// - at most one request is outstanding: what was sent is what was received,
///   or that plus one packet;
/// - when limited, every send was started by exactly one permit, and when
///   not, no permit is taken.
pub proof fn lemma_client_run(limited: bool, events: Seq<ClientEvent>)
    requires
        client_valid(limited, events),
    ensures
        ({
            let s = client_run(limited, events);
            &&& s.next.len() == PACKET_SIZE
            &&& s.sent.is_prefix_of(zero_packet() + s.received)
            &&& s.received.len() <= s.sent.len() <= s.received.len() + PACKET_SIZE
            &&& s.phase == ConnPhase::Receiving ==> zero_packet() + s.received == s.sent
            &&& (s.phase == ConnPhase::Acquiring || s.phase == ConnPhase::Sending)
                ==> zero_packet() + s.received == s.sent + s.next
            &&& limited ==> s.permits == s.sends
            &&& !limited ==> s.permits == 0
        }),
    decreases events.len(),
{
    let s = client_run(limited, events);
    let z = zero_packet();
    if events.len() == 0 {
        assert(z + s.received =~= s.sent + s.next);
    } else {
        let prev = events.drop_last();
        lemma_client_run(limited, prev);
        let p = client_run(limited, prev);
        match events.last() {
            ClientEvent::Sent => {
                assert(z + s.received =~= s.sent);
            },
            ClientEvent::Received { latency_us, packet } => {
                assert(z + s.received =~= (z + p.received) + packet);
                assert(z + s.received =~= s.sent + s.next);
            },
            _ => {},
        }
        let zr = z + s.received;
        if zr == s.sent + s.next {
            assert(s.sent.is_prefix_of(zr)) by {
                assert forall|i: int| 0 <= i < s.sent.len() implies s.sent[i] == zr[i] by {
                    assert(zr[i] == (s.sent + s.next)[i]);
                }
            }
        } else {
            assert(zr == s.sent);
            assert(s.sent.is_prefix_of(zr));
        }
    }
}

/// What happened to one core's tally: a round trip counted, or a grain
/// flush.
pub ghost enum TallyEvent {
    Record(u64),
    Flush,
}

/// A core's tally after a run of events, with the totals handed on by
/// flushes and the totals of all round trips counted.
pub ghost struct TallyTrace {
    pub tally: Tally,
    pub flushed_requests: nat,
    pub flushed_latency: nat,
    pub all_requests: nat,
    pub all_latency: nat,
}

pub open spec fn tally_run(events: Seq<TallyEvent>) -> TallyTrace
    decreases events.len(),
{
    if events.len() == 0 {
        TallyTrace {
            tally: empty_tally(),
            flushed_requests: 0,
            flushed_latency: 0,
            all_requests: 0,
            all_latency: 0,
        }
    } else {
        let t = tally_run(events.drop_last());
        match events.last() {
            TallyEvent::Record(l) => TallyTrace {
                tally: spec_record(t.tally, l),
                all_requests: t.all_requests + 1,
                all_latency: t.all_latency + (l as nat),
                ..t
            },
            TallyEvent::Flush => TallyTrace {
                tally: empty_tally(),
                flushed_requests: t.flushed_requests + (t.tally.requests as nat),
                flushed_latency: t.flushed_latency + (t.tally.latency_us as nat),
                ..t
            },
        }
    }
}

/// Every `record` had room, as `Tally::record` requires.
pub open spec fn tally_valid(events: Seq<TallyEvent>) -> bool
    decreases events.len(),
{
    if events.len() == 0 {
        true
    } else {
        tally_valid(events.drop_last()) && match events.last() {
            TallyEvent::Record(l) => can_record(tally_run(events.drop_last()).tally, l),
            TallyEvent::Flush => true,
        }
    }
}

/// Across records (`Tally::record`) and flushes (`flush_grain`), what was
/// flushed plus what the tally holds is every round trip counted and the sum
/// of their latencies: no round trip is lost or counted twice.
pub proof fn lemma_tally_run(events: Seq<TallyEvent>)
    requires
        tally_valid(events),
    ensures
        ({
            let t = tally_run(events);
            &&& t.flushed_requests + t.tally.requests == t.all_requests
            &&& t.flushed_latency + t.tally.latency_us == t.all_latency
        }),
    decreases events.len(),
{
    if events.len() > 0 {
        lemma_tally_run(events.drop_last());
    }
}

/// Permits taken over a core's connections, from their histories.
pub open spec fn total_permits(histories: Seq<Seq<ClientEvent>>) -> nat
    decreases histories.len(),
{
    if histories.len() == 0 {
        0
    } else {
        total_permits(histories.drop_last()) + client_run(true, histories.last()).permits
    }
}

/// Sends started over a core's connections, from their histories.
pub open spec fn total_sends(histories: Seq<Seq<ClientEvent>>) -> nat
    decreases histories.len(),
{
    if histories.len() == 0 {
        0
    } else {
        total_sends(histories.drop_last()) + client_run(true, histories.last()).sends
    }
}

/// The request limit holds over a core's limited connections: each send
/// takes one permit (`lemma_client_run`), each permit comes from the core's
/// budget (`ClientConn::on_permit` takes one from the budget exactly when it
/// adds one to the connection), and the budget never hands out more than one
/// grain's worth for the start and for every grain since. So the sends
/// started after `g` grains are at most `per_grain * (g + 1)`.
pub proof fn lemma_core_sends_within_budget(b: BudgetView, histories: Seq<Seq<ClientEvent>>)
    requires
        budget_inv(b),
        b.limited,
        forall|i: int| 0 <= i < histories.len() ==> client_valid(true, #[trigger] histories[i]),
        total_permits(histories) == b.taken,
    ensures
        total_sends(histories) == total_permits(histories),
        total_sends(histories) <= b.per_grain * (b.grains + 1),
{
    lemma_sends_are_permits(histories);
}

proof fn lemma_sends_are_permits(histories: Seq<Seq<ClientEvent>>)
    requires
        forall|i: int| 0 <= i < histories.len() ==> client_valid(true, #[trigger] histories[i]),
    ensures
        total_sends(histories) == total_permits(histories),
    decreases histories.len(),
{
    if histories.len() > 0 {
        let prev = histories.drop_last();
        assert forall|i: int| 0 <= i < prev.len() implies client_valid(true, #[trigger] prev[i]) by {
            assert(prev[i] == histories[i]);
        }
        lemma_sends_are_permits(prev);
        assert(client_valid(true, histories[histories.len() - 1]));
        lemma_client_run(true, histories.last());
    }
}

/// The events a client connection takes in each phase: a permit when
/// waiting for one, the outcome of a send when sending, the outcome of a
/// read (a whole packet, or a failure) when receiving, and nothing once
/// closed.
pub proof fn lemma_conn_accepts(latency_us: u64, packet: Seq<u8>)
    ensures
        client_fits(ConnPhase::Acquiring, ClientEvent::PermitAcquired),
        client_fits(ConnPhase::Sending, ClientEvent::Sent),
        client_fits(ConnPhase::Sending, ClientEvent::SendFailed),
        client_fits(ConnPhase::Receiving, ClientEvent::ReceiveFailed),
        client_fits(ConnPhase::Receiving, ClientEvent::Received { latency_us, packet })
            <==> packet.len() == PACKET_SIZE,
        !client_fits(ConnPhase::Receiving, ClientEvent::Sent),
        !client_fits(ConnPhase::Sending, ClientEvent::ReceiveFailed),
        !client_fits(ConnPhase::Acquiring, ClientEvent::Sent),
        !client_fits(ConnPhase::Closed, ClientEvent::PermitAcquired),
        !client_fits(ConnPhase::Closed, ClientEvent::ReceiveFailed),
        !client_fits(ConnPhase::Closed, ClientEvent::SendFailed),
{
}

} // verus!
