//! The bounded executor: the decisions of a scan, as a state machine.
//!
//! The machine never touches the network. The program that drives it reports
//! what happened as an [`Event`] and is told what to do next as a
//! [`Directive`]. Each probe that starts gets a ticket, the number of probes
//! started before it, and finishes under that ticket. The machine admits an
//! event only where the cap on probes in flight stays intact and no probe
//! finishes twice, so a driver that starts a probe only after `TargetStarted`
//! was admitted never has more probes in flight than the limit.

use vstd::prelude::*;
use crate::config::ScanConfig;

verus! {

/// Where a scan stands.
#[derive(Clone, Copy, Debug, PartialEq, Eq, Structural)]
pub enum Phase {
    /// Nothing has been started.
    Idle,
    /// Targets are being taken from the enumerator and probed.
    Dispatching,
    /// The enumerator is exhausted; probes in flight are awaited and no new
    /// one is started.
    Draining,
    /// Every started probe has finished. Terminal.
    Done,
}

/// What the driver reports to the machine.
#[derive(Clone, Copy, Debug, PartialEq, Eq, Structural)]
pub enum Event {
    /// The scan begins.
    Start,
    /// The next target was taken from the enumerator and its probe started.
    /// The ticket of that probe is the number of probes started before it.
    TargetStarted,
    /// The enumerator has no further target.
    SourceExhausted,
    /// The probe with this ticket produced its outcome, whatever that outcome
    /// is.
    ProbeFinished(u64),
}

/// What the driver is to do next.
#[derive(Clone, Copy, Debug, PartialEq, Eq, Structural)]
pub enum Directive {
    /// Report `Start`.
    Begin,
    /// Ask the enumerator for the next target; start its probe and report
    /// `TargetStarted`, or report `SourceExhausted`.
    Dispatch,
    /// Wait until a probe in flight finishes and report `ProbeFinished` with
    /// its ticket.
    Await,
    /// Stop: the scan is complete.
    Halt,
}

/// An event that the machine did not admit, with the phase it met.
#[derive(Clone, Copy, Debug, PartialEq, Eq, Structural)]
pub struct Rejected {
    pub phase: Phase,
    pub event: Event,
}

/// The most probes that one scan can count.
pub const MAX_STARTED: u64 = u64::MAX;

/// The state of a scan as a mathematical value.
pub struct ExecutorState {
    /// The cap on probes in flight.
    pub limit: nat,
    /// How many probes were started so far. The next ticket.
    pub started: nat,
    /// The tickets of the probes that were started and have not finished.
    pub in_flight: Set<u64>,
    pub phase: Phase,
}

impl ExecutorState {
    /// The state of a scan that has not begun.
    pub open spec fn initial(limit: nat) -> ExecutorState {
        ExecutorState { limit, started: 0, in_flight: Set::empty(), phase: Phase::Idle }
    }

    /// How many probes have finished.
    pub open spec fn finished(self) -> int {
        self.started - self.in_flight.len()
    }

    /// What holds of every state that a scan can reach.
    pub open spec fn wf(self) -> bool {
        &&& self.limit >= 1
        &&& self.started <= MAX_STARTED
        &&& self.in_flight.finite()
        &&& self.in_flight.len() <= self.limit
        &&& forall|ticket: u64| self.in_flight.contains(ticket) ==> ticket < self.started
        &&& match self.phase {
            Phase::Idle => self.started == 0,
            Phase::Dispatching => true,
            Phase::Draining => self.in_flight.len() > 0,
            Phase::Done => self.in_flight.len() == 0,
        }
    }

    /// Whether the machine admits `event` in this state.
    ///
    /// A probe may start only while dispatching and while fewer probes than the
    /// limit are in flight; a probe can finish only while it is in flight.
    pub open spec fn accepts(self, event: Event) -> bool {
        match (self.phase, event) {
            (Phase::Idle, Event::Start) => true,
            (Phase::Dispatching, Event::TargetStarted) => self.in_flight.len() < self.limit
                && self.started < MAX_STARTED,
            (Phase::Dispatching, Event::SourceExhausted) => true,
            (Phase::Dispatching, Event::ProbeFinished(ticket)) => self.in_flight.contains(ticket),
            (Phase::Draining, Event::ProbeFinished(ticket)) => self.in_flight.contains(ticket),
            _ => false,
        }
    }

    /// The state after `event`. An event that is not admitted changes nothing.
    pub open spec fn after(self, event: Event) -> ExecutorState {
        if !self.accepts(event) {
            self
        } else {
            match event {
                Event::Start => ExecutorState { phase: Phase::Dispatching, ..self },
                Event::TargetStarted => ExecutorState {
                    started: self.started + 1,
                    in_flight: self.in_flight.insert(self.started as u64),
                    ..self
                },
                Event::SourceExhausted => ExecutorState {
                    phase: if self.in_flight.len() == 0 {
                        Phase::Done
                    } else {
                        Phase::Draining
                    },
                    ..self
                },
                Event::ProbeFinished(ticket) => ExecutorState {
                    in_flight: self.in_flight.remove(ticket),
                    phase: if self.phase == Phase::Draining && self.in_flight.len() == 1 {
                        Phase::Done
                    } else {
                        self.phase
                    },
                    ..self
                },
            }
        }
    }

    /// What the driver is to do in this state.
    pub open spec fn directive(self) -> Directive {
        match self.phase {
            Phase::Idle => Directive::Begin,
            Phase::Dispatching => if self.in_flight.len() < self.limit {
                Directive::Dispatch
            } else {
                Directive::Await
            },
            Phase::Draining => Directive::Await,
            Phase::Done => Directive::Halt,
        }
    }

    /// The state after a whole sequence of events, taken in order.
    pub open spec fn run(self, events: Seq<Event>) -> ExecutorState
        decreases events.len(),
    {
        if events.len() == 0 {
            self
        } else {
            self.run(events.drop_last()).after(events.last())
        }
    }

    /// How many probes the machine lets start when it takes `events` in order,
    /// starting in this state.
    pub open spec fn starts(self, events: Seq<Event>) -> nat
        decreases events.len(),
    {
        if events.len() == 0 {
            0
        } else {
            let earlier = self.starts(events.drop_last());
            if events.last() == Event::TargetStarted && self.run(events.drop_last()).accepts(
                events.last(),
            ) {
                earlier + 1
            } else {
                earlier
            }
        }
    }

    /// The tickets of the probes that the machine lets finish when it takes
    /// `events` in order, starting in this state: one entry for each outcome
    /// that the scan produces, in the order of completion.
    pub open spec fn outcomes(self, events: Seq<Event>) -> Seq<u64>
        decreases events.len(),
    {
        if events.len() == 0 {
            Seq::empty()
        } else {
            let earlier = self.outcomes(events.drop_last());
            match events.last() {
                Event::ProbeFinished(ticket) => if self.run(events.drop_last()).accepts(
                    events.last(),
                ) {
                    earlier.push(ticket)
                } else {
                    earlier
                },
                _ => earlier,
            }
        }
    }
}

/// Taking one element out of a sequence without duplicates takes it out of the
/// set of its elements and leaves no duplicates.
proof fn lemma_remove_from_distinct(s: Seq<u64>, at: int)
    requires
        s.no_duplicates(),
        0 <= at < s.len(),
    ensures
        s.remove(at).no_duplicates(),
        s.remove(at).to_set() == s.to_set().remove(s[at]),
{
    let rest = s.remove(at);
    assert forall|value: u64| rest.to_set().contains(value) <==> s.to_set().remove(
        s[at],
    ).contains(value) by {
        if rest.contains(value) {
            let i = choose|i: int| 0 <= i < rest.len() && rest[i] == value;
            let j = if i < at {
                i
            } else {
                i + 1
            };
            assert(s[j] == value);
        }
        if s.contains(value) && value != s[at] {
            let j = choose|j: int| 0 <= j < s.len() && s[j] == value;
            let i = if j < at {
                j
            } else {
                j - 1
            };
            assert(rest[i] == value);
        }
    }
    assert(rest.to_set() =~= s.to_set().remove(s[at]));
}

/// Adding a new element to a sequence without duplicates adds it to the set of
/// its elements and leaves no duplicates.
proof fn lemma_push_to_distinct(s: Seq<u64>, value: u64)
    requires
        s.no_duplicates(),
        !s.contains(value),
    ensures
        s.push(value).no_duplicates(),
        s.push(value).to_set() == s.to_set().insert(value),
{
    let more = s.push(value);
    assert forall|i: int, j: int|
        0 <= i < more.len() && 0 <= j < more.len() && i != j implies more[i] != more[j] by {
        if i < s.len() {
            assert(s.contains(more[i]));
        }
        if j < s.len() {
            assert(s.contains(more[j]));
        }
    }
    assert forall|other: u64| more.to_set().contains(other) <==> s.to_set().insert(
        value,
    ).contains(other) by {
        if more.contains(other) {
            let i = choose|i: int| 0 <= i < more.len() && more[i] == other;
            if i < s.len() {
                assert(s[i] == other);
            }
        }
        if s.contains(other) {
            let i = choose|i: int| 0 <= i < s.len() && s[i] == other;
            assert(more[i] == other);
        }
        assert(more[s.len() as int] == value);
    }
    assert(more.to_set() =~= s.to_set().insert(value));
}

/// The decisions of one scan. The number of probes in flight never exceeds the
/// limit it was made with.
#[derive(Debug)]
pub struct Executor {
    limit: usize,
    started: u64,
    in_flight: Vec<u64>,
    begun: bool,
    exhausted: bool,
}

impl View for Executor {
    type V = ExecutorState;

    closed spec fn view(&self) -> ExecutorState {
        ExecutorState {
            limit: self.limit as nat,
            started: self.started as nat,
            in_flight: self.in_flight@.to_set(),
            phase: if !self.begun {
                Phase::Idle
            } else if !self.exhausted {
                Phase::Dispatching
            } else if self.in_flight@.len() > 0 {
                Phase::Draining
            } else {
                Phase::Done
            },
        }
    }
}

impl Executor {
    #[verifier::type_invariant]
    spec fn inv(self) -> bool {
        &&& self.limit >= 1
        &&& self.in_flight@.no_duplicates()
        &&& self.in_flight@.len() <= self.limit
        &&& forall|i: int| 0 <= i < self.in_flight@.len() ==> self.in_flight@[i] < self.started
        &&& !self.begun ==> self.started == 0 && !self.exhausted
    }

    /// The type invariant, said of the view: the state is one that a scan can
    /// reach, and as many tickets are in flight as the list holds.
    proof fn lemma_inv(self)
        requires
            self.inv(),
        ensures
            self@.wf(),
            self@.in_flight.len() == self.in_flight@.len(),
            forall|ticket: u64| self@.in_flight.contains(ticket) <==> self.in_flight@.contains(ticket),
    {
        self.in_flight@.unique_seq_to_set();
        vstd::seq_lib::seq_to_set_is_finite(self.in_flight@);
        assert forall|ticket: u64| self@.in_flight.contains(ticket) implies ticket
            < self.started by {
            let i = choose|i: int| 0 <= i < self.in_flight@.len() && self.in_flight@[i] == ticket;
            assert(self.in_flight@[i] < self.started);
        }
    }

    /// A machine for a scan that has not begun, with the limit of `config`.
    pub fn new(config: &ScanConfig) -> (made: Executor)
        ensures
            made@ == ExecutorState::initial(config.limit()),
            made@.wf(),
    {
        let limit: usize = config.concurrency_limit();
        let made = Executor {
            limit,
            started: 0,
            in_flight: Vec::new(),
            begun: false,
            exhausted: false,
        };
        proof {
            made.lemma_inv();
            assert(made@.in_flight =~= Set::<u64>::empty());
        }
        made
    }

    /// The place of `ticket` among the tickets in flight, if it is there.
    fn position(&self, ticket: u64) -> (at: Option<usize>)
        ensures
            match at {
                Some(index) => index < self.in_flight@.len() && self.in_flight@[index as int]
                    == ticket,
                None => !self.in_flight@.contains(ticket),
            },
    {
        let mut index: usize = 0;
        while index < self.in_flight.len()
            invariant
                index <= self.in_flight@.len(),
                forall|i: int| 0 <= i < index ==> self.in_flight@[i] != ticket,
            decreases self.in_flight@.len() - index,
        {
            if self.in_flight[index] == ticket {
                return Some(index);
            }
            index = index + 1;
        }
        None
    }

    /// Takes one event. An admitted event moves the machine on and yields what
    /// to do next; any other is rejected and leaves the machine as it was.
    ///
    /// The probe that an admitted `TargetStarted` starts has as its ticket the
    /// number of probes started before it.
    pub fn handle(&mut self, event: Event) -> (next: Result<Directive, Rejected>)
        ensures
            final(self)@ == old(self)@.after(event),
            final(self)@.wf(),
            old(self)@.accepts(event) ==> next == Ok::<Directive, Rejected>(
                final(self)@.directive(),
            ),
            !old(self)@.accepts(event) ==> next == Err::<Directive, Rejected>(
                Rejected { phase: old(self)@.phase, event },
            ),
    {
        proof {
            use_type_invariant(&*self);
            self.lemma_inv();
        }
        let phase: Phase = self.phase();
        let ghost before = *self;
        match (phase, event) {
            (Phase::Idle, Event::Start) => {
                self.begun = true;
            },
            (Phase::Dispatching, Event::TargetStarted) => {
                if self.in_flight.len() < self.limit && self.started < MAX_STARTED {
                    let ticket: u64 = self.started;
                    proof {
                        if before.in_flight@.contains(ticket) {
                            let i = choose|i: int|
                                0 <= i < before.in_flight@.len() && before.in_flight@[i] == ticket;
                            assert(before.in_flight@[i] < before.started);
                        }
                        lemma_push_to_distinct(before.in_flight@, ticket);
                    }
                    let mut tickets: Vec<u64> = Vec::new();
                    core::mem::swap(&mut self.in_flight, &mut tickets);
                    tickets.push(ticket);
                    self.started = ticket + 1;
                    self.in_flight = tickets;
                } else {
                    return Err(Rejected { phase, event });
                }
            },
            (Phase::Dispatching, Event::SourceExhausted) => {
                self.exhausted = true;
            },
            (Phase::Dispatching, Event::ProbeFinished(ticket)) | (
                Phase::Draining,
                Event::ProbeFinished(ticket),
            ) => {
                match self.position(ticket) {
                    Some(at) => {
                        proof {
                            lemma_remove_from_distinct(before.in_flight@, at as int);
                        }
                        let mut tickets: Vec<u64> = Vec::new();
                        core::mem::swap(&mut self.in_flight, &mut tickets);
                        tickets.remove(at);
                        self.in_flight = tickets;
                    },
                    None => {
                        return Err(Rejected { phase, event });
                    },
                }
            },
            _ => {
                return Err(Rejected { phase, event });
            },
        }
        proof {
            use_type_invariant(&*self);
            self.lemma_inv();
        }
        Ok(self.directive())
    }

    /// What the driver is to do next.
    pub fn directive(&self) -> (next: Directive)
        ensures
            next == self@.directive(),
    {
        proof {
            use_type_invariant(self);
            self.lemma_inv();
        }
        match self.phase() {
            Phase::Idle => Directive::Begin,
            Phase::Dispatching => {
                if self.in_flight.len() < self.limit {
                    Directive::Dispatch
                } else {
                    Directive::Await
                }
            },
            Phase::Draining => Directive::Await,
            Phase::Done => Directive::Halt,
        }
    }

    /// Where the scan stands.
    pub fn phase(&self) -> (phase: Phase)
        ensures
            phase == self@.phase,
    {
        if !self.begun {
            Phase::Idle
        } else if !self.exhausted {
            Phase::Dispatching
        } else if self.in_flight.len() > 0 {
            Phase::Draining
        } else {
            Phase::Done
        }
    }

    /// The cap on probes in flight.
    pub fn limit(&self) -> (limit: usize)
        ensures
            limit == self@.limit,
            limit >= 1,
    {
        proof {
            use_type_invariant(self);
        }
        self.limit
    }

    /// The number of probes in flight: never more than the limit.
    pub fn in_flight(&self) -> (count: usize)
        ensures
            count == self@.in_flight.len(),
            count <= self@.limit,
    {
        proof {
            use_type_invariant(self);
            self.lemma_inv();
        }
        self.in_flight.len()
    }

    /// Whether the probe with this ticket is in flight.
    pub fn is_in_flight(&self, ticket: u64) -> (flying: bool)
        ensures
            flying == self@.in_flight.contains(ticket),
    {
        proof {
            use_type_invariant(self);
            self.lemma_inv();
        }
        self.position(ticket).is_some()
    }

    /// How many probes were started so far: the ticket of the next one.
    pub fn started(&self) -> (count: u64)
        ensures
            count == self@.started,
    {
        self.started
    }

    /// How many probes have produced their outcome so far.
    pub fn finished(&self) -> (count: u64)
        ensures
            count == self@.finished(),
            count <= self@.started,
    {
        proof {
            use_type_invariant(self);
            self.lemma_inv();
            self.lemma_tickets_bounded();
        }
        self.started - self.in_flight.len() as u64
    }

    /// There are no more tickets in flight than were handed out.
    proof fn lemma_tickets_bounded(self)
        requires
            self.inv(),
        ensures
            self.in_flight@.len() <= self.started,
    {
        self.lemma_inv();
        lemma_tickets_below(self@.in_flight, self.started as nat);
    }

    /// Whether the scan is complete: every started probe has finished and no
    /// further one will start.
    pub fn is_done(&self) -> (done: bool)
        ensures
            done == (self@.phase == Phase::Done),
            done ==> self@.finished() == self@.started,
    {
        proof {
            use_type_invariant(self);
            self.lemma_inv();
        }
        self.begun && self.exhausted && self.in_flight.len() == 0
    }
}

/// A finite set of tickets that all lie below `bound` has at most `bound`
/// members.
pub proof fn lemma_tickets_below(tickets: Set<u64>, bound: nat)
    requires
        tickets.finite(),
        forall|ticket: u64| tickets.contains(ticket) ==> ticket < bound,
    ensures
        tickets.len() <= bound,
    decreases bound,
{
    if bound == 0 {
        if tickets.len() > 0 {
            assert(tickets.contains(tickets.choose()));
        }
    } else {
        let top = (bound - 1) as u64;
        let rest = tickets.remove(top);
        assert forall|ticket: u64| rest.contains(ticket) implies ticket < bound - 1 by {
            assert(tickets.contains(ticket));
        }
        lemma_tickets_below(rest, (bound - 1) as nat);
    }
}

/// No event leads out of the states that a scan can reach.
pub proof fn lemma_after_preserves_wf(state: ExecutorState, event: Event)
    requires
        state.wf(),
    ensures
        state.after(event).wf(),
        state.after(event).limit == state.limit,
{
}

/// Whatever events arrive in whatever order, the machine stays in the states
/// that a scan can reach.
pub proof fn lemma_run_preserves_wf(state: ExecutorState, events: Seq<Event>)
    requires
        state.wf(),
    ensures
        state.run(events).wf(),
        state.run(events).limit == state.limit,
    decreases events.len(),
{
    if events.len() > 0 {
        lemma_run_preserves_wf(state, events.drop_last());
        lemma_after_preserves_wf(state.run(events.drop_last()), events.last());
    }
}

/// Concurrency bound: in a scan with limit `limit`, at no point, after no
/// sequence of events whatever, are more than `limit` probes in flight.
pub proof fn lemma_concurrency_bound(limit: nat, events: Seq<Event>)
    requires
        limit >= 1,
    ensures
        forall|k: int|
            0 <= k <= events.len() ==> (#[trigger] ExecutorState::initial(limit).run(
                events.take(k),
            )).in_flight.len() <= limit,
{
    assert forall|k: int| 0 <= k <= events.len() implies (#[trigger] ExecutorState::initial(
        limit,
    ).run(events.take(k))).in_flight.len() <= limit by {
        lemma_run_preserves_wf(ExecutorState::initial(limit), events.take(k));
    }
}

/// What links the outcomes of a run to its state: every ticket handed out is
/// either in flight or has produced its outcome, never both and never twice.
pub open spec fn accounted(state: ExecutorState, starts: nat, outcomes: Seq<u64>) -> bool {
    &&& state.started == starts
    &&& outcomes.no_duplicates()
    &&& outcomes.len() + state.in_flight.len() == state.started
    &&& forall|ticket: u64|
        ticket < state.started <==> (outcomes.contains(ticket) || state.in_flight.contains(ticket))
    &&& forall|ticket: u64| !(outcomes.contains(ticket) && state.in_flight.contains(ticket))
}

/// The outcomes after one more event: one more, under the ticket of the event,
/// if the event is an admitted `ProbeFinished`.
pub open spec fn outcomes_after(state: ExecutorState, outcomes: Seq<u64>, event: Event) -> Seq<
    u64,
> {
    match event {
        Event::ProbeFinished(ticket) => if state.accepts(event) {
            outcomes.push(ticket)
        } else {
            outcomes
        },
        _ => outcomes,
    }
}

/// Every ticket stays accounted for over every event.
pub proof fn lemma_after_accounts(state: ExecutorState, outcomes: Seq<u64>, event: Event)
    requires
        state.wf(),
        accounted(state, state.started, outcomes),
    ensures
        accounted(
            state.after(event),
            state.after(event).started,
            outcomes_after(state, outcomes, event),
        ),
{
    if state.accepts(event) {
        match event {
            Event::TargetStarted => {
                let ticket = state.started as u64;
                assert(!state.in_flight.contains(ticket));
                let after = state.after(event);
                assert forall|other: u64|
                    other < after.started <==> (outcomes.contains(other)
                        || after.in_flight.contains(other)) by {}
            },
            Event::ProbeFinished(ticket) => {
                let more = outcomes.push(ticket);
                assert forall|i: int, j: int|
                    0 <= i < more.len() && 0 <= j < more.len() && i != j implies more[i]
                    != more[j] by {
                    if i < outcomes.len() {
                        assert(outcomes.contains(more[i]));
                    }
                    if j < outcomes.len() {
                        assert(outcomes.contains(more[j]));
                    }
                }
                assert forall|other: u64| more.contains(other) <==> (outcomes.contains(other)
                    || other == ticket) by {
                    if more.contains(other) {
                        let i = choose|i: int| 0 <= i < more.len() && more[i] == other;
                        if i < outcomes.len() {
                            assert(outcomes[i] == other);
                        }
                    }
                    if outcomes.contains(other) {
                        let i = choose|i: int| 0 <= i < outcomes.len() && outcomes[i] == other;
                        assert(more[i] == other);
                    }
                    assert(more[outcomes.len() as int] == ticket);
                }
            },
            _ => {},
        }
    }
}

/// In every run of a scan from its beginning, every ticket handed out is
/// accounted for.
pub proof fn lemma_run_accounts(limit: nat, events: Seq<Event>)
    requires
        limit >= 1,
    ensures
        accounted(
            ExecutorState::initial(limit).run(events),
            ExecutorState::initial(limit).starts(events),
            ExecutorState::initial(limit).outcomes(events),
        ),
    decreases events.len(),
{
    let begin = ExecutorState::initial(limit);
    if events.len() > 0 {
        let earlier = events.drop_last();
        lemma_run_accounts(limit, earlier);
        lemma_run_preserves_wf(begin, earlier);
        lemma_after_accounts(begin.run(earlier), begin.outcomes(earlier), events.last());
    } else {
        assert(begin.outcomes(events) =~= Seq::<u64>::empty());
    }
}

/// Completeness: a scan that has come to its end has produced exactly one
/// outcome for each target that it started, however many of them failed. At
/// every point before, no probe has produced two outcomes and none has produced
/// one without having been started.
pub proof fn lemma_completeness(limit: nat, events: Seq<Event>)
    requires
        limit >= 1,
    ensures
        ({
            let begin = ExecutorState::initial(limit);
            let end = begin.run(events);
            let starts = begin.starts(events);
            let outcomes = begin.outcomes(events);
            &&& outcomes.no_duplicates()
            &&& outcomes.len() <= starts
            &&& forall|ticket: u64| outcomes.contains(ticket) ==> ticket < starts
            &&& end.phase == Phase::Done ==> outcomes.len() == starts && forall|ticket: u64|
                ticket < starts ==> outcomes.contains(ticket)
        }),
{
    let begin = ExecutorState::initial(limit);
    lemma_run_preserves_wf(begin, events);
    lemma_run_accounts(limit, events);
}

/// A driver that does what the directive says is never rejected, short of
/// starting more probes than the machine can count, and is told to halt
/// exactly when the scan is done.
pub proof fn lemma_directive_is_admitted(state: ExecutorState)
    requires
        state.wf(),
    ensures
        state.directive() == Directive::Begin ==> state.accepts(Event::Start),
        state.directive() == Directive::Dispatch ==> state.accepts(Event::SourceExhausted) && (
        state.started < MAX_STARTED ==> state.accepts(Event::TargetStarted)),
        state.directive() == Directive::Await ==> exists|ticket: u64|
            state.in_flight.contains(ticket) && #[trigger] state.accepts(
                Event::ProbeFinished(ticket),
            ),
        state.directive() == Directive::Halt <==> state.phase == Phase::Done,
{
    if state.directive() == Directive::Await {
        let ticket = state.in_flight.choose();
        assert(state.in_flight.contains(ticket));
        assert(state.accepts(Event::ProbeFinished(ticket)));
    }
}

/// Once done, a scan stays done: no event is admitted any more.
pub proof fn lemma_done_is_terminal(state: ExecutorState, event: Event)
    requires
        state.wf(),
        state.phase == Phase::Done,
    ensures
        !state.accepts(event),
        state.after(event) == state,
{
}

/// While draining, no new probe is started.
pub proof fn lemma_draining_starts_nothing(state: ExecutorState, event: Event)
    requires
        state.phase == Phase::Draining,
    ensures
        state.after(event).started == state.started,
{
}

} // verus!
