//! A port scan from plan to report: enumerator, executor, classifier and
//! aggregator put together.
//!
//! The driver only makes connections. It asks for the next target when the
//! directive is `Dispatch`, hands back the result of each connection attempt
//! under its ticket, and takes the report when the scan is done.

use vstd::prelude::*;
use vstd::seq_lib::{group_to_multiset_ensures, to_multiset_build, to_multiset_remove};
use crate::config::ScanConfig;
use crate::executor::{
    accounted, lemma_after_accounts, Directive, Event, Executor, ExecutorState, Phase, Rejected,
};
use crate::outcome::{tcp_outcome, tcp_result, OutcomeView, ProbeOutcome, ProbeTarget, TargetView};
use crate::report::{open_port, open_ports, tcp_report, OpenPorts, TcpReport, TcpReportView};
use crate::scan::{
    answers_as, ascending_listing, is_complete_scan, lemma_report_is_sorted_open_set,
    outcome_targets,
};
use crate::target::TcpPlan;

verus! {

/// The elements of `targets` at the places `tickets`, in the order of the
/// tickets.
pub open spec fn targets_at(targets: Seq<TargetView>, tickets: Seq<u64>) -> Seq<TargetView> {
    tickets.map_values(|ticket: u64| targets[ticket as int])
}

/// Taking each target once, in whatever order, takes each as often as the
/// enumeration holds it.
proof fn lemma_each_ticket_once(targets: Seq<TargetView>, tickets: Seq<u64>)
    requires
        tickets.no_duplicates(),
        targets.len() <= u64::MAX,
        forall|ticket: u64| tickets.contains(ticket) <==> ticket < targets.len(),
    ensures
        tickets.len() == targets.len(),
        targets_at(targets, tickets).to_multiset() == targets.to_multiset(),
    decreases targets.len(),
{
    broadcast use group_to_multiset_ensures;

    let picked = targets_at(targets, tickets);
    if targets.len() == 0 {
        if tickets.len() > 0 {
            assert(tickets.contains(tickets[0]));
        }
        assert(picked =~= Seq::<TargetView>::empty());
        assert(targets =~= Seq::<TargetView>::empty());
    } else {
        let top = (targets.len() - 1) as u64;
        assert(tickets.contains(top));
        let at = choose|at: int| 0 <= at < tickets.len() && tickets[at] == top;
        let fewer = tickets.remove(at);
        let shorter = targets.drop_last();
        assert forall|i: int, j: int|
            0 <= i < fewer.len() && 0 <= j < fewer.len() && i != j implies fewer[i]
            != fewer[j] by {
            let a = if i < at { i } else { i + 1 };
            let b = if j < at { j } else { j + 1 };
            assert(fewer[i] == tickets[a] && fewer[j] == tickets[b]);
        }
        assert forall|ticket: u64| fewer.contains(ticket) <==> ticket < shorter.len() by {
            if fewer.contains(ticket) {
                let i = choose|i: int| 0 <= i < fewer.len() && fewer[i] == ticket;
                let a = if i < at { i } else { i + 1 };
                assert(tickets[a] == ticket);
                assert(tickets.contains(ticket));
            }
            if ticket < shorter.len() {
                assert(tickets.contains(ticket));
                let a = choose|a: int| 0 <= a < tickets.len() && tickets[a] == ticket;
                let i = if a < at { a } else { a - 1 };
                assert(fewer[i] == ticket);
            }
        }
        lemma_each_ticket_once(shorter, fewer);
        assert(targets_at(shorter, fewer) =~= picked.remove(at)) by {
            assert forall|i: int| 0 <= i < fewer.len() implies targets_at(shorter, fewer)[i]
                == picked.remove(at)[i] by {
                assert(fewer.contains(fewer[i]));
            }
        }
        to_multiset_remove(picked, at);
        assert(picked[at] == targets.last());
        assert(shorter.push(targets.last()) =~= targets);
        to_multiset_build(shorter, targets.last());
        assert(picked.to_multiset() =~= picked.remove(at).to_multiset().insert(picked[at]));
    }
}

/// A port scan in progress.
pub struct TcpScan {
    plan: TcpPlan,
    count: u32,
    executor: Executor,
    found: OpenPorts,
    history: Ghost<Seq<OutcomeView>>,
    tickets: Ghost<Seq<u64>>,
}

impl TcpScan {
    /// The targets of the scan, in the order in which they are enumerated.
    pub closed spec fn targets(&self) -> Seq<TargetView> {
        self.plan.targets()
    }

    /// The lowest port of the scan.
    pub closed spec fn first_port(&self) -> u16 {
        self.plan.first_port()
    }

    /// The highest port of the scan.
    pub closed spec fn last_port(&self) -> u16 {
        self.plan.last_port()
    }

    /// The address that is scanned.
    pub closed spec fn address(&self) -> Seq<char> {
        self.plan.address()
    }

    /// The state of the executor.
    pub closed spec fn state(&self) -> ExecutorState {
        self.executor@
    }

    /// The outcomes that the scan has produced so far, in the order of their
    /// completion.
    pub closed spec fn history(&self) -> Seq<OutcomeView> {
        self.history@
    }

    /// The tickets under which those outcomes came, in the same order.
    pub closed spec fn finished_tickets(&self) -> Seq<u64> {
        self.tickets@
    }

    /// The open ports found so far, in the order in which they were found.
    pub closed spec fn found(&self) -> Seq<u16> {
        self.found@
    }

    /// What holds of a scan at every point: each ticket handed out stands for
    /// the target enumerated at its place, is in flight or has produced its
    /// one outcome, and the ports gathered are those that the outcomes show
    /// open.
    pub closed spec fn wf(&self) -> bool {
        &&& self.executor@.wf()
        &&& self.plan.first_port() <= self.plan.last_port()
        &&& self.count == self.plan.targets().len()
        &&& self.executor@.started <= self.plan.targets().len()
        &&& (self.executor@.phase == Phase::Draining || self.executor@.phase == Phase::Done)
            ==> self.executor@.started == self.plan.targets().len()
        &&& accounted(self.executor@, self.executor@.started, self.tickets@)
        &&& self.history@.len() == self.tickets@.len()
        &&& forall|i: int|
            0 <= i < self.history@.len() ==> (#[trigger] self.history@[i]).target
                == self.plan.targets()[self.tickets@[i] as int]
        &&& self.found@ == open_ports(self.history@)
    }

    /// What `wf` says to the outside.
    pub proof fn lemma_wf(&self)
        requires
            self.wf(),
        ensures
            self.state().wf(),
            self.first_port() <= self.last_port(),
            self.targets() == crate::target::tcp_targets(
                self.address(),
                self.first_port(),
                self.last_port(),
            ),
            self.state().started <= self.targets().len(),
            self.history().len() == self.state().finished(),
            self.history().len() == self.finished_tickets().len(),
            self.finished_tickets().no_duplicates(),
            forall|i: int|
                0 <= i < self.history().len() ==> self.finished_tickets()[i]
                    < self.state().started && (#[trigger] self.history()[i]).target
                    == self.targets()[self.finished_tickets()[i] as int],
            self.found() == open_ports(self.history()),
            self.state().phase == Phase::Done ==> is_complete_scan(self.history(), self.targets()),
    {
        assert forall|i: int| 0 <= i < self.history().len() implies self.finished_tickets()[i]
            < self.state().started by {
            assert(self.tickets@.contains(self.tickets@[i]));
        }
        if self.state().phase == Phase::Done {
            self.lemma_done_is_complete();
        }
    }

    /// A scan that is done has one outcome for each target.
    proof fn lemma_done_is_complete(&self)
        requires
            self.wf(),
            self.executor@.phase == Phase::Done,
        ensures
            is_complete_scan(self.history@, self.plan.targets()),
    {
        let targets = self.plan.targets();
        let tickets = self.tickets@;
        assert forall|ticket: u64| tickets.contains(ticket) <==> ticket < targets.len() by {
            if ticket < targets.len() {
                assert(tickets.contains(ticket) || self.executor@.in_flight.contains(ticket));
                if self.executor@.in_flight.contains(ticket) {
                    assert(self.executor@.in_flight.len() > 0);
                }
            }
        }
        lemma_each_ticket_once(targets, tickets);
        assert(outcome_targets(self.history@) =~= targets_at(targets, tickets));
    }

    /// A scan of the ports of `plan` under the limits of `config`, not yet
    /// begun.
    pub fn new(plan: TcpPlan, config: &ScanConfig) -> (scan: TcpScan)
        ensures
            scan.wf(),
            scan.state().wf(),
            scan.targets() == plan.targets(),
            scan.address() == plan.address(),
            scan.first_port() == plan.first_port(),
            scan.last_port() == plan.last_port(),
            scan.state() == ExecutorState::initial(config.limit()),
            scan.history() == Seq::<OutcomeView>::empty(),
    {
        let executor = Executor::new(config);
        let count: u32 = plan.len();
        TcpScan {
            plan,
            count,
            executor,
            found: OpenPorts::new(),
            history: Ghost(Seq::empty()),
            tickets: Ghost(Seq::empty()),
        }
    }

    /// What the driver is to do next.
    pub fn directive(&self) -> (next: Directive)
        ensures
            next == self.state().directive(),
    {
        self.executor.directive()
    }

    /// Begins the scan. Rejected where the scan has begun already.
    pub fn begin(&mut self) -> (next: Result<Directive, Rejected>)
        requires
            old(self).wf(),
        ensures
            final(self).wf(),
            final(self).state().wf(),
            final(self).targets() == old(self).targets(),
            final(self).history() == old(self).history(),
            final(self).state() == old(self).state().after(Event::Start),
            old(self).state().phase == Phase::Idle ==> next == Ok::<Directive, Rejected>(
                final(self).state().directive(),
            ),
            old(self).state().phase != Phase::Idle ==> next == Err::<Directive, Rejected>(
                Rejected { phase: old(self).state().phase, event: Event::Start },
            ),
    {
        proof {
            lemma_after_accounts(self.executor@, self.tickets@, Event::Start);
        }
        self.executor.handle(Event::Start)
    }

    /// Does what `Dispatch` asks for: takes the next target from the
    /// enumeration and counts its probe as started, or finds the enumeration
    /// exhausted.
    ///
    /// Returns the target to probe with the ticket under which to hand back its
    /// result. Returns `None` where no probe is to be started: because the
    /// directive is not `Dispatch`, which changes nothing, or because every
    /// port has been dispatched, which ends the dispatching.
    pub fn dispatch(&mut self) -> (next: Option<(u64, ProbeTarget)>)
        requires
            old(self).wf(),
        ensures
            final(self).wf(),
            final(self).state().wf(),
            final(self).targets() == old(self).targets(),
            final(self).history() == old(self).history(),
            old(self).state().directive() != Directive::Dispatch ==> next.is_none()
                && final(self).state() == old(self).state(),
            old(self).state().directive() == Directive::Dispatch && old(self).state().started
                < old(self).targets().len() ==> {
                &&& next.is_some()
                &&& next.unwrap().0 == old(self).state().started
                &&& next.unwrap().1@ == old(self).targets()[old(self).state().started as int]
                &&& final(self).state() == old(self).state().after(Event::TargetStarted)
                &&& final(self).state().in_flight.contains(next.unwrap().0)
            },
            old(self).state().directive() == Directive::Dispatch && old(self).state().started
                == old(self).targets().len() ==> next.is_none()
                && final(self).state() == old(self).state().after(Event::SourceExhausted),
    {
        match self.executor.directive() {
            Directive::Dispatch => {},
            _ => {
                return None;
            },
        }
        let ticket: u64 = self.executor.started();
        if ticket < self.count as u64 {
            proof {
                lemma_after_accounts(self.executor@, self.tickets@, Event::TargetStarted);
            }
            let target = self.plan.target(ticket as u32);
            let _ = self.executor.handle(Event::TargetStarted);
            match target {
                Some(target) => Some((ticket, target)),
                None => None,
            }
        } else {
            proof {
                lemma_after_accounts(self.executor@, self.tickets@, Event::SourceExhausted);
            }
            let _ = self.executor.handle(Event::SourceExhausted);
            None
        }
    }

    /// Takes in the result of the connection attempt that was made under
    /// `ticket`: whether the connection was established and how long the
    /// attempt took.
    ///
    /// Where a probe with that ticket is in flight, its outcome is made,
    /// classified, gathered and returned. Any other ticket is rejected and
    /// changes nothing.
    pub fn record(&mut self, ticket: u64, connected: bool, elapsed_ms: u64) -> (outcome: Result<
        ProbeOutcome,
        Rejected,
    >)
        requires
            old(self).wf(),
        ensures
            final(self).wf(),
            final(self).state().wf(),
            final(self).targets() == old(self).targets(),
            final(self).state() == old(self).state().after(Event::ProbeFinished(ticket)),
            old(self).state().in_flight.contains(ticket) ==> {
                &&& outcome.is_ok()
                &&& outcome.unwrap()@ == (OutcomeView {
                    target: old(self).targets()[ticket as int],
                    result: tcp_result(connected),
                    elapsed_ms,
                })
                &&& final(self).history() == old(self).history().push(outcome.unwrap()@)
                &&& final(self).finished_tickets() == old(self).finished_tickets().push(ticket)
            },
            !old(self).state().in_flight.contains(ticket) ==> {
                &&& outcome == Err::<ProbeOutcome, Rejected>(
                    Rejected {
                        phase: old(self).state().phase,
                        event: Event::ProbeFinished(ticket),
                    },
                )
                &&& final(self).history() == old(self).history()
            },
    {
        let phase: Phase = self.executor.phase();
        if !self.executor.is_in_flight(ticket) {
            return Err(Rejected { phase, event: Event::ProbeFinished(ticket) });
        }
        proof {
            lemma_after_accounts(self.executor@, self.tickets@, Event::ProbeFinished(ticket));
        }
        let target = match self.plan.target(ticket as u32) {
            Some(target) => target,
            None => {
                return Err(Rejected { phase, event: Event::ProbeFinished(ticket) });
            },
        };
        let outcome = tcp_outcome(target, connected, elapsed_ms);
        let ghost before = self.history@;
        let _ = self.executor.handle(Event::ProbeFinished(ticket));
        self.found.record(&outcome);
        proof {
            self.history@ = before.push(outcome@);
            self.tickets@ = self.tickets@.push(ticket);
            assert(before.push(outcome@).drop_last() =~= before);
            assert(open_ports(before.push(outcome@)) =~= match open_port(outcome@) {
                Some(port) => open_ports(before).push(port),
                None => open_ports(before),
            });
        }
        Ok(outcome)
    }

    /// Whether the scan is complete: every port of the range has been probed
    /// and has produced its one outcome.
    pub fn is_done(&self) -> (done: bool)
        requires
            self.wf(),
        ensures
            done == (self.state().phase == Phase::Done),
            done ==> is_complete_scan(self.history(), self.targets()),
            done ==> self.history().len() == self.targets().len(),
    {
        let done = self.executor.is_done();
        proof {
            if done {
                self.lemma_done_is_complete();
                crate::scan::lemma_complete_scan_counts(self.history@, self.plan.targets());
            }
        }
        done
    }

    /// How many ports have been found open so far.
    pub fn open_so_far(&self) -> (count: usize)
        ensures
            count == self.found().len(),
    {
        self.found.len()
    }

    /// The report on the outcomes so far: at the end of the scan, the final
    /// report.
    pub fn report(self) -> (report: TcpReport)
        requires
            self.wf(),
        ensures
            report@ == tcp_report(open_ports(self.history())),
    {
        self.found.finish()
    }
}

/// From plan to report: when a scan is done, and the ports that accept
/// connections are those in `open`, then whatever the order in which the probes
/// completed, the report lists exactly the ports of `open` within the scanned
/// range, in ascending order, or says that there is none.
pub proof fn lemma_done_scan_reports_open_set(scan: &TcpScan, open: Set<u16>)
    requires
        scan.wf(),
        scan.state().phase == Phase::Done,
        answers_as(scan.history(), open),
        forall|port: u16| open.contains(port) ==> scan.first_port() <= port <= scan.last_port(),
    ensures
        tcp_report(open_ports(scan.history())) == if open =~= Set::<u16>::empty() {
            TcpReportView::NoOpenPorts
        } else {
            TcpReportView::OpenPorts(ascending_listing(open))
        },
{
    scan.lemma_wf();
    lemma_report_is_sorted_open_set(
        scan.history(),
        scan.address(),
        scan.first_port(),
        scan.last_port(),
        open,
    );
}

} // verus!
