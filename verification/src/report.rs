//! The aggregator: which outcomes matter, and the final report of a port scan.

use vstd::prelude::*;
use vstd::relations::{sorted_by, total_ordering};
use vstd::seq_lib::{
    group_to_multiset_ensures, lemma_sorted_unique, to_multiset_build, to_multiset_insert,
};
use crate::classify::{classification, classify, Classification, Reason};
use crate::outcome::{OutcomeView, ProbeOutcome, ProbeTarget, TargetView};

verus! {

/// The port that an outcome shows to be open, if it shows one.
pub open spec fn open_port(outcome: OutcomeView) -> Option<u16> {
    match outcome.target {
        TargetView::Tcp { port, .. } => if classification(outcome) == Classification::Interesting(
            Reason::Open,
        ) {
            Some(port)
        } else {
            None
        },
        TargetView::Http { .. } => None,
    }
}

/// The open ports that a sequence of outcomes shows, in the order of the
/// outcomes.
pub open spec fn open_ports(outcomes: Seq<OutcomeView>) -> Seq<u16> {
    outcomes.filter_map(|outcome: OutcomeView| open_port(outcome))
}

/// Whether no port of `ports` stands before a lower one.
pub open spec fn ascending(ports: Seq<u16>) -> bool {
    forall|i: int, j: int| 0 <= i < j < ports.len() ==> ports[i] <= ports[j]
}

/// Whether each port of `ports` is lower than the next.
pub open spec fn strictly_ascending(ports: Seq<u16>) -> bool {
    forall|i: int, j: int| 0 <= i < j < ports.len() ==> ports[i] < ports[j]
}

/// The order in which a report lists ports.
pub open spec fn port_order() -> spec_fn(u16, u16) -> bool {
    |a: u16, b: u16| a <= b
}

/// The ports of `found` in ascending order, each as often as it was found.
pub open spec fn sorted_ports(found: Seq<u16>) -> Seq<u16> {
    found.sort_by(port_order())
}

/// `sorted_ports(found)` is the one ascending arrangement of `found`.
pub proof fn lemma_sorted_ports(found: Seq<u16>)
    ensures
        ascending(sorted_ports(found)),
        sorted_ports(found).to_multiset() == found.to_multiset(),
        sorted_ports(found).len() == found.len(),
        forall|other: Seq<u16>|
            ascending(other) && other.to_multiset() == found.to_multiset() ==> other
                == sorted_ports(found),
{
    broadcast use group_to_multiset_ensures;

    let sorted = sorted_ports(found);
    assert(total_ordering(port_order()));
    found.lemma_sort_by_ensures(port_order());
    assert forall|i: int, j: int| 0 <= i < j < sorted.len() implies sorted[i] <= sorted[j] by {
        assert(port_order()(sorted[i], sorted[j]));
    }
    assert(sorted.to_multiset().len() == found.to_multiset().len());
    assert forall|other: Seq<u16>|
        ascending(other) && other.to_multiset() == found.to_multiset() implies other
        == sorted by {
        assert(sorted_by(other, port_order()));
        lemma_sorted_unique(other, sorted, port_order());
    }
}

/// The final report of a port scan.
#[derive(Debug)]
pub enum TcpReport {
    /// No port accepted a connection.
    NoOpenPorts,
    /// The ports that accepted a connection, in ascending order.
    OpenPorts(Vec<u16>),
}

/// The mathematical value of a [`TcpReport`].
pub enum TcpReportView {
    NoOpenPorts,
    OpenPorts(Seq<u16>),
}

impl View for TcpReport {
    type V = TcpReportView;

    open spec fn view(&self) -> TcpReportView {
        match self {
            TcpReport::NoOpenPorts => TcpReportView::NoOpenPorts,
            TcpReport::OpenPorts(ports) => TcpReportView::OpenPorts(ports@),
        }
    }
}

/// The report on the ports that were found open, in whatever order they were
/// found.
pub open spec fn tcp_report(found: Seq<u16>) -> TcpReportView {
    if found.len() == 0 {
        TcpReportView::NoOpenPorts
    } else {
        TcpReportView::OpenPorts(sorted_ports(found))
    }
}

/// The place at which `port` goes into `sorted` so that it stays ascending:
/// behind every port that is not above it.
fn insertion_point(sorted: &Vec<u16>, port: u16) -> (at: usize)
    requires
        ascending(sorted@),
    ensures
        at <= sorted.len(),
        forall|j: int| 0 <= j < at ==> sorted[j] <= port,
        forall|j: int| at <= j < sorted.len() ==> sorted[j] > port,
{
    let mut low: usize = 0;
    let mut high: usize = sorted.len();
    while low < high
        invariant
            low <= high <= sorted.len(),
            ascending(sorted@),
            forall|j: int| 0 <= j < low ==> sorted[j] <= port,
            forall|j: int| high <= j < sorted.len() ==> sorted[j] > port,
        decreases high - low,
    {
        let middle: usize = low + (high - low) / 2;
        if sorted[middle] <= port {
            low = middle + 1;
        } else {
            high = middle;
        }
    }
    low
}

/// Sorts ports into ascending order. Nothing is dropped: a port that occurs
/// twice occurs twice in the result.
pub fn sort_ports(ports: &Vec<u16>) -> (sorted: Vec<u16>)
    ensures
        sorted@ == sorted_ports(ports@),
        ascending(sorted@),
        sorted@.to_multiset() == ports@.to_multiset(),
{
    broadcast use group_to_multiset_ensures;

    let mut sorted: Vec<u16> = Vec::new();
    let mut taken: usize = 0;
    while taken < ports.len()
        invariant
            taken <= ports.len(),
            ascending(sorted@),
            sorted@.to_multiset() == ports@.take(taken as int).to_multiset(),
        decreases ports.len() - taken,
    {
        let port: u16 = ports[taken];
        let at: usize = insertion_point(&sorted, port);
        let ghost before = sorted@;
        sorted.insert(at, port);
        proof {
            assert(sorted@ == before.insert(at as int, port));
            assert forall|i: int, j: int| 0 <= i < j < sorted@.len() implies sorted@[i]
                <= sorted@[j] by {
                let a = if i < at { i } else { i - 1 };
                let b = if j < at { j } else { j - 1 };
                if i != at && j != at {
                    assert(sorted@[i] == before[a]);
                    assert(sorted@[j] == before[b]);
                } else if i == at {
                    assert(sorted@[j] == before[b]);
                } else {
                    assert(sorted@[i] == before[a]);
                }
            }
            assert(ports@.take(taken + 1) =~= ports@.take(taken as int).push(port));
            to_multiset_build(ports@.take(taken as int), port);
            to_multiset_insert(before, at as int, port);
        }
        taken = taken + 1;
    }
    proof {
        assert(ports@.take(taken as int) =~= ports@);
        lemma_sorted_ports(ports@);
    }
    sorted
}

/// The open ports of a scan, gathered as the outcomes come in.
///
/// This is the only state that probes running at the same time share; the
/// driver holds it under a lock for the length of one `record`.
#[derive(Debug)]
pub struct OpenPorts {
    found: Vec<u16>,
}

impl View for OpenPorts {
    type V = Seq<u16>;

    /// The ports found open so far, in the order in which they were found.
    closed spec fn view(&self) -> Seq<u16> {
        self.found@
    }
}

impl OpenPorts {
    /// A collection with nothing found yet.
    pub fn new() -> (made: OpenPorts)
        ensures
            made@ == Seq::<u16>::empty(),
    {
        OpenPorts { found: Vec::new() }
    }

    /// Takes one outcome in. Its port is kept if the outcome shows it open;
    /// any other outcome leaves the collection as it was. Returns whether the
    /// port was kept.
    pub fn record(&mut self, outcome: &ProbeOutcome) -> (kept: bool)
        ensures
            kept == open_port(outcome@).is_some(),
            final(self)@ == match open_port(outcome@) {
                Some(port) => old(self)@.push(port),
                None => old(self)@,
            },
    {
        match &outcome.target {
            ProbeTarget::Tcp { port, .. } => {
                match classify(outcome) {
                    Classification::Interesting(Reason::Open) => {
                        self.found.push(*port);
                        true
                    },
                    _ => false,
                }
            },
            ProbeTarget::Http { .. } => false,
        }
    }

    /// How many open ports were found so far.
    pub fn len(&self) -> (count: usize)
        ensures
            count == self@.len(),
    {
        self.found.len()
    }

    /// The report at the end of the scan: the open ports in ascending order, or
    /// the statement that there is none.
    pub fn finish(self) -> (report: TcpReport)
        ensures
            report@ == tcp_report(self@),
    {
        if self.found.len() == 0 {
            TcpReport::NoOpenPorts
        } else {
            TcpReport::OpenPorts(sort_ports(&self.found))
        }
    }
}

/// Gathers the open ports of a whole sequence of outcomes, in whatever order
/// they completed, and reports on them.
pub fn report_open_ports(outcomes: &Vec<ProbeOutcome>) -> (report: TcpReport)
    ensures
        report@ == tcp_report(open_ports(outcome_views(outcomes@))),
{
    let mut gathered = OpenPorts::new();
    let mut at: usize = 0;
    while at < outcomes.len()
        invariant
            at <= outcomes.len(),
            gathered@ == open_ports(outcome_views(outcomes@).take(at as int)),
        decreases outcomes.len() - at,
    {
        proof {
            outcome_views(outcomes@).lemma_filter_map_take_succ(
                |outcome: OutcomeView| open_port(outcome),
                at as int,
            );
        }
        gathered.record(&outcomes[at]);
        at = at + 1;
    }
    assert(outcome_views(outcomes@).take(at as int) =~= outcome_views(outcomes@));
    gathered.finish()
}

/// The mathematical values of a sequence of outcomes.
pub open spec fn outcome_views(outcomes: Seq<ProbeOutcome>) -> Seq<OutcomeView> {
    outcomes.map_values(|outcome: ProbeOutcome| outcome@)
}

} // verus!
