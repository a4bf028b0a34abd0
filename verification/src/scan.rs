//! Whole scans: what holds of the outcomes of one scan taken together, in
//! whatever order its probes completed.

use vstd::prelude::*;
use vstd::seq_lib::group_to_multiset_ensures;
use crate::classify::{classification, Classification};
use crate::outcome::{tcp_result, OutcomeView, TargetView};
use crate::ports::ports_between;
use crate::render::http_hit;
use crate::report::{
    ascending, lemma_sorted_ports, open_port, open_ports, sorted_ports, strictly_ascending,
    tcp_report, TcpReportView,
};
use crate::target::tcp_targets;

verus! {

/// The targets of a sequence of outcomes, in the order of the outcomes.
pub open spec fn outcome_targets(outcomes: Seq<OutcomeView>) -> Seq<TargetView> {
    outcomes.map_values(|outcome: OutcomeView| outcome.target)
}

/// Whether `outcomes` are those of a complete scan of `targets`: one outcome
/// for each target, in whatever order.
pub open spec fn is_complete_scan(outcomes: Seq<OutcomeView>, targets: Seq<TargetView>) -> bool {
    outcome_targets(outcomes).to_multiset() == targets.to_multiset()
}

/// Whether every TCP probe among `outcomes` met a port that accepts connections
/// exactly if it is in `open`.
pub open spec fn answers_as(outcomes: Seq<OutcomeView>, open: Set<u16>) -> bool {
    forall|i: int|
        0 <= i < outcomes.len() ==> match (#[trigger] outcomes[i]).target {
            TargetView::Tcp { port, .. } => outcomes[i].result == tcp_result(open.contains(port)),
            TargetView::Http { .. } => true,
        }
}

/// The outcomes among `outcomes` that are interesting, in their order.
pub open spec fn interesting(outcomes: Seq<OutcomeView>) -> Seq<OutcomeView> {
    outcomes.filter(|outcome: OutcomeView| classification(outcome) is Interesting)
}

/// The ports of `open` below `bound`, in ascending order.
pub open spec fn open_below(open: Set<u16>, bound: int) -> Seq<u16>
    decreases bound,
{
    if bound <= 0 {
        Seq::empty()
    } else {
        let below = open_below(open, bound - 1);
        if open.contains((bound - 1) as u16) {
            below.push((bound - 1) as u16)
        } else {
            below
        }
    }
}

/// The ports of `open` in ascending order, each once.
pub open spec fn ascending_listing(open: Set<u16>) -> Seq<u16> {
    open_below(open, 0x10000)
}

/// `open_below` lists exactly the ports of `open` below the bound, each lower
/// than the next.
pub proof fn lemma_open_below(open: Set<u16>, bound: int)
    requires
        0 <= bound <= 0x10000,
    ensures
        strictly_ascending(open_below(open, bound)),
        forall|port: u16|
            #[trigger] open_below(open, bound).contains(port) <==> (port < bound && open.contains(
                port,
            )),
    decreases bound,
{
    let listed = open_below(open, bound);
    if bound > 0 {
        let below = open_below(open, bound - 1);
        let top = (bound - 1) as u16;
        lemma_open_below(open, bound - 1);
        assert(listed == if open.contains(top) {
            below.push(top)
        } else {
            below
        });
        assert forall|i: int, j: int| 0 <= i < j < listed.len() implies listed[i] < listed[j] by {
            if j < below.len() {
                assert(listed[i] == below[i] && listed[j] == below[j]);
            } else {
                assert(listed[i] == below[i]);
                assert(listed[j] == top);
                assert(below.contains(below[i]));
            }
        }
        assert forall|port: u16| listed.contains(port) <==> (port < bound && open.contains(
            port,
        )) by {
            if listed.contains(port) {
                let i = choose|i: int| 0 <= i < listed.len() && listed[i] == port;
                if i < below.len() {
                    assert(below[i] == port);
                    assert(below.contains(port));
                } else {
                    assert(port == top);
                }
            }
            if port < bound && open.contains(port) {
                if port == top {
                    assert(listed[listed.len() - 1] == port);
                } else {
                    assert(port < bound - 1);
                    assert(below.contains(port));
                    let i = choose|i: int| 0 <= i < below.len() && below[i] == port;
                    assert(listed[i] == port);
                }
            }
        }
    } else {
        assert(listed =~= Seq::<u16>::empty());
    }
}

/// A sequence in which each port is lower than the next holds no port twice.
proof fn lemma_strictly_ascending_is_distinct(ports: Seq<u16>)
    requires
        strictly_ascending(ports),
    ensures
        ports.no_duplicates(),
        ascending(ports),
{
    assert forall|i: int, j: int|
        0 <= i < ports.len() && 0 <= j < ports.len() && i != j implies ports[i] != ports[j] by {
        if i < j {
            assert(ports[i] < ports[j]);
        } else {
            assert(ports[j] < ports[i]);
        }
    }
}

/// Two sequences without duplicates that hold the same values hold each value
/// equally often.
proof fn lemma_distinct_same_members<A>(x: Seq<A>, y: Seq<A>)
    requires
        x.no_duplicates(),
        y.no_duplicates(),
        forall|value: A| x.contains(value) <==> y.contains(value),
    ensures
        x.to_multiset() == y.to_multiset(),
{
    broadcast use group_to_multiset_ensures;

    x.lemma_multiset_has_no_duplicates();
    y.lemma_multiset_has_no_duplicates();
    assert forall|value: A| x.to_multiset().count(value) == y.to_multiset().count(value) by {
        assert(x.contains(value) <==> x.to_multiset().count(value) > 0);
        assert(y.contains(value) <==> y.to_multiset().count(value) > 0);
    }
    assert(x.to_multiset() =~= y.to_multiset());
}

/// What is picked out of a sequence without duplicates by a choice that tells
/// distinct elements apart has no duplicates either.
proof fn lemma_filter_map_distinct<A, B>(s: Seq<A>, pick: spec_fn(A) -> Option<B>)
    requires
        forall|i: int, j: int|
            0 <= i < j < s.len() && pick(s[i]) is Some ==> pick(s[i]) != pick(s[j]),
    ensures
        s.filter_map(pick).no_duplicates(),
    decreases s.len(),
{
    if s.len() > 0 {
        let rest = s.drop_last();
        let picked = rest.filter_map(pick);
        assert forall|i: int, j: int|
            0 <= i < j < rest.len() && pick(rest[i]) is Some implies pick(rest[i]) != pick(
            rest[j],
        ) by {
            assert(rest[i] == s[i] && rest[j] == s[j]);
        }
        lemma_filter_map_distinct(rest, pick);
        match pick(s.last()) {
            Some(value) => {
                if picked.contains(value) {
                    rest.lemma_filter_map_contains(pick, value);
                    let t = choose|t: A| #[trigger] rest.contains(t) && pick(t) == Some(value);
                    let i = choose|i: int| 0 <= i < rest.len() && rest[i] == t;
                    assert(pick(s[i]) == pick(s[s.len() - 1]));
                }
                let all = picked + seq![value];
                assert forall|i: int, j: int|
                    0 <= i < all.len() && 0 <= j < all.len() && i != j implies all[i]
                    != all[j] by {
                    if i < picked.len() && j < picked.len() {
                    } else if i < picked.len() {
                        assert(picked.contains(all[i]));
                    } else {
                        assert(picked.contains(all[j]));
                    }
                }
            },
            None => {},
        }
    }
}

/// What is picked out of a sequence holds a value exactly if the choice picks
/// that value from an element of the sequence.
proof fn lemma_filter_map_members<A, B>(s: Seq<A>, pick: spec_fn(A) -> Option<B>, value: B)
    ensures
        s.filter_map(pick).contains(value) <==> exists|i: int|
            0 <= i < s.len() && pick(#[trigger] s[i]) == Some(value),
    decreases s.len(),
{
    if s.filter_map(pick).contains(value) {
        s.lemma_filter_map_contains(pick, value);
        let t = choose|t: A| #[trigger] s.contains(t) && pick(t) == Some(value);
        let i = choose|i: int| 0 <= i < s.len() && s[i] == t;
        assert(pick(s[i]) == Some(value));
    }
    if exists|i: int| 0 <= i < s.len() && pick(#[trigger] s[i]) == Some(value) {
        let i = choose|i: int| 0 <= i < s.len() && pick(#[trigger] s[i]) == Some(value);
        let rest = s.drop_last();
        let picked = rest.filter_map(pick);
        if i == s.len() - 1 {
            let all = picked + seq![value];
            assert(all[picked.len() as int] == value);
        } else {
            assert(pick(rest[i]) == Some(value));
            lemma_filter_map_members(rest, pick, value);
            let k = choose|k: int| 0 <= k < picked.len() && picked[k] == value;
            match pick(s.last()) {
                Some(other) => {
                    assert((picked + seq![other])[k] == value);
                },
                None => {},
            }
        }
    }
}

/// Completeness, outcome by outcome: a complete scan of `targets` has as many
/// outcomes as there are targets, and each target among its outcomes as often
/// as it was enumerated, however many probes failed.
pub proof fn lemma_complete_scan_counts(outcomes: Seq<OutcomeView>, targets: Seq<TargetView>)
    requires
        is_complete_scan(outcomes, targets),
    ensures
        outcomes.len() == targets.len(),
        forall|target: TargetView|
            outcome_targets(outcomes).to_multiset().count(target) == targets.to_multiset().count(
                target,
            ),
        forall|target: TargetView|
            targets.contains(target) <==> outcome_targets(outcomes).contains(target),
{
    broadcast use group_to_multiset_ensures;

    assert(outcome_targets(outcomes).to_multiset().len() == targets.to_multiset().len());
    assert forall|target: TargetView|
        targets.contains(target) <==> outcome_targets(outcomes).contains(target) by {
        assert(targets.contains(target) <==> targets.to_multiset().count(target) > 0);
        assert(outcome_targets(outcomes).contains(target) <==> outcome_targets(
            outcomes,
        ).to_multiset().count(target) > 0);
    }
}

/// The report of a complete port scan is the sorted set of open ports.
///
/// Let the ports in `open` be those that accept connections, all of them within
/// the scanned range from `first` to `last`. Then whatever the order in which
/// the probes completed, the ports that the scan found, sorted, are exactly the
/// ports of `open` in ascending order, each once; and the report says that
/// there is no open port exactly if `open` is empty.
pub proof fn lemma_report_is_sorted_open_set(
    outcomes: Seq<OutcomeView>,
    address: Seq<char>,
    first: u16,
    last: u16,
    open: Set<u16>,
)
    requires
        first <= last,
        forall|port: u16| open.contains(port) ==> first <= port <= last,
        is_complete_scan(outcomes, tcp_targets(address, first, last)),
        answers_as(outcomes, open),
    ensures
        sorted_ports(open_ports(outcomes)) == ascending_listing(open),
        tcp_report(open_ports(outcomes)) == if open =~= Set::<u16>::empty() {
            TcpReportView::NoOpenPorts
        } else {
            TcpReportView::OpenPorts(ascending_listing(open))
        },
{
    broadcast use group_to_multiset_ensures;

    let targets = tcp_targets(address, first, last);
    let probed = outcome_targets(outcomes);
    let pick = |outcome: OutcomeView| open_port(outcome);
    let found = open_ports(outcomes);
    let listing = ascending_listing(open);

    // The enumeration names each port of the range once.
    assert forall|i: int, j: int|
        0 <= i < targets.len() && 0 <= j < targets.len() && i != j implies targets[i]
        != targets[j] by {
        assert(targets[i] == TargetView::Tcp {
            address,
            port: ports_between(first, last)[i],
        });
        assert(targets[j] == TargetView::Tcp {
            address,
            port: ports_between(first, last)[j],
        });
    }
    targets.lemma_multiset_has_no_duplicates();
    probed.lemma_multiset_has_no_duplicates_conv();
    lemma_complete_scan_counts(outcomes, targets);

    // Every outcome is that of a port of the range, answered as `open` says.
    assert forall|i: int| 0 <= i < outcomes.len() implies (#[trigger] outcomes[i]).target
        == (TargetView::Tcp { address, port: outcomes[i].target->port }) && pick(outcomes[i]) == (
    if open.contains(outcomes[i].target->port) {
        Some(outcomes[i].target->port)
    } else {
        None
    }) by {
        assert(probed[i] == outcomes[i].target);
        assert(probed.contains(outcomes[i].target));
        assert(targets.contains(outcomes[i].target));
        let k = choose|k: int| 0 <= k < targets.len() && targets[k] == outcomes[i].target;
        assert(targets[k] == TargetView::Tcp {
            address,
            port: ports_between(first, last)[k],
        });
    }

    // No port is found twice.
    assert forall|i: int, j: int|
        0 <= i < j < outcomes.len() && pick(outcomes[i]) is Some implies pick(outcomes[i])
        != pick(outcomes[j]) by {
        assert(probed[i] == outcomes[i].target);
        assert(probed[j] == outcomes[j].target);
        assert(probed[i] != probed[j]);
    }
    lemma_filter_map_distinct(outcomes, pick);

    // The ports found are the ports of `open`.
    assert forall|port: u16| found.contains(port) <==> open.contains(port) by {
        lemma_filter_map_members(outcomes, pick, port);
        if open.contains(port) {
            let target = TargetView::Tcp { address, port };
            assert(targets[port - first] == target);
            assert(targets.contains(target));
            assert(probed.contains(target));
            let i = choose|i: int| 0 <= i < probed.len() && probed[i] == target;
            assert(outcomes[i].target == target);
            assert(pick(outcomes[i]) == Some(port));
        }
    }

    // So are the ports of the listing, and both hold each port once.
    lemma_open_below(open, 0x10000);
    lemma_strictly_ascending_is_distinct(listing);
    lemma_distinct_same_members(listing, found);
    lemma_sorted_ports(found);

    if open =~= Set::<u16>::empty() {
        if found.len() > 0 {
            assert(found.contains(found[0]));
        }
    } else {
        let port = choose|port: u16| open.contains(port);
        assert(found.contains(port));
    }
}

/// A scan of closed or unreachable targets yields nothing of interest, however
/// often it is repeated: in each of `scans`, if no probe got through, no
/// outcome is interesting, no port is reported open, no HTTP line is printed,
/// and the report of a port scan says that there is no open port.
pub proof fn lemma_failed_scans_yield_nothing(scans: Seq<Seq<OutcomeView>>)
    requires
        forall|n: int, i: int|
            0 <= n < scans.len() && 0 <= i < scans[n].len() ==> (#[trigger] scans[n][i]).result
                is Err,
    ensures
        forall|n: int|
            0 <= n < scans.len() ==> {
                &&& interesting(#[trigger] scans[n]) == Seq::<OutcomeView>::empty()
                &&& open_ports(scans[n]) == Seq::<u16>::empty()
                &&& tcp_report(open_ports(scans[n])) == TcpReportView::NoOpenPorts
                &&& forall|i: int|
                    0 <= i < scans[n].len() ==> http_hit(#[trigger] scans[n][i]) is None
            },
{
    assert forall|n: int| 0 <= n < scans.len() implies {
        &&& interesting(#[trigger] scans[n]) == Seq::<OutcomeView>::empty()
        &&& open_ports(scans[n]) == Seq::<u16>::empty()
        &&& tcp_report(open_ports(scans[n])) == TcpReportView::NoOpenPorts
        &&& forall|i: int| 0 <= i < scans[n].len() ==> http_hit(#[trigger] scans[n][i]) is None
    } by {
        let scan = scans[n];
        assert forall|i: int| 0 <= i < scan.len() implies classification(#[trigger] scan[i])
            == Classification::Uninteresting by {
            assert(scans[n][i].result is Err);
        }
        lemma_failed_scan_yields_nothing(scan);
    }
}

/// A scan in which every outcome is uninteresting reports nothing.
proof fn lemma_failed_scan_yields_nothing(scan: Seq<OutcomeView>)
    requires
        forall|i: int|
            0 <= i < scan.len() ==> classification(#[trigger] scan[i])
                == Classification::Uninteresting,
    ensures
        interesting(scan) == Seq::<OutcomeView>::empty(),
        open_ports(scan) == Seq::<u16>::empty(),
        forall|i: int| 0 <= i < scan.len() ==> http_hit(#[trigger] scan[i]) is None,
    decreases scan.len(),
{
    reveal(Seq::filter);
    if scan.len() > 0 {
        let rest = scan.drop_last();
        assert forall|i: int| 0 <= i < rest.len() implies classification(#[trigger] rest[i])
            == Classification::Uninteresting by {
            assert(rest[i] == scan[i]);
        }
        lemma_failed_scan_yields_nothing(rest);
        assert(classification(scan[scan.len() - 1]) == Classification::Uninteresting);
    }
}

} // verus!
