use probe_engine::classify::{classify, Classification, Reason};
use probe_engine::config::ScanConfig;
use probe_engine::executor::{Directive, Event, Phase, Rejected};
use probe_engine::outcome::{tcp_outcome, ProbeOutcome, ProbeTarget};
use probe_engine::report::{report_open_ports, sort_ports, OpenPorts, TcpReport};
use probe_engine::target::TcpPlan;
use probe_engine::tcp_scan::TcpScan;

fn tcp(port: u16, connected: bool) -> ProbeOutcome {
    tcp_outcome(ProbeTarget::Tcp { address: "127.0.0.1".to_string(), port }, connected, 3)
}

fn listed(report: TcpReport) -> Option<Vec<u16>> {
    match report {
        TcpReport::NoOpenPorts => None,
        TcpReport::OpenPorts(ports) => Some(ports),
    }
}

#[test]
fn sort_ports_sorts_and_keeps_duplicates() {
    assert_eq!(sort_ports(&vec![]), Vec::<u16>::new());
    assert_eq!(sort_ports(&vec![80]), vec![80]);
    assert_eq!(sort_ports(&vec![443, 22, 80, 22, 65535, 0]), vec![0, 22, 22, 80, 443, 65535]);
    let mut many: Vec<u16> = (0..2000u32).map(|i| (i * 7919 % 65536) as u16).collect();
    let sorted = sort_ports(&many);
    many.sort();
    assert_eq!(sorted, many);
}

#[test]
fn open_port_is_interesting() {
    assert_eq!(classify(&tcp(22, true)), Classification::Interesting(Reason::Open));
    assert_eq!(classify(&tcp(22, false)), Classification::Uninteresting);
}

#[test]
fn open_ports_are_gathered_and_sorted() {
    let mut gathered = OpenPorts::new();
    assert!(gathered.record(&tcp(443, true)));
    assert!(!gathered.record(&tcp(21, false)));
    assert!(gathered.record(&tcp(22, true)));
    assert_eq!(gathered.len(), 2);
    assert_eq!(listed(gathered.finish()), Some(vec![22, 443]));
}

#[test]
fn no_open_port_is_said_so() {
    let gathered = OpenPorts::new();
    assert!(matches!(gathered.finish(), TcpReport::NoOpenPorts));
    let outcomes = vec![tcp(1, false), tcp(2, false)];
    assert!(matches!(report_open_ports(&outcomes), TcpReport::NoOpenPorts));
}

#[test]
fn repeated_scans_of_a_closed_port_yield_nothing() {
    for _ in 0..5 {
        let outcomes = vec![tcp(81, false)];
        assert_eq!(classify(&outcomes[0]), Classification::Uninteresting);
        assert!(matches!(report_open_ports(&outcomes), TcpReport::NoOpenPorts));
    }
}

#[test]
fn report_does_not_depend_on_completion_order() {
    let open = [22u16, 25, 29];
    let orders: [[u16; 10]; 3] = [
        [20, 21, 22, 23, 24, 25, 26, 27, 28, 29],
        [29, 28, 27, 26, 25, 24, 23, 22, 21, 20],
        [25, 20, 29, 21, 22, 28, 23, 27, 24, 26],
    ];
    for order in orders {
        let outcomes: Vec<ProbeOutcome> =
            order.iter().map(|port| tcp(*port, open.contains(port))).collect();
        assert_eq!(listed(report_open_ports(&outcomes)), Some(vec![22, 25, 29]));
    }
}

#[test]
fn http_outcomes_show_no_open_port() {
    let target = ProbeTarget::Http { address: "http://h/".to_string(), path: "a".to_string() };
    let odd = tcp_outcome(target, true, 1);
    assert_eq!(classify(&odd), Classification::Inconclusive);
    let mut gathered = OpenPorts::new();
    assert!(!gathered.record(&odd));
    assert_eq!(gathered.len(), 0);
}

/// Scans `spec` at 127.0.0.1 with the ports in `open` accepting connections,
/// finishing probes in an order taken from `seed`.
fn scan(spec: &str, limit: usize, open: &[u16], mut seed: u64) -> (TcpReport, usize) {
    let plan = TcpPlan::new("127.0.0.1", true, spec).unwrap();
    let mut scan = TcpScan::new(plan, &ScanConfig::new(limit, 1000).unwrap());
    let mut flying: Vec<(u64, u16)> = Vec::new();
    let mut outcomes = 0usize;
    assert_eq!(scan.directive(), Directive::Begin);
    scan.begin().unwrap();
    loop {
        assert!(flying.len() <= limit);
        match scan.directive() {
            Directive::Dispatch => {
                if let Some((ticket, target)) = scan.dispatch() {
                    match target {
                        ProbeTarget::Tcp { port, .. } => flying.push((ticket, port)),
                        ProbeTarget::Http { .. } => panic!("a port scan has TCP targets only"),
                    }
                }
            }
            Directive::Await => {
                seed = seed.wrapping_mul(6364136223846793005).wrapping_add(1442695040888963407);
                let (ticket, port) = flying.swap_remove((seed >> 33) as usize % flying.len());
                let outcome = scan.record(ticket, open.contains(&port), 1).unwrap();
                assert!(matches!(outcome.target, ProbeTarget::Tcp { port: p, .. } if p == port));
                outcomes += 1;
            }
            Directive::Halt => break,
            Directive::Begin => panic!("the scan has begun"),
        }
    }
    assert!(scan.is_done());
    (scan.report(), outcomes)
}

#[test]
fn scan_of_20_to_22_with_22_open_reports_22() {
    for limit in [1usize, 2, 10] {
        let (report, outcomes) = scan("20-22", limit, &[22], 9);
        assert_eq!(outcomes, 3);
        assert_eq!(listed(report), Some(vec![22]));
    }
}

#[test]
fn scan_reports_exactly_the_open_ports_sorted() {
    let open = [9u16, 1000, 1003, 1500, 1999, 2000, 4000];
    for seed in 0..6u64 {
        let (report, outcomes) = scan("1000-2000", 16, &open, seed);
        assert_eq!(outcomes, 1001);
        assert_eq!(listed(report), Some(vec![1000, 1003, 1500, 1999, 2000]));
    }
}

#[test]
fn scan_of_closed_ports_reports_none() {
    for _ in 0..3 {
        let (report, outcomes) = scan("8000-8010", 4, &[], 5);
        assert_eq!(outcomes, 11);
        assert!(matches!(report, TcpReport::NoOpenPorts));
    }
}

#[test]
fn single_port_scan_makes_one_probe() {
    let (report, outcomes) = scan("22", 10, &[22], 1);
    assert_eq!(outcomes, 1);
    assert_eq!(listed(report), Some(vec![22]));
}

#[test]
fn scan_rejects_tickets_that_are_not_in_flight() {
    let plan = TcpPlan::new("127.0.0.1", true, "1-3").unwrap();
    let mut scan = TcpScan::new(plan, &ScanConfig::new(2, 1000).unwrap());
    assert!(scan.dispatch().is_none());
    assert!(matches!(
        scan.record(0, true, 1),
        Err(Rejected { phase: Phase::Idle, event: Event::ProbeFinished(0) })
    ));
    assert_eq!(scan.begin(), Ok(Directive::Dispatch));
    assert!(matches!(scan.begin(), Err(Rejected { phase: Phase::Dispatching, .. })));
    let (ticket, _) = scan.dispatch().unwrap();
    assert_eq!(ticket, 0);
    assert!(scan.record(5, true, 1).is_err());
    assert!(scan.record(0, true, 1).is_ok());
    assert!(scan.record(0, true, 1).is_err());
    assert_eq!(scan.open_so_far(), 1);
    assert!(!scan.is_done());
}

#[test]
fn faulty_range_stops_before_any_probe() {
    let plan = TcpPlan::new("127.0.0.1", true, "100-50");
    assert!(plan.is_err());
}
