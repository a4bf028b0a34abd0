use probe_engine::config::ScanConfig;
use probe_engine::executor::{Directive, Event, Executor, Phase, Rejected};

fn executor(limit: usize) -> Executor {
    Executor::new(&ScanConfig::new(limit, 1000).unwrap())
}

#[test]
fn fresh_executor_is_idle() {
    let exec = executor(3);
    assert_eq!(exec.phase(), Phase::Idle);
    assert_eq!(exec.directive(), Directive::Begin);
    assert_eq!(exec.limit(), 3);
    assert_eq!(exec.in_flight(), 0);
    assert_eq!(exec.started(), 0);
    assert_eq!(exec.finished(), 0);
    assert!(!exec.is_done());
}

#[test]
fn walks_through_all_phases() {
    let mut exec = executor(2);
    assert_eq!(exec.handle(Event::Start), Ok(Directive::Dispatch));
    assert_eq!(exec.phase(), Phase::Dispatching);
    assert_eq!(exec.handle(Event::TargetStarted), Ok(Directive::Dispatch));
    assert_eq!(exec.handle(Event::TargetStarted), Ok(Directive::Await));
    assert_eq!(exec.in_flight(), 2);
    assert!(exec.is_in_flight(0) && exec.is_in_flight(1) && !exec.is_in_flight(2));
    assert_eq!(exec.handle(Event::ProbeFinished(1)), Ok(Directive::Dispatch));
    assert_eq!(exec.handle(Event::TargetStarted), Ok(Directive::Await));
    assert_eq!(exec.started(), 3);
    assert_eq!(exec.handle(Event::ProbeFinished(0)), Ok(Directive::Dispatch));
    assert_eq!(exec.handle(Event::SourceExhausted), Ok(Directive::Await));
    assert_eq!(exec.phase(), Phase::Draining);
    assert_eq!(exec.handle(Event::ProbeFinished(2)), Ok(Directive::Halt));
    assert_eq!(exec.phase(), Phase::Done);
    assert!(exec.is_done());
    assert_eq!(exec.finished(), 3);
    assert_eq!(exec.started(), 3);
}

#[test]
fn start_beyond_the_limit_is_rejected() {
    let mut exec = executor(1);
    exec.handle(Event::Start).unwrap();
    exec.handle(Event::TargetStarted).unwrap();
    assert_eq!(
        exec.handle(Event::TargetStarted),
        Err(Rejected { phase: Phase::Dispatching, event: Event::TargetStarted })
    );
    assert_eq!(exec.in_flight(), 1);
    assert_eq!(exec.started(), 1);
}

#[test]
fn a_probe_finishes_once_only() {
    let mut exec = executor(4);
    exec.handle(Event::Start).unwrap();
    exec.handle(Event::TargetStarted).unwrap();
    exec.handle(Event::TargetStarted).unwrap();
    assert!(exec.handle(Event::ProbeFinished(0)).is_ok());
    assert_eq!(
        exec.handle(Event::ProbeFinished(0)),
        Err(Rejected { phase: Phase::Dispatching, event: Event::ProbeFinished(0) })
    );
    assert_eq!(
        exec.handle(Event::ProbeFinished(7)),
        Err(Rejected { phase: Phase::Dispatching, event: Event::ProbeFinished(7) })
    );
    assert_eq!(exec.finished(), 1);
    assert_eq!(exec.in_flight(), 1);
}

#[test]
fn events_out_of_phase_are_rejected() {
    let mut exec = executor(2);
    for event in [Event::TargetStarted, Event::SourceExhausted, Event::ProbeFinished(0)] {
        assert_eq!(exec.handle(event), Err(Rejected { phase: Phase::Idle, event }));
    }
    exec.handle(Event::Start).unwrap();
    assert_eq!(
        exec.handle(Event::Start),
        Err(Rejected { phase: Phase::Dispatching, event: Event::Start })
    );
    exec.handle(Event::TargetStarted).unwrap();
    exec.handle(Event::SourceExhausted).unwrap();
    for event in [Event::Start, Event::TargetStarted, Event::SourceExhausted] {
        assert_eq!(exec.handle(event), Err(Rejected { phase: Phase::Draining, event }));
    }
    exec.handle(Event::ProbeFinished(0)).unwrap();
    for event in
        [Event::Start, Event::TargetStarted, Event::SourceExhausted, Event::ProbeFinished(0)]
    {
        assert_eq!(exec.handle(event), Err(Rejected { phase: Phase::Done, event }));
    }
}

#[test]
fn scan_without_targets_is_done_at_once() {
    let mut exec = executor(5);
    assert_eq!(exec.handle(Event::Start), Ok(Directive::Dispatch));
    assert_eq!(exec.handle(Event::SourceExhausted), Ok(Directive::Halt));
    assert!(exec.is_done());
    assert_eq!(exec.started(), 0);
}

/// Drives a scan of `targets` probes as the directives say, finishing probes
/// in an order taken from `seed`, and returns the tickets in completion order
/// with the highest number of probes ever in flight.
fn drive(limit: usize, targets: u64, mut seed: u64) -> (Vec<u64>, usize) {
    let mut exec = executor(limit);
    let mut flying: Vec<u64> = Vec::new();
    let mut finished: Vec<u64> = Vec::new();
    let mut peak = 0usize;
    let mut directive = exec.directive();
    loop {
        assert!(exec.in_flight() <= limit);
        assert_eq!(exec.in_flight(), flying.len());
        peak = peak.max(exec.in_flight());
        directive = match directive {
            Directive::Begin => exec.handle(Event::Start).unwrap(),
            Directive::Dispatch => {
                if exec.started() < targets {
                    flying.push(exec.started());
                    exec.handle(Event::TargetStarted).unwrap()
                } else {
                    exec.handle(Event::SourceExhausted).unwrap()
                }
            }
            Directive::Await => {
                seed = seed.wrapping_mul(6364136223846793005).wrapping_add(1442695040888963407);
                let ticket = flying.swap_remove((seed >> 33) as usize % flying.len());
                finished.push(ticket);
                exec.handle(Event::ProbeFinished(ticket)).unwrap()
            }
            Directive::Halt => break,
        };
    }
    assert!(exec.is_done());
    assert_eq!(exec.started(), targets);
    assert_eq!(exec.finished(), targets);
    (finished, peak)
}

#[test]
fn never_more_in_flight_than_the_limit() {
    for limit in [1usize, 2, 3, 10, 64] {
        for targets in [0u64, 1, 5, 100] {
            let (_, peak) = drive(limit, targets, limit as u64 * 31 + targets);
            assert!(peak <= limit);
            assert_eq!(peak as u64, targets.min(limit as u64));
        }
    }
}

#[test]
fn every_target_gets_exactly_one_outcome() {
    for (limit, targets, seed) in [(1usize, 7u64, 1u64), (3, 50, 2), (10, 1000, 3), (200, 150, 4)] {
        let (mut finished, _) = drive(limit, targets, seed);
        assert_eq!(finished.len() as u64, targets);
        finished.sort();
        assert_eq!(finished, (0..targets).collect::<Vec<u64>>());
    }
}
