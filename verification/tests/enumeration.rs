use probe_engine::config::{ConfigError, ScanConfig, DEFAULT_CONCURRENCY, DEFAULT_TIMEOUT_MS};
use probe_engine::outcome::ProbeTarget;
use probe_engine::target::{enumerate_http, http_target, TcpPlan};

fn urls(targets: &[ProbeTarget]) -> Vec<String> {
    targets.iter().map(|target| target.url().unwrap()).collect()
}

#[test]
fn one_target_per_non_empty_line() {
    let lines: Vec<String> =
        ["admin", "", "login", "x", ""].iter().map(|line| line.to_string()).collect();
    let targets = enumerate_http("http://test.local/", Some(&lines)).unwrap();
    assert_eq!(
        urls(&targets),
        vec!["http://test.local/admin", "http://test.local/login", "http://test.local/x"]
    );
}

#[test]
fn duplicate_lines_are_probed_twice() {
    let lines: Vec<String> = ["a", "a", "b", "a"].iter().map(|line| line.to_string()).collect();
    let targets = enumerate_http("http://h/", Some(&lines)).unwrap();
    assert_eq!(urls(&targets), vec!["http://h/a", "http://h/a", "http://h/b", "http://h/a"]);
}

#[test]
fn url_is_plain_concatenation() {
    let target = http_target("http://h", "/a//b/../c").unwrap();
    assert_eq!(target.url().unwrap(), "http://h/a//b/../c");
    let target = http_target("http://h/", "/a").unwrap();
    assert_eq!(target.url().unwrap(), "http://h//a");
    assert!(http_target("http://h/", "").is_none());
    let copy = target.duplicate();
    assert_eq!(copy.url(), target.url());
}

#[test]
fn empty_wordlist_gives_no_target() {
    let lines: Vec<String> = Vec::new();
    assert!(enumerate_http("http://h/", Some(&lines)).unwrap().is_empty());
}

#[test]
fn unreadable_wordlist_is_a_configuration_error() {
    assert!(matches!(enumerate_http("http://h/", None), Err(ConfigError::UnreadableWordlist)));
}

#[test]
fn tcp_plan_enumerates_ports_in_ascending_order() {
    let plan = TcpPlan::new("127.0.0.1", true, "20-22").unwrap();
    assert_eq!(plan.len(), 3);
    for (index, port) in [20u16, 21, 22].iter().enumerate() {
        match plan.target(index as u32).unwrap() {
            ProbeTarget::Tcp { address, port: found } => {
                assert_eq!(address, "127.0.0.1");
                assert_eq!(found, *port);
            }
            ProbeTarget::Http { .. } => panic!("a port scan has TCP targets only"),
        }
    }
    assert!(plan.target(3).is_none());
    assert_eq!(plan.range().first(), 20);
    assert_eq!(plan.range().last(), 22);
    assert!(plan.target(0).unwrap().url().is_none());
}

#[test]
fn tcp_plan_of_a_single_port_has_one_target() {
    let plan = TcpPlan::new("10.0.0.1", true, "443").unwrap();
    assert_eq!(plan.len(), 1);
    assert!(plan.target(1).is_none());
}

#[test]
fn tcp_plan_refuses_faulty_configurations() {
    assert!(matches!(TcpPlan::new("127.0.0.1", true, "100-50"), Err(ConfigError::InvalidPortRange)));
    assert!(matches!(TcpPlan::new("127.0.0.1", true, "http"), Err(ConfigError::UnparsablePort)));
    assert!(matches!(TcpPlan::new("nowhere", false, "80"), Err(ConfigError::UnparsableAddress)));
    assert!(matches!(TcpPlan::new("nowhere", false, "100-50"), Err(ConfigError::InvalidPortRange)));
}

#[test]
fn configuration_keeps_its_limits() {
    let config = ScanConfig::new(4, 250).unwrap();
    assert_eq!(config.concurrency_limit(), 4);
    assert_eq!(config.per_probe_timeout_ms(), 250);
    assert!(matches!(ScanConfig::new(0, 250), Err(ConfigError::ZeroConcurrency)));
    let standard = ScanConfig::standard();
    assert_eq!(standard.concurrency_limit(), DEFAULT_CONCURRENCY);
    assert_eq!(standard.concurrency_limit(), 10);
    assert_eq!(standard.per_probe_timeout_ms(), DEFAULT_TIMEOUT_MS);
    assert_eq!(standard.per_probe_timeout_ms(), 1000);
}
