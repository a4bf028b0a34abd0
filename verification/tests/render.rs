use probe_engine::config::ConfigError;
use probe_engine::outcome::{http_outcome, tcp_outcome, HttpResponse, ProbeOutcome, ProbeTarget, TransportError};
use probe_engine::render::{
    config_error_line, elapsed_line, hit_line, open_port_line, render_http_hit, tcp_report_line,
};
use probe_engine::report::TcpReport;

fn answer(path: &str, status: u16, length: Option<&str>) -> ProbeOutcome {
    let target =
        ProbeTarget::Http { address: "http://test.local/".to_string(), path: path.to_string() };
    let response = HttpResponse { status, content_length: length.map(|text| text.to_string()) };
    http_outcome(target, Ok(response), 12)
}

#[test]
fn hit_line_joins_its_parts() {
    assert_eq!(hit_line("http://h/a", "200", Some("1234")), "http://h/a - 200 - 1234");
    assert_eq!(hit_line("http://h/a", "403", None), "http://h/a - 403");
    assert_eq!(hit_line("", "", Some("")), " -  - ");
}

#[test]
fn success_is_painted_green() {
    colored::control::set_override(true);
    let line = render_http_hit(&answer("admin", 200, Some("512"))).unwrap();
    assert_eq!(line, "http://test.local/admin - \u{1b}[32m200\u{1b}[0m - 512");
    let line = render_http_hit(&answer("moved", 301, Some("0"))).unwrap();
    assert_eq!(line, "http://test.local/moved - \u{1b}[32m301\u{1b}[0m - 0");
    let line = render_http_hit(&answer("found", 302, Some("7"))).unwrap();
    assert_eq!(line, "http://test.local/found - \u{1b}[32m302\u{1b}[0m - 7");
}

#[test]
fn forbidden_is_painted_yellow() {
    colored::control::set_override(true);
    let line = render_http_hit(&answer("x", 403, Some("9"))).unwrap();
    assert_eq!(line, "http://test.local/x - \u{1b}[33m403\u{1b}[0m - 9");
}

#[test]
fn colours_switched_off_leave_the_status_plain() {
    colored::control::set_override(false);
    let line = render_http_hit(&answer("admin", 200, Some("512"))).unwrap();
    assert_eq!(line, "http://test.local/admin - 200 - 512");
}

#[test]
fn uninteresting_outcomes_print_nothing() {
    assert!(render_http_hit(&answer("login", 404, Some("10"))).is_none());
    assert!(render_http_hit(&answer("login", 500, Some("10"))).is_none());
    assert!(render_http_hit(&answer("nolength", 200, None)).is_none());
    let target = ProbeTarget::Http { address: "http://h/".to_string(), path: "a".to_string() };
    assert!(render_http_hit(&http_outcome(target, Err(TransportError::TimedOut), 1)).is_none());
    let target = ProbeTarget::Tcp { address: "127.0.0.1".to_string(), port: 80 };
    assert!(render_http_hit(&tcp_outcome(target, true, 1)).is_none());
}

#[test]
fn wordlist_scenario_prints_admin_and_x_only() {
    colored::control::set_override(false);
    let outcomes =
        [answer("admin", 200, Some("100")), answer("login", 404, Some("5")), answer("x", 403, Some("7"))];
    let lines: Vec<String> = outcomes.iter().filter_map(render_http_hit).collect();
    assert_eq!(lines, vec!["http://test.local/admin - 200 - 100", "http://test.local/x - 403 - 7"]);
}

#[test]
fn port_lines() {
    assert_eq!(open_port_line(22), "[+] Port 22 is open");
    assert_eq!(open_port_line(0), "[+] Port 0 is open");
    assert_eq!(open_port_line(65535), "[+] Port 65535 is open");
}

#[test]
fn report_lines() {
    assert_eq!(tcp_report_line(&TcpReport::NoOpenPorts), "No open ports found");
    assert_eq!(tcp_report_line(&TcpReport::OpenPorts(vec![22])), "Open ports: [22]");
    assert_eq!(
        tcp_report_line(&TcpReport::OpenPorts(vec![22, 80, 443])),
        format!("Open ports: {:?}", vec![22, 80, 443])
    );
    assert_eq!(tcp_report_line(&TcpReport::OpenPorts(vec![])), "Open ports: []");
}

#[test]
fn elapsed_lines() {
    assert_eq!(elapsed_line(0), "Scan completed in 0 seconds");
    assert_eq!(elapsed_line(125), "Scan completed in 125 seconds");
}

#[test]
fn each_configuration_error_has_its_line() {
    assert_eq!(config_error_line(ConfigError::UnparsablePort), "[-] Invalid port");
    assert_eq!(config_error_line(ConfigError::InvalidPortRange), "[-] Invalid port range");
    assert_eq!(config_error_line(ConfigError::UnparsableAddress), "[-] Invalid IP address");
    assert_eq!(config_error_line(ConfigError::UnreadableWordlist), "[-] Unreadable wordlist");
    assert_eq!(config_error_line(ConfigError::ZeroConcurrency), "[-] Invalid number of threads");
}
