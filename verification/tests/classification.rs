use probe_engine::classify::{classify, classify_status, Classification, Reason};
use probe_engine::outcome::{http_outcome, tcp_outcome, HttpResponse, ProbeTarget, TransportError};

fn http_target(path: &str) -> ProbeTarget {
    ProbeTarget::Http { address: "http://test.local/".to_string(), path: path.to_string() }
}

#[test]
fn success_statuses_are_interesting() {
    for status in [200u16, 301, 302] {
        assert_eq!(classify_status(status), Classification::Interesting(Reason::Success));
    }
}

#[test]
fn forbidden_is_potential() {
    assert_eq!(classify_status(403), Classification::Interesting(Reason::Potential));
}

#[test]
fn other_statuses_are_uninteresting() {
    for status in [0u16, 100, 199, 201, 204, 300, 303, 400, 401, 402, 404, 500, 65535] {
        assert_eq!(classify_status(status), Classification::Uninteresting);
    }
}

#[test]
fn missing_content_length_is_a_transport_error() {
    let answer = Ok(HttpResponse { status: 200, content_length: None });
    let outcome = http_outcome(http_target("admin"), answer, 5);
    assert!(matches!(outcome.result, Err(TransportError::MissingContentLength)));
    assert_eq!(classify(&outcome), Classification::Uninteresting);
}

#[test]
fn closed_port_is_uninteresting() {
    let target = ProbeTarget::Tcp { address: "127.0.0.1".to_string(), port: 20 };
    let outcome = tcp_outcome(target, false, 1000);
    assert!(matches!(outcome.result, Err(TransportError::NotOpen)));
    assert_eq!(classify(&outcome), Classification::Uninteresting);
}

#[test]
fn http_transport_errors_are_uninteresting() {
    for error in [
        TransportError::NotOpen,
        TransportError::TimedOut,
        TransportError::Unreachable,
        TransportError::MissingContentLength,
        TransportError::Other,
    ] {
        let outcome = http_outcome(http_target("admin"), Err(error), 1);
        assert_eq!(outcome.result.as_ref().err(), Some(&error));
        assert_eq!(classify(&outcome), Classification::Uninteresting);
    }
}

#[test]
fn http_answers_are_classified_by_status() {
    let cases = [
        (200u16, Classification::Interesting(Reason::Success)),
        (301, Classification::Interesting(Reason::Success)),
        (302, Classification::Interesting(Reason::Success)),
        (403, Classification::Interesting(Reason::Potential)),
        (404, Classification::Uninteresting),
        (500, Classification::Uninteresting),
    ];
    for (status, expected) in cases {
        let answer = Ok(HttpResponse { status, content_length: Some("0".to_string()) });
        let outcome = http_outcome(http_target("p"), answer, 2);
        assert_eq!(outcome.elapsed_ms, 2);
        assert_eq!(classify(&outcome), expected);
    }
}

#[test]
fn payload_of_the_wrong_kind_is_inconclusive() {
    let target = ProbeTarget::Tcp { address: "127.0.0.1".to_string(), port: 80 };
    let answer = Ok(HttpResponse { status: 200, content_length: Some("1".to_string()) });
    assert_eq!(classify(&http_outcome(target, answer, 1)), Classification::Inconclusive);
    assert_eq!(classify(&tcp_outcome(http_target("a"), true, 1)), Classification::Inconclusive);
}
