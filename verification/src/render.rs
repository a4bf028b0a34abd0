//! The lines of a report, as text for people to read.

use vstd::prelude::*;
use vstd::string::*;
use colored::Colorize;
use crate::classify::{classification, classify_status, Classification, Reason};
use crate::config::ConfigError;
use crate::decimal::{all_digits, append_decimal, decimal_string, decimal_text, lemma_decimal_text};
use crate::outcome::{OutcomeView, Payload, PayloadView, ProbeOutcome, ProbeTarget, TargetView};
use crate::report::{TcpReport, TcpReportView};

verus! {

/// The colour in which a status is shown.
#[derive(Clone, Copy, Debug, PartialEq, Eq, Structural)]
pub enum Tone {
    Green,
    Yellow,
}

/// The character that opens a terminal control sequence.
pub open spec fn escape() -> char {
    '\u{1b}'
}

/// The control sequence that switches a terminal to `tone`.
pub open spec fn tone_start(tone: Tone) -> Seq<char> {
    match tone {
        Tone::Green => seq![escape(), '[', '3', '2', 'm'],
        Tone::Yellow => seq![escape(), '[', '3', '3', 'm'],
    }
}

/// The control sequence that switches a terminal back to its normal colour.
pub open spec fn tone_reset() -> Seq<char> {
    seq![escape(), '[', '0', 'm']
}

/// Whether `painted` is `text` as shown in `tone`: the text itself where
/// colours are switched off, and else the text between the control sequences
/// for the tone and for the reset. Whether colours are on is a matter of the
/// terminal and the environment, and may change while a text is being painted,
/// so the opening sequence may be missing before a text that is followed by a
/// reset.
pub open spec fn is_painted(painted: Seq<char>, text: Seq<char>, tone: Tone) -> bool {
    ||| painted == text
    ||| painted == text + tone_reset()
    ||| painted == tone_start(tone) + text + tone_reset()
}

/// The tone in which a status of the category `reason` is shown.
pub open spec fn tone_of(reason: Reason) -> Tone {
    match reason {
        Reason::Potential => Tone::Yellow,
        _ => Tone::Green,
    }
}

/// Renders `text` in green with `colored::Colorize::green`.
///
/// Trusted: for a text without an escape character, the rendering is the text
/// unchanged where `colored` has colours switched off, and the text between
/// `ESC[32m` and `ESC[0m` where it has them on; `colored` looks up whether
/// they are on more than once while it renders, so the opening sequence alone
/// may be missing.
#[verifier::external_body]
fn paint_green(text: &str) -> (painted: String)
    requires
        !text@.contains(escape()),
    ensures
        is_painted(painted@, text@, Tone::Green),
{
    text.green().to_string()
}

/// Renders `text` in yellow with `colored::Colorize::yellow`.
///
/// Trusted: as for green, with `ESC[33m` as the opening sequence.
#[verifier::external_body]
fn paint_yellow(text: &str) -> (painted: String)
    requires
        !text@.contains(escape()),
    ensures
        is_painted(painted@, text@, Tone::Yellow),
{
    text.yellow().to_string()
}

/// What stands between the parts of a line.
pub open spec fn separator() -> Seq<char> {
    seq![' ', '-', ' ']
}

/// The line that reports an interesting HTTP response: URL, status and, where
/// the response told it, the content length.
pub open spec fn hit_line_text(
    url: Seq<char>,
    status: Seq<char>,
    content_length: Option<Seq<char>>,
) -> Seq<char> {
    match content_length {
        Some(length) => url + separator() + status + separator() + length,
        None => url + separator() + status,
    }
}

/// What is reported of an interesting HTTP outcome.
pub struct HttpHit {
    pub url: Seq<char>,
    pub status: u16,
    pub reason: Reason,
    pub content_length: Option<Seq<char>>,
}

/// What is reported of an outcome of an HTTP probe: something if and only if
/// the outcome is interesting.
pub open spec fn http_hit(outcome: OutcomeView) -> Option<HttpHit> {
    match (outcome.target, outcome.result, classification(outcome)) {
        (
            TargetView::Http { address, path },
            Ok(PayloadView::Http(response)),
            Classification::Interesting(reason),
        ) => Some(
            HttpHit {
                url: address + path,
                status: response.status,
                reason,
                content_length: response.content_length,
            },
        ),
        _ => None,
    }
}

/// Whether `line` reports `hit`, with the status painted in the tone of its
/// category.
pub open spec fn is_hit_line(line: Seq<char>, hit: HttpHit) -> bool {
    let status = decimal_text(hit.status as nat);
    let tone = tone_of(hit.reason);
    ||| line == hit_line_text(hit.url, status, hit.content_length)
    ||| line == hit_line_text(hit.url, status + tone_reset(), hit.content_length)
    ||| line == hit_line_text(
        hit.url,
        tone_start(tone) + status + tone_reset(),
        hit.content_length,
    )
}

/// Puts the line for an interesting HTTP response together from its parts.
/// `status` is the status as it is to appear, painted or not.
pub fn hit_line(url: &str, status: &str, content_length: Option<&str>) -> (line: String)
    ensures
        line@ == hit_line_text(
            url@,
            status@,
            match content_length {
                Some(length) => Some(length@),
                None => None,
            },
        ),
{
    proof {
        reveal_strlit(" - ");
    }
    assert(" - "@ =~= separator());
    let mut line = url.to_owned();
    line.append(" - ");
    line.append(status);
    match content_length {
        Some(length) => {
            line.append(" - ");
            line.append(length);
        },
        None => {},
    }
    line
}

/// Shows `text` in `tone`.
fn paint(text: &str, tone: Tone) -> (painted: String)
    requires
        !text@.contains(escape()),
    ensures
        is_painted(painted@, text@, tone),
{
    match tone {
        Tone::Green => paint_green(text),
        Tone::Yellow => paint_yellow(text),
    }
}

/// The line to print for an outcome of an HTTP probe, as soon as it is there:
/// a line if and only if the outcome is interesting, with the status in green
/// for a page that exists and in yellow for one that is forbidden.
pub fn render_http_hit(outcome: &ProbeOutcome) -> (line: Option<String>)
    ensures
        match http_hit(outcome@) {
            Some(hit) => line.is_some() && is_hit_line(line.unwrap()@, hit),
            None => line.is_none(),
        },
{
    let (address, path) = match &outcome.target {
        ProbeTarget::Http { address, path } => (address, path),
        ProbeTarget::Tcp { .. } => {
            return None;
        },
    };
    let response = match &outcome.result {
        Ok(Payload::Http(response)) => response,
        _ => {
            return None;
        },
    };
    let tone = match classify_status(response.status) {
        Classification::Interesting(Reason::Potential) => Tone::Yellow,
        Classification::Interesting(_) => Tone::Green,
        _ => {
            return None;
        },
    };
    let status = decimal_string(response.status as u64);
    proof {
        lemma_decimal_text(response.status as nat);
        assert forall|i: int| 0 <= i < status@.len() implies status@[i] != escape() by {
            assert(crate::decimal::is_digit(status@[i]));
        }
    }
    let painted = paint(status.as_str(), tone);
    let mut url = address.clone();
    url.append(path.as_str());
    let line = match &response.content_length {
        Some(length) => hit_line(url.as_str(), painted.as_str(), Some(length.as_str())),
        None => hit_line(url.as_str(), painted.as_str(), None),
    };
    Some(line)
}

/// The line that reports one open port.
pub open spec fn open_port_text(port: u16) -> Seq<char> {
    "[+] Port "@ + decimal_text(port as nat) + " is open"@
}

/// The line to print as soon as a port is found open.
pub fn open_port_line(port: u16) -> (line: String)
    ensures
        line@ == open_port_text(port),
{
    let mut line = "[+] Port ".to_owned();
    append_decimal(&mut line, port as u64);
    line.append(" is open");
    line
}

/// Ports as a list: their numerals, with a comma and a blank between each two.
pub open spec fn port_list_text(ports: Seq<u16>) -> Seq<char>
    decreases ports.len(),
{
    if ports.len() == 0 {
        Seq::empty()
    } else if ports.len() == 1 {
        decimal_text(ports[0] as nat)
    } else {
        port_list_text(ports.drop_last()) + ", "@ + decimal_text(ports.last() as nat)
    }
}

/// The closing line of a port scan.
pub open spec fn tcp_report_text(report: TcpReportView) -> Seq<char> {
    match report {
        TcpReportView::NoOpenPorts => "No open ports found"@,
        TcpReportView::OpenPorts(ports) => "Open ports: ["@ + port_list_text(ports) + "]"@,
    }
}

/// The closing line of a port scan: the open ports as a list, or the statement
/// that there is none.
pub fn tcp_report_line(report: &TcpReport) -> (line: String)
    ensures
        line@ == tcp_report_text(report@),
{
    match report {
        TcpReport::NoOpenPorts => "No open ports found".to_owned(),
        TcpReport::OpenPorts(ports) => {
            let mut line = "Open ports: [".to_owned();
            let ghost opening = line@;
            let mut at: usize = 0;
            while at < ports.len()
                invariant
                    at <= ports.len(),
                    opening == "Open ports: ["@,
                    line@ == opening + port_list_text(ports@.take(at as int)),
                decreases ports.len() - at,
            {
                if at > 0 {
                    line.append(", ");
                }
                append_decimal(&mut line, ports[at] as u64);
                proof {
                    assert(ports@.take(at + 1).drop_last() =~= ports@.take(at as int));
                    assert(ports@.take(at + 1).last() == ports@[at as int]);
                    if at == 0 {
                        assert(port_list_text(ports@.take(0)) =~= Seq::<char>::empty());
                        assert(ports@.take(1)[0] == ports@[0]);
                    }
                    assert(line@ =~= opening + port_list_text(ports@.take(at + 1)));
                }
                at = at + 1;
            }
            assert(ports@.take(at as int) =~= ports@);
            line.append("]");
            line
        },
    }
}

/// The line that closes every scan.
pub open spec fn elapsed_text(seconds: u64) -> Seq<char> {
    "Scan completed in "@ + decimal_text(seconds as nat) + " seconds"@
}

/// The line that closes every scan, with the time it took in whole seconds.
pub fn elapsed_line(seconds: u64) -> (line: String)
    ensures
        line@ == elapsed_text(seconds),
{
    let mut line = "Scan completed in ".to_owned();
    append_decimal(&mut line, seconds);
    line.append(" seconds");
    line
}

/// The diagnostic for a fault of the configuration.
pub open spec fn config_error_text(error: ConfigError) -> Seq<char> {
    match error {
        ConfigError::UnparsablePort => "[-] Invalid port"@,
        ConfigError::InvalidPortRange => "[-] Invalid port range"@,
        ConfigError::UnparsableAddress => "[-] Invalid IP address"@,
        ConfigError::UnreadableWordlist => "[-] Unreadable wordlist"@,
        ConfigError::ZeroConcurrency => "[-] Invalid number of threads"@,
    }
}

/// The diagnostic to print for a fault of the configuration.
pub fn config_error_line(error: ConfigError) -> (line: String)
    ensures
        line@ == config_error_text(error),
{
    match error {
        ConfigError::UnparsablePort => "[-] Invalid port".to_owned(),
        ConfigError::InvalidPortRange => "[-] Invalid port range".to_owned(),
        ConfigError::UnparsableAddress => "[-] Invalid IP address".to_owned(),
        ConfigError::UnreadableWordlist => "[-] Unreadable wordlist".to_owned(),
        ConfigError::ZeroConcurrency => "[-] Invalid number of threads".to_owned(),
    }
}

} // verus!
