//! What a probe acts on and what comes back from it.

use vstd::prelude::*;
use vstd::string::*;

verus! {

/// What one probe acts on. Immutable once enumerated.
#[derive(Debug)]
pub enum ProbeTarget {
    /// An HTTP GET of `address` followed directly by `path`.
    Http { address: String, path: String },
    /// A TCP connection to `port` at `address`.
    Tcp { address: String, port: u16 },
}

/// The mathematical value of a [`ProbeTarget`].
pub enum TargetView {
    Http { address: Seq<char>, path: Seq<char> },
    Tcp { address: Seq<char>, port: u16 },
}

impl View for ProbeTarget {
    type V = TargetView;

    open spec fn view(&self) -> TargetView {
        match self {
            ProbeTarget::Http { address, path } => TargetView::Http {
                address: address@,
                path: path@,
            },
            ProbeTarget::Tcp { address, port } => TargetView::Tcp {
                address: address@,
                port: *port,
            },
        }
    }
}

impl TargetView {
    /// The URL that an HTTP probe requests: address and path, joined as they
    /// are, with nothing put between them and nothing normalized. A TCP target
    /// has none.
    pub open spec fn url(self) -> Option<Seq<char>> {
        match self {
            TargetView::Http { address, path } => Some(address + path),
            TargetView::Tcp { .. } => None,
        }
    }
}

impl ProbeTarget {
    /// The URL that an HTTP probe requests, or `None` for a TCP target.
    pub fn url(&self) -> (url: Option<String>)
        ensures
            match self@.url() {
                Some(text) => url.is_some() && url.unwrap()@ == text,
                None => url.is_none(),
            },
    {
        match self {
            ProbeTarget::Http { address, path } => {
                let mut url = address.clone();
                url.append(path.as_str());
                Some(url)
            },
            ProbeTarget::Tcp { .. } => None,
        }
    }

    /// A copy of this target.
    pub fn duplicate(&self) -> (copy: ProbeTarget)
        ensures
            copy@ == self@,
    {
        match self {
            ProbeTarget::Http { address, path } => ProbeTarget::Http {
                address: address.clone(),
                path: path.clone(),
            },
            ProbeTarget::Tcp { address, port } => ProbeTarget::Tcp {
                address: address.clone(),
                port: *port,
            },
        }
    }
}

/// Why a probe came back without a payload. None of these is a failure of the
/// scan: each is local to its probe.
#[derive(Clone, Copy, Debug, PartialEq, Eq, Structural)]
pub enum TransportError {
    /// A TCP connection was not established. Refusal, timeout and unreachable
    /// hosts are deliberately not told apart.
    NotOpen,
    /// An HTTP request ran into its time limit.
    TimedOut,
    /// An HTTP request never reached the server (name resolution, refusal).
    Unreachable,
    /// The HTTP response carried no usable `content-length` header.
    MissingContentLength,
    /// Any other failure of the transport.
    Other,
}

/// What an HTTP server answered, as far as the engine looks at it.
#[derive(Debug)]
pub struct HttpResponse {
    pub status: u16,
    /// The `content-length` header as sent, if there was one.
    pub content_length: Option<String>,
}

/// The mathematical value of an [`HttpResponse`].
pub struct HttpResponseView {
    pub status: u16,
    pub content_length: Option<Seq<char>>,
}

impl View for HttpResponse {
    type V = HttpResponseView;

    open spec fn view(&self) -> HttpResponseView {
        HttpResponseView {
            status: self.status,
            content_length: match self.content_length {
                Some(text) => Some(text@),
                None => None,
            },
        }
    }
}

/// What a successful probe brought back.
#[derive(Debug)]
pub enum Payload {
    Http(HttpResponse),
    /// A TCP connection was established (and closed again).
    Tcp,
}

/// The mathematical value of a [`Payload`].
pub enum PayloadView {
    Http(HttpResponseView),
    Tcp,
}

impl View for Payload {
    type V = PayloadView;

    open spec fn view(&self) -> PayloadView {
        match self {
            Payload::Http(response) => PayloadView::Http(response@),
            Payload::Tcp => PayloadView::Tcp,
        }
    }
}

/// The result of exactly one probe execution.
#[derive(Debug)]
pub struct ProbeOutcome {
    pub target: ProbeTarget,
    pub result: Result<Payload, TransportError>,
    pub elapsed_ms: u64,
}

/// The mathematical value of a [`ProbeOutcome`].
pub struct OutcomeView {
    pub target: TargetView,
    pub result: Result<PayloadView, TransportError>,
    pub elapsed_ms: u64,
}

impl View for ProbeOutcome {
    type V = OutcomeView;

    open spec fn view(&self) -> OutcomeView {
        OutcomeView {
            target: self.target@,
            result: match self.result {
                Ok(payload) => Ok(payload@),
                Err(error) => Err(error),
            },
            elapsed_ms: self.elapsed_ms,
        }
    }
}

/// The outcome of an HTTP probe, given what the HTTP client reported.
///
/// The `content-length` header is mandatory: an answer without it counts as a
/// transport error of its probe, whatever its status.
pub open spec fn http_result(answer: Result<HttpResponseView, TransportError>) -> Result<
    PayloadView,
    TransportError,
> {
    match answer {
        Ok(response) => match response.content_length {
            Some(_) => Ok(PayloadView::Http(response)),
            None => Err(TransportError::MissingContentLength),
        },
        Err(error) => Err(error),
    }
}

/// The outcome of a TCP probe, given whether the connection was established.
pub open spec fn tcp_result(connected: bool) -> Result<PayloadView, TransportError> {
    if connected {
        Ok(PayloadView::Tcp)
    } else {
        Err(TransportError::NotOpen)
    }
}

/// Builds the outcome of an HTTP probe from the client's answer.
pub fn http_outcome(
    target: ProbeTarget,
    answer: Result<HttpResponse, TransportError>,
    elapsed_ms: u64,
) -> (outcome: ProbeOutcome)
    ensures
        outcome@.target == target@,
        outcome@.elapsed_ms == elapsed_ms,
        outcome@.result == http_result(
            match answer {
                Ok(response) => Ok(response@),
                Err(error) => Err(error),
            },
        ),
{
    let result = match answer {
        Ok(response) => {
            if response.content_length.is_some() {
                Ok(Payload::Http(response))
            } else {
                Err(TransportError::MissingContentLength)
            }
        },
        Err(error) => Err(error),
    };
    ProbeOutcome { target, result, elapsed_ms }
}

/// Builds the outcome of a TCP probe from the result of the connection attempt.
pub fn tcp_outcome(target: ProbeTarget, connected: bool, elapsed_ms: u64) -> (outcome: ProbeOutcome)
    ensures
        outcome@.target == target@,
        outcome@.elapsed_ms == elapsed_ms,
        outcome@.result == tcp_result(connected),
{
    let result = if connected {
        Ok(Payload::Tcp)
    } else {
        Err(TransportError::NotOpen)
    };
    ProbeOutcome { target, result, elapsed_ms }
}

} // verus!
