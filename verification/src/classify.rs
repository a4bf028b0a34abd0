//! The classifier: a total, pure function from outcomes to categories.

use vstd::prelude::*;
use crate::outcome::{
    OutcomeView, Payload, PayloadView, ProbeOutcome, ProbeTarget, TargetView, TransportError,
};

verus! {

/// Why an outcome is worth reporting.
#[derive(Clone, Copy, Debug, PartialEq, Eq, Structural)]
pub enum Reason {
    /// The page exists: status 200, 301 or 302.
    Success,
    /// The page may exist but is forbidden: status 403.
    Potential,
    /// The port accepted a connection.
    Open,
}

/// The semantic category of a probe outcome.
#[derive(Clone, Copy, Debug, PartialEq, Eq, Structural)]
pub enum Classification {
    Interesting(Reason),
    Uninteresting,
    /// The payload is not of the kind that the target asks for, so nothing can
    /// be said of the target.
    Inconclusive,
}

/// The category of an HTTP status code.
pub open spec fn status_classification(status: u16) -> Classification {
    if status == 200 || status == 301 || status == 302 {
        Classification::Interesting(Reason::Success)
    } else if status == 403 {
        Classification::Interesting(Reason::Potential)
    } else {
        Classification::Uninteresting
    }
}

/// The category of an outcome.
///
/// A transport error is absence of evidence, never an error of the scan: it is
/// uninteresting, for either kind of target.
pub open spec fn classification(outcome: OutcomeView) -> Classification {
    match outcome.result {
        Err(_) => Classification::Uninteresting,
        Ok(PayloadView::Http(response)) => match outcome.target {
            TargetView::Http { .. } => status_classification(response.status),
            TargetView::Tcp { .. } => Classification::Inconclusive,
        },
        Ok(PayloadView::Tcp) => match outcome.target {
            TargetView::Tcp { .. } => Classification::Interesting(Reason::Open),
            TargetView::Http { .. } => Classification::Inconclusive,
        },
    }
}

/// Classifies an HTTP status code.
pub fn classify_status(status: u16) -> (category: Classification)
    ensures
        category == status_classification(status),
{
    if status == 200 || status == 301 || status == 302 {
        Classification::Interesting(Reason::Success)
    } else if status == 403 {
        Classification::Interesting(Reason::Potential)
    } else {
        Classification::Uninteresting
    }
}

/// Classifies one outcome.
pub fn classify(outcome: &ProbeOutcome) -> (category: Classification)
    ensures
        category == classification(outcome@),
{
    match &outcome.result {
        Err(_) => Classification::Uninteresting,
        Ok(Payload::Http(response)) => match &outcome.target {
            ProbeTarget::Http { .. } => classify_status(response.status),
            ProbeTarget::Tcp { .. } => Classification::Inconclusive,
        },
        Ok(Payload::Tcp) => match &outcome.target {
            ProbeTarget::Tcp { .. } => Classification::Interesting(Reason::Open),
            ProbeTarget::Http { .. } => Classification::Inconclusive,
        },
    }
}

/// Classification of HTTP outcomes: an answer with status 200, 301 or 302 is a
/// success, one with status 403 a potential find, and one with any other
/// status is uninteresting.
pub proof fn lemma_http_classification(outcome: OutcomeView, status: u16)
    requires
        outcome.target is Http,
        outcome.result matches Ok(PayloadView::Http(response)) && response.status == status,
    ensures
        status == 200 || status == 301 || status == 302 ==> classification(outcome)
            == Classification::Interesting(Reason::Success),
        status == 403 ==> classification(outcome) == Classification::Interesting(
            Reason::Potential,
        ),
        status != 200 && status != 301 && status != 302 && status != 403 ==> classification(
            outcome,
        ) == Classification::Uninteresting,
{
}

/// Classification of TCP outcomes: an established connection shows an open
/// port, and every transport error, of whatever kind, is uninteresting.
pub proof fn lemma_tcp_classification(outcome: OutcomeView)
    requires
        outcome.target is Tcp,
    ensures
        outcome.result == Ok::<PayloadView, TransportError>(PayloadView::Tcp) ==> classification(
            outcome,
        ) == Classification::Interesting(Reason::Open),
        outcome.result is Err ==> classification(outcome) == Classification::Uninteresting,
{
}

/// An outcome is inconclusive exactly if its probe brought back a payload of
/// the other kind than its target asks for.
pub proof fn lemma_inconclusive(outcome: OutcomeView)
    ensures
        classification(outcome) == Classification::Inconclusive <==> (match outcome.result {
            Ok(PayloadView::Http(_)) => outcome.target is Tcp,
            Ok(PayloadView::Tcp) => outcome.target is Http,
            Err(_) => false,
        }),
{
}

} // verus!
