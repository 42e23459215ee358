//! Classification of a single probe.  The network call itself is the
//! caller's concern; this module turns what came back — a status code and an
//! elapsed time, or nothing — into a [`CheckResult`], exactly as the probe
//! executor contract prescribes: a successful status code is Up, any other
//! response is Down with its latency still recorded, and no response at all
//! is Error with no latency.

use vstd::prelude::*;

use crate::model::CheckResult;
use crate::model::CheckStatus;

verus! {

/// What one network probe yielded, stripped to plain values.
#[derive(Clone, Copy, Debug, PartialEq, Eq)]
pub enum ProbeResponse {
    /// A response arrived within the timeout, with this status code, after
    /// this many milliseconds.
    Responded { status_code: u16, elapsed_ms: u64 },
    /// No response: timeout, connection refusal, DNS failure, or any other
    /// transport-level error.
    Failed,
}

/// Whether a status code counts as successful (2xx).
pub open spec fn spec_is_success(code: u16) -> bool {
    200 <= code < 300
}

/// The classification a probe response receives.
pub open spec fn spec_classify(resp: ProbeResponse) -> CheckStatus {
    match resp {
        ProbeResponse::Responded { status_code, .. } => if spec_is_success(status_code) {
            CheckStatus::Up
        } else {
            CheckStatus::Down
        },
        ProbeResponse::Failed => CheckStatus::Error,
    }
}

/// The outcome a probe response becomes, before insertion into a history:
/// classified status, latency exactly when a response arrived, both deltas
/// absent (they are derived at insertion time).
pub open spec fn spec_outcome(resp: ProbeResponse, timestamp_ms: i64) -> CheckResult {
    CheckResult {
        timestamp_ms,
        status: spec_classify(resp),
        response_time_ms: match resp {
            ProbeResponse::Responded { elapsed_ms, .. } => Some(elapsed_ms),
            ProbeResponse::Failed => None,
        },
        diff_from_prev: None,
        diff_from_acceptable: None,
    }
}

/// Builds the outcome for a probe response completed at `timestamp_ms`.
pub fn outcome_from_probe(resp: &ProbeResponse, timestamp_ms: i64) -> (r: CheckResult)
    ensures
        r == spec_outcome(*resp, timestamp_ms),
{
    match *resp {
        ProbeResponse::Responded { status_code, elapsed_ms } => CheckResult {
            timestamp_ms,
            status: if 200 <= status_code && status_code < 300 {
                CheckStatus::Up
            } else {
                CheckStatus::Down
            },
            response_time_ms: Some(elapsed_ms),
            diff_from_prev: None,
            diff_from_acceptable: None,
        },
        ProbeResponse::Failed => CheckResult {
            timestamp_ms,
            status: CheckStatus::Error,
            response_time_ms: None,
            diff_from_prev: None,
            diff_from_acceptable: None,
        },
    }
}

/// Relies on chrono::Utc::now for the current instant, read off as
/// milliseconds since the Unix epoch via DateTime::timestamp_millis.
/// Nothing can be promised of a clock reading beyond its type.
#[verifier::external_body]
fn now_utc_ms() -> i64 {
    chrono::Utc::now().timestamp_millis()
}

/// Builds the outcome for a probe response that completed just now: like
/// [`outcome_from_probe`], with the completion instant read from the system
/// clock, of which nothing further is promised.
pub fn check_outcome(resp: &ProbeResponse) -> (r: CheckResult)
    ensures
        r == spec_outcome(*resp, r.timestamp_ms),
{
    let now = now_utc_ms();
    outcome_from_probe(resp, now)
}

} // verus!
