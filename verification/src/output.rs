//! The text the monitor emits per outcome: the console line the operator
//! reads and the durable audit-log record.  Writing either anywhere is the
//! caller's concern; this module only fixes their content.

use vstd::prelude::*;

use vstd::string::StringExecFns;

use crate::codec::enc_outcome;
use crate::codec::push_dec;
use crate::codec::push_dec_signed;
use crate::codec::push_outcome;
use crate::digits::dec_rep;
use crate::digits::dec_rep_int;
use crate::model::CheckResult;
use crate::model::CheckStatus;
use crate::model::result_wf;

verus! {

/// The reported response time: the latency in milliseconds, or zero when no
/// response arrived.
pub open spec fn reported_ms(r: CheckResult) -> nat {
    match r.response_time_ms {
        Some(ms) => ms as nat,
        None => 0,
    }
}

/// The console line for one outcome: an Up line carries the response time
/// and the delta against the previous outcome (a dash placeholder when that
/// is absent); a Down or Error line only names the condition.
pub open spec fn log_line_spec(url: Seq<char>, r: CheckResult) -> Seq<char> {
    match r.status {
        CheckStatus::Up => "[OK] "@ + url + " response_time="@ + dec_rep(reported_ms(r))
            + "ms diff_from_prev="@ + (match r.diff_from_prev {
            Some(d) => dec_rep_int(d as int) + "ms"@,
            None => " -"@,
        }),
        CheckStatus::Down => "[NG] "@ + url + " down"@,
        CheckStatus::Error => "[ERR] "@ + url + " error"@,
    }
}

/// Builds the console line for one outcome.
pub fn log_line(url: &str, r: &CheckResult) -> (out: String)
    requires
        result_wf(*r),
    ensures
        out@ == log_line_spec(url@, *r),
{
    let mut out = String::new();
    match r.status {
        CheckStatus::Up => {
            out.append("[OK] ");
            out.append(url);
            out.append(" response_time=");
            match r.response_time_ms {
                Some(ms) => push_dec(&mut out, ms),
                None => push_dec(&mut out, 0),
            }
            out.append("ms diff_from_prev=");
            match r.diff_from_prev {
                Some(d) => {
                    push_dec_signed(&mut out, d);
                    out.append("ms");
                },
                None => {
                    out.append(" -");
                },
            }
            assert(out@ =~= log_line_spec(url@, *r));
        },
        CheckStatus::Down => {
            out.append("[NG] ");
            out.append(url);
            out.append(" down");
            assert(out@ =~= log_line_spec(url@, *r));
        },
        CheckStatus::Error => {
            out.append("[ERR] ");
            out.append(url);
            out.append(" error");
            assert(out@ =~= log_line_spec(url@, *r));
        },
    }
    out
}

/// One audit-log record: a single line of JSON, independently parseable,
/// carrying the endpoint, the reported response time, and the full stored
/// outcome.
pub open spec fn log_record_spec(url: Seq<char>, r: CheckResult) -> Seq<char> {
    "{\"url\":\""@ + url + "\",\"response_time_ms\":"@ + dec_rep(reported_ms(r))
        + ",\"result\":"@ + enc_outcome(r) + "}"@
}

/// Builds the audit-log record for one outcome.
pub fn log_record(url: &str, r: &CheckResult) -> (out: String)
    requires
        result_wf(*r),
    ensures
        out@ == log_record_spec(url@, *r),
{
    let mut out = String::new();
    out.append("{\"url\":\"");
    out.append(url);
    out.append("\",\"response_time_ms\":");
    match r.response_time_ms {
        Some(ms) => push_dec(&mut out, ms),
        None => push_dec(&mut out, 0),
    }
    out.append(",\"result\":");
    push_outcome(&mut out, r);
    out.append("}");
    assert(out@ =~= log_record_spec(url@, *r));
    out
}

} // verus!
