//! The snapshot document: a JSON rendering of the whole aggregate, written
//! anew after every tick and read back at startup.
//!
//! The document's top level maps each endpoint identifier to its history:
//!
//! ```text
//! {"<url>":{"acceptable_latency_ms":N,"results":[<outcome>,...]},...}
//! ```
//!
//! where each outcome is
//!
//! ```text
//! {"timestamp":T,"status":"Up","response_time":N,"diff_from_prev":D,
//!  "diff_from_acceptable":D}
//! ```
//!
//! with `null` standing for an absent value.  The reader also accepts a
//! history without the `"acceptable_latency_ms"` field (then zero) and an
//! outcome without the `"diff_from_acceptable"` field (then absent), so
//! documents written before those fields existed still recover; any other
//! deviation makes the whole document unreadable, and an unreadable or
//! absent document recovers as the empty aggregate — a first run.

use vstd::prelude::*;

use vstd::string::StrSliceExecFns;
use vstd::string::StringExecFns;

use std::collections::VecDeque;

use crate::MAX_HISTORY;
use crate::aggregate::Aggregate;
use crate::aggregate::agg_wf;
use crate::aggregate::seq_contains_url;
use crate::digits::dec_rep;
use crate::digits::digit_val;
use crate::digits::is_digit;
use crate::digits::lemma_dec_rep_digits;
use crate::digits::lemma_dec_rep_len;
use crate::digits::lemma_dec_rep_no_leading_zero;
use crate::digits::lemma_pow10_20;
use crate::digits::lemma_seq_val_of_rep;
use crate::digits::lemma_pow10_mono;
use crate::digits::pow10;
use crate::digits::seq_val;
use crate::digits::dec_rep_int;
use crate::digits::digit_char;
use crate::model::CheckHistory;
use crate::model::CheckResult;
use crate::model::CheckStatus;
use crate::model::HistoryView;
use crate::model::result_wf;

verus! {

// ---------------------------------------------------------------------------
// The document's text, over views.
// ---------------------------------------------------------------------------

/// Rendering of an optional latency value.
pub open spec fn enc_opt_u64(v: Option<u64>) -> Seq<char> {
    match v {
        Some(n) => dec_rep(n as nat),
        None => "null"@,
    }
}

/// Rendering of an optional signed delta.
pub open spec fn enc_opt_diff(v: Option<i128>) -> Seq<char> {
    match v {
        Some(d) => dec_rep_int(d as int),
        None => "null"@,
    }
}

/// Rendering of a status.
pub open spec fn enc_status(st: CheckStatus) -> Seq<char> {
    match st {
        CheckStatus::Up => "Up"@,
        CheckStatus::Down => "Down"@,
        CheckStatus::Error => "Error"@,
    }
}

/// Rendering of one outcome.
pub open spec fn enc_outcome(r: CheckResult) -> Seq<char> {
    "{\"timestamp\":"@ + dec_rep_int(r.timestamp_ms as int) + ",\"status\":\""@ + enc_status(
        r.status,
    ) + "\",\"response_time\":"@ + enc_opt_u64(r.response_time_ms) + ",\"diff_from_prev\":"@
        + enc_opt_diff(r.diff_from_prev) + ",\"diff_from_acceptable\":"@ + enc_opt_diff(
        r.diff_from_acceptable,
    ) + "}"@
}

/// Rendering of every outcome after the first, each with its separating
/// comma.
pub open spec fn enc_results_rest(rs: Seq<CheckResult>) -> Seq<char>
    decreases rs.len(),
{
    if rs.len() == 0 {
        Seq::<char>::empty()
    } else {
        ","@ + enc_outcome(rs[0]) + enc_results_rest(rs.drop_first())
    }
}

/// Rendering of an outcome list, without its surrounding brackets.
pub open spec fn enc_results(rs: Seq<CheckResult>) -> Seq<char> {
    if rs.len() == 0 {
        Seq::<char>::empty()
    } else {
        enc_outcome(rs[0]) + enc_results_rest(rs.drop_first())
    }
}

/// Rendering of one history, without its key.
pub open spec fn enc_hist(h: HistoryView) -> Seq<char> {
    "{\"acceptable_latency_ms\":"@ + dec_rep(h.acceptable_latency_ms as nat) + ",\"results\":["@
        + enc_results(h.results) + "]}"@
}

/// Rendering of one keyed entry of the top-level mapping.
pub open spec fn enc_entry(h: HistoryView) -> Seq<char> {
    "\""@ + h.url + "\":"@ + enc_hist(h)
}

/// Rendering of every entry after the first, each with its separating comma.
pub open spec fn enc_entries_rest(hs: Seq<HistoryView>) -> Seq<char>
    decreases hs.len(),
{
    if hs.len() == 0 {
        Seq::<char>::empty()
    } else {
        ","@ + enc_entry(hs[0]) + enc_entries_rest(hs.drop_first())
    }
}

/// Rendering of the entry list, without its surrounding braces.
pub open spec fn enc_entries(hs: Seq<HistoryView>) -> Seq<char> {
    if hs.len() == 0 {
        Seq::<char>::empty()
    } else {
        enc_entry(hs[0]) + enc_entries_rest(hs.drop_first())
    }
}

/// The whole snapshot document for an aggregate.
pub open spec fn enc_doc(hs: Seq<HistoryView>) -> Seq<char> {
    "{"@ + enc_entries(hs) + "}"@
}

// ---------------------------------------------------------------------------
// Reading the document: each parser takes a position and yields the parsed
// value with the position just past it, or nothing if the text deviates.
// ---------------------------------------------------------------------------

/// An endpoint identifier the document format can carry: it is delimited by
/// quotes and written without escapes, so it must not itself contain one.
pub open spec fn url_ok(u: Seq<char>) -> bool {
    forall|k: int| 0 <= k < u.len() ==> u[k] != '"'
}

/// Consumes exactly the literal `l` at `i`.
pub open spec fn parse_lit(s: Seq<char>, i: int, l: Seq<char>) -> Option<int> {
    if 0 <= i && i + l.len() <= s.len() && s.subrange(i, i + l.len()) == l {
        Some(i + l.len())
    } else {
        None
    }
}

/// First position at or after `i` that does not hold a digit.
pub open spec fn digits_end(s: Seq<char>, i: int) -> int
    decreases s.len() - i,
{
    if !(0 <= i < s.len()) {
        i
    } else if is_digit(s[i]) {
        digits_end(s, i + 1)
    } else {
        i
    }
}

/// Consumes a canonical unsigned number: one to twenty digits, no leading
/// zero except for zero itself.
pub open spec fn parse_nat(s: Seq<char>, i: int) -> Option<(nat, int)> {
    let e = digits_end(s, i);
    if !(0 <= i <= s.len()) {
        None
    } else if e == i {
        None
    } else if e - i > 20 {
        None
    } else if s[i] == '0' && e - i > 1 {
        None
    } else {
        Some((seq_val(s.subrange(i, e)), e))
    }
}

/// Consumes a canonical signed number: an optional minus sign, never before
/// a zero, then digits.
pub open spec fn parse_int(s: Seq<char>, i: int) -> Option<(int, int)> {
    if !(0 <= i < s.len()) {
        None
    } else if s[i] == '-' {
        match parse_nat(s, i + 1) {
            Some((v, e)) => if v == 0 {
                None
            } else {
                Some((-(v as int), e))
            },
            None => None,
        }
    } else {
        match parse_nat(s, i) {
            Some((v, e)) => Some((v as int, e)),
            None => None,
        }
    }
}

/// Consumes an optional latency: `null` or a number a `u64` can hold.
pub open spec fn parse_opt_u64(s: Seq<char>, i: int) -> Option<(Option<u64>, int)> {
    match parse_lit(s, i, "null"@) {
        Some(e) => Some((None, e)),
        None => match parse_nat(s, i) {
            Some((v, e)) => if v <= u64::MAX {
                Some((Some(v as u64), e))
            } else {
                None
            },
            None => None,
        },
    }
}

/// Consumes an optional delta: `null` or a number whose magnitude a `u64`
/// latency difference can reach.
pub open spec fn parse_opt_diff(s: Seq<char>, i: int) -> Option<(Option<i128>, int)> {
    match parse_lit(s, i, "null"@) {
        Some(e) => Some((None, e)),
        None => match parse_int(s, i) {
            Some((v, e)) => if -(u64::MAX as int) <= v <= u64::MAX as int {
                Some((Some(v as i128), e))
            } else {
                None
            },
            None => None,
        },
    }
}

/// Consumes a status name.
pub open spec fn parse_status(s: Seq<char>, i: int) -> Option<(CheckStatus, int)> {
    match parse_lit(s, i, "Up"@) {
        Some(e) => Some((CheckStatus::Up, e)),
        None => match parse_lit(s, i, "Down"@) {
            Some(e) => Some((CheckStatus::Down, e)),
            None => match parse_lit(s, i, "Error"@) {
                Some(e) => Some((CheckStatus::Error, e)),
                None => None,
            },
        },
    }
}

/// Consumes the tail of an outcome object, after the `diff_from_prev`
/// value: either the `diff_from_acceptable` field, or — in a document from
/// before that field existed — directly the closing brace, meaning absent.
pub open spec fn parse_outcome_tail(
    s: Seq<char>,
    i: int,
    ts: i64,
    st: CheckStatus,
    rt: Option<u64>,
    dp: Option<i128>,
) -> Option<(CheckResult, int)> {
    match parse_lit(s, i, ",\"diff_from_acceptable\":"@) {
        Some(i1) => match parse_opt_diff(s, i1) {
            Some((da, i2)) => match parse_lit(s, i2, "}"@) {
                Some(i3) => Some(
                    (
                        CheckResult {
                            timestamp_ms: ts,
                            status: st,
                            response_time_ms: rt,
                            diff_from_prev: dp,
                            diff_from_acceptable: da,
                        },
                        i3,
                    ),
                ),
                None => None,
            },
            None => None,
        },
        None => match parse_lit(s, i, "}"@) {
            Some(i1) => Some(
                (
                    CheckResult {
                        timestamp_ms: ts,
                        status: st,
                        response_time_ms: rt,
                        diff_from_prev: dp,
                        diff_from_acceptable: None,
                    },
                    i1,
                ),
            ),
            None => None,
        },
    }
}

/// Consumes one outcome object.
pub open spec fn parse_outcome(s: Seq<char>, i: int) -> Option<(CheckResult, int)> {
    match parse_lit(s, i, "{\"timestamp\":"@) {
        Some(i1) => match parse_int(s, i1) {
            Some((ts, i2)) => if !(i64::MIN <= ts <= i64::MAX) {
                None
            } else {
                match parse_lit(s, i2, ",\"status\":\""@) {
                    Some(i3) => match parse_status(s, i3) {
                        Some((st, i4)) => match parse_lit(s, i4, "\",\"response_time\":"@) {
                            Some(i5) => match parse_opt_u64(s, i5) {
                                Some((rt, i6)) => match parse_lit(s, i6, ",\"diff_from_prev\":"@) {
                                    Some(i7) => match parse_opt_diff(s, i7) {
                                        Some((dp, i8)) => parse_outcome_tail(
                                            s,
                                            i8,
                                            ts as i64,
                                            st,
                                            rt,
                                            dp,
                                        ),
                                        None => None,
                                    },
                                    None => None,
                                },
                                None => None,
                            },
                            None => None,
                        },
                        None => None,
                    },
                    None => None,
                }
            },
            None => None,
        },
        None => None,
    }
}

/// Consumes the outcomes after the first, each behind a comma, up to and
/// including the closing bracket; never more than the history cap.
pub open spec fn parse_results_rest(s: Seq<char>, i: int, acc: Seq<CheckResult>) -> Option<
    (Seq<CheckResult>, int),
>
    decreases s.len() - i,
{
    match parse_lit(s, i, "]"@) {
        Some(e) => Some((acc, e)),
        None => match parse_lit(s, i, ","@) {
            Some(i1) => match parse_outcome(s, i1) {
                Some((r, j)) => if !(i < j <= s.len()) {
                    None
                } else if acc.len() >= MAX_HISTORY {
                    None
                } else {
                    parse_results_rest(s, j, acc.push(r))
                },
                None => None,
            },
            None => None,
        },
    }
}

/// Consumes an outcome list up to and including the closing bracket.
pub open spec fn parse_results(s: Seq<char>, i: int) -> Option<(Seq<CheckResult>, int)> {
    match parse_lit(s, i, "]"@) {
        Some(e) => Some((Seq::<CheckResult>::empty(), e)),
        None => match parse_outcome(s, i) {
            Some((r, j)) => if !(i < j <= s.len()) {
                None
            } else {
                parse_results_rest(s, j, seq![r])
            },
            None => None,
        },
    }
}

/// Consumes one history object: budget and outcome list, or — in a document
/// from before the budget existed — the outcome list alone, meaning zero.
pub open spec fn parse_hist(s: Seq<char>, i: int) -> Option<((u64, Seq<CheckResult>), int)> {
    match parse_lit(s, i, "{\"acceptable_latency_ms\":"@) {
        Some(i1) => match parse_nat(s, i1) {
            Some((v, i2)) => if v > u64::MAX {
                None
            } else {
                match parse_lit(s, i2, ",\"results\":["@) {
                    Some(i3) => match parse_results(s, i3) {
                        Some((rs, i4)) => match parse_lit(s, i4, "}"@) {
                            Some(i5) => Some(((v as u64, rs), i5)),
                            None => None,
                        },
                        None => None,
                    },
                    None => None,
                }
            },
            None => None,
        },
        None => match parse_lit(s, i, "{\"results\":["@) {
            Some(i1) => match parse_results(s, i1) {
                Some((rs, i2)) => match parse_lit(s, i2, "}"@) {
                    Some(i3) => Some(((0u64, rs), i3)),
                    None => None,
                },
                None => None,
            },
            None => None,
        },
    }
}

/// First position at or after `i` holding a quote, or the text's length if
/// none does.
pub open spec fn string_end(s: Seq<char>, i: int) -> int
    decreases s.len() - i,
{
    if !(0 <= i < s.len()) {
        s.len() as int
    } else if s[i] == '"' {
        i
    } else {
        string_end(s, i + 1)
    }
}

/// The history a parsed entry denotes.
pub open spec fn entry_view(url: Seq<char>, acc: u64, rs: Seq<CheckResult>) -> HistoryView {
    HistoryView { url, acceptable_latency_ms: acc, results: rs }
}

/// Consumes one keyed entry: a quoted endpoint identifier, a colon, and the
/// history.
pub open spec fn parse_entry(s: Seq<char>, i: int) -> Option<
    ((Seq<char>, u64, Seq<CheckResult>), int),
> {
    match parse_lit(s, i, "\""@) {
        Some(i1) => {
            let j = string_end(s, i1);
            if j >= s.len() {
                None
            } else {
                match parse_lit(s, j + 1, ":"@) {
                    Some(i2) => match parse_hist(s, i2) {
                        Some(((acc, rs), i3)) => Some(((s.subrange(i1, j), acc, rs), i3)),
                        None => None,
                    },
                    None => None,
                }
            }
        },
        None => None,
    }
}

/// Consumes the entries after the first, each behind a comma, up to and
/// including the closing brace; a repeated endpoint identifier is a
/// deviation.
pub open spec fn parse_entries_rest(s: Seq<char>, i: int, hs: Seq<HistoryView>) -> Option<
    (Seq<HistoryView>, int),
>
    decreases s.len() - i,
{
    match parse_lit(s, i, "}"@) {
        Some(e) => Some((hs, e)),
        None => match parse_lit(s, i, ","@) {
            Some(i1) => match parse_entry(s, i1) {
                Some(((url, acc, rs), j)) => if !(i < j <= s.len()) {
                    None
                } else if seq_contains_url(hs, url) {
                    None
                } else {
                    parse_entries_rest(s, j, hs.push(entry_view(url, acc, rs)))
                },
                None => None,
            },
            None => None,
        },
    }
}

/// Consumes the whole entry list up to and including the closing brace.
pub open spec fn parse_entries(s: Seq<char>, i: int) -> Option<(Seq<HistoryView>, int)> {
    match parse_lit(s, i, "}"@) {
        Some(e) => Some((Seq::<HistoryView>::empty(), e)),
        None => match parse_entry(s, i) {
            Some(((url, acc, rs), j)) => if !(i < j <= s.len()) {
                None
            } else {
                parse_entries_rest(s, j, seq![entry_view(url, acc, rs)])
            },
            None => None,
        },
    }
}

/// What a whole document denotes, if it is readable: the document must be
/// consumed exactly.
pub open spec fn parse_doc(s: Seq<char>) -> Option<Seq<HistoryView>> {
    match parse_lit(s, 0, "{"@) {
        Some(i1) => match parse_entries(s, i1) {
            Some((hs, e)) => if e == s.len() {
                Some(hs)
            } else {
                None
            },
            None => None,
        },
        None => None,
    }
}

/// What recovery yields for a document: its aggregate if it is readable,
/// the empty aggregate — a first run — otherwise.
pub open spec fn recover_spec(s: Seq<char>) -> Seq<HistoryView> {
    match parse_doc(s) {
        Some(hs) => hs,
        None => Seq::<HistoryView>::empty(),
    }
}

// ---------------------------------------------------------------------------
// What every readable document denotes is well formed.
// ---------------------------------------------------------------------------

/// Every endpoint identifier in `hs` can be carried by the document format.
pub open spec fn urls_ok(hs: Seq<HistoryView>) -> bool {
    forall|k: int| 0 <= k < hs.len() ==> url_ok(#[trigger] hs[k].url)
}

/// Where a digit scan stops: at the end of a maximal digit run.
proof fn lemma_digits_end_range(s: Seq<char>, i: int)
    requires
        0 <= i <= s.len(),
    ensures
        i <= digits_end(s, i) <= s.len(),
        forall|k: int| i <= k < digits_end(s, i) ==> is_digit(#[trigger] s[k]),
        digits_end(s, i) < s.len() ==> !is_digit(s[digits_end(s, i)]),
    decreases s.len() - i,
{
    if i < s.len() && is_digit(s[i]) {
        lemma_digits_end_range(s, i + 1);
    }
}

/// Where a quote scan stops: at the first quote, if there is one.
proof fn lemma_string_end_range(s: Seq<char>, i: int)
    requires
        0 <= i <= s.len(),
    ensures
        i <= string_end(s, i) <= s.len(),
        forall|k: int| i <= k < string_end(s, i) ==> #[trigger] s[k] != '"',
        string_end(s, i) < s.len() ==> s[string_end(s, i)] == '"',
    decreases s.len() - i,
{
    if i < s.len() && s[i] != '"' {
        lemma_string_end_range(s, i + 1);
    }
}

/// A parsed outcome has both deltas in the representable range.
proof fn lemma_parse_outcome_wf(s: Seq<char>, i: int)
    ensures
        match parse_outcome(s, i) {
            Some((r, _)) => result_wf(r),
            None => true,
        },
{
}

/// A parsed outcome list stays within the history cap and is made of well
/// formed outcomes, provided what is already accumulated is.
proof fn lemma_parse_results_rest_wf(s: Seq<char>, i: int, acc: Seq<CheckResult>)
    requires
        acc.len() <= MAX_HISTORY,
        forall|k: int| 0 <= k < acc.len() ==> result_wf(#[trigger] acc[k]),
    ensures
        match parse_results_rest(s, i, acc) {
            Some((rs, _)) => rs.len() <= MAX_HISTORY && forall|k: int|
                0 <= k < rs.len() ==> result_wf(#[trigger] rs[k]),
            None => true,
        },
    decreases s.len() - i,
{
    match parse_lit(s, i, "]"@) {
        Some(_) => {},
        None => match parse_lit(s, i, ","@) {
            Some(i1) => match parse_outcome(s, i1) {
                Some((r, j)) => {
                    if i < j <= s.len() && acc.len() < MAX_HISTORY {
                        lemma_parse_outcome_wf(s, i1);
                        lemma_parse_results_rest_wf(s, j, acc.push(r));
                    }
                },
                None => {},
            },
            None => {},
        },
    }
}

/// A parsed outcome list is bounded and well formed.
proof fn lemma_parse_results_wf(s: Seq<char>, i: int)
    ensures
        match parse_results(s, i) {
            Some((rs, _)) => rs.len() <= MAX_HISTORY && forall|k: int|
                0 <= k < rs.len() ==> result_wf(#[trigger] rs[k]),
            None => true,
        },
{
    match parse_lit(s, i, "]"@) {
        Some(_) => {},
        None => match parse_outcome(s, i) {
            Some((r, j)) => {
                if i < j <= s.len() {
                    lemma_parse_outcome_wf(s, i);
                    lemma_parse_results_rest_wf(s, j, seq![r]);
                }
            },
            None => {},
        },
    }
}

/// A parsed history is well formed.
proof fn lemma_parse_hist_wf(s: Seq<char>, i: int)
    ensures
        match parse_hist(s, i) {
            Some(((_, rs), _)) => rs.len() <= MAX_HISTORY && forall|k: int|
                0 <= k < rs.len() ==> result_wf(#[trigger] rs[k]),
            None => true,
        },
{
    match parse_lit(s, i, "{\"acceptable_latency_ms\":"@) {
        Some(i1) => match parse_nat(s, i1) {
            Some((v, i2)) => {
                if v <= u64::MAX {
                    match parse_lit(s, i2, ",\"results\":["@) {
                        Some(i3) => {
                            lemma_parse_results_wf(s, i3);
                        },
                        None => {},
                    }
                }
            },
            None => {},
        },
        None => match parse_lit(s, i, "{\"results\":["@) {
            Some(i1) => {
                lemma_parse_results_wf(s, i1);
            },
            None => {},
        },
    }
}

/// A parsed entry carries a representable identifier and a well formed
/// history.
proof fn lemma_parse_entry_wf(s: Seq<char>, i: int)
    ensures
        match parse_entry(s, i) {
            Some(((url, _, rs), _)) => url_ok(url) && rs.len() <= MAX_HISTORY && forall|k: int|
                0 <= k < rs.len() ==> result_wf(#[trigger] rs[k]),
            None => true,
        },
{
    match parse_lit(s, i, "\""@) {
        Some(i1) => {
            lemma_string_end_range(s, i1);
            let j = string_end(s, i1);
            if j < s.len() {
                match parse_lit(s, j + 1, ":"@) {
                    Some(i2) => {
                        lemma_parse_hist_wf(s, i2);
                        assert forall|k: int| 0 <= k < j - i1 implies #[trigger] s.subrange(
                            i1,
                            j,
                        )[k] != '"' by {
                            assert(s.subrange(i1, j)[k] == s[i1 + k]);
                        }
                    },
                    None => {},
                }
            }
        },
        None => {},
    }
}

/// Parsed entries keep identifiers unique and histories well formed,
/// provided what is already accumulated does.
proof fn lemma_parse_entries_rest_wf(s: Seq<char>, i: int, hs: Seq<HistoryView>)
    requires
        agg_wf(hs),
        urls_ok(hs),
    ensures
        match parse_entries_rest(s, i, hs) {
            Some((out, _)) => agg_wf(out) && urls_ok(out),
            None => true,
        },
    decreases s.len() - i,
{
    match parse_lit(s, i, "}"@) {
        Some(_) => {},
        None => match parse_lit(s, i, ","@) {
            Some(i1) => match parse_entry(s, i1) {
                Some(((url, acc, rs), j)) => {
                    if i < j <= s.len() && !seq_contains_url(hs, url) {
                        lemma_parse_entry_wf(s, i1);
                        let h = entry_view(url, acc, rs);
                        assert(agg_wf(hs.push(h)));
                        assert(urls_ok(hs.push(h)));
                        lemma_parse_entries_rest_wf(s, j, hs.push(h));
                    }
                },
                None => {},
            },
            None => {},
        },
    }
}

/// A whole readable document denotes a well formed aggregate whose
/// identifiers the format can carry.
pub proof fn lemma_parse_doc_wf(s: Seq<char>)
    ensures
        match parse_doc(s) {
            Some(hs) => agg_wf(hs) && urls_ok(hs),
            None => true,
        },
        agg_wf(recover_spec(s)),
        urls_ok(recover_spec(s)),
{
    match parse_lit(s, 0, "{"@) {
        Some(i1) => {
            match parse_lit(s, i1, "}"@) {
                Some(_) => {
                    assert(agg_wf(Seq::<HistoryView>::empty()));
                },
                None => match parse_entry(s, i1) {
                    Some(((url, acc, rs), j)) => {
                        if i1 < j <= s.len() {
                            lemma_parse_entry_wf(s, i1);
                            let h = entry_view(url, acc, rs);
                            assert(agg_wf(seq![h]));
                            assert(urls_ok(seq![h]));
                            lemma_parse_entries_rest_wf(s, j, seq![h]);
                        }
                    },
                    None => {},
                },
            }
        },
        None => {},
    }
    assert(agg_wf(Seq::<HistoryView>::empty()));
    assert(urls_ok(Seq::<HistoryView>::empty()));
}

// ---------------------------------------------------------------------------
// Writing the document.
// ---------------------------------------------------------------------------

/// Appends one digit character.
fn push_digit(out: &mut String, d: u64)
    requires
        d < 10,
    ensures
        final(out)@ == old(out)@ + seq![digit_char(d as nat)],
{
    if d == 0 {
        proof {
            reveal_strlit("0");
            assert("0"@ =~= seq![digit_char(0)]);
        }
        out.append("0");
    } else if d == 1 {
        proof {
            reveal_strlit("1");
            assert("1"@ =~= seq![digit_char(1)]);
        }
        out.append("1");
    } else if d == 2 {
        proof {
            reveal_strlit("2");
            assert("2"@ =~= seq![digit_char(2)]);
        }
        out.append("2");
    } else if d == 3 {
        proof {
            reveal_strlit("3");
            assert("3"@ =~= seq![digit_char(3)]);
        }
        out.append("3");
    } else if d == 4 {
        proof {
            reveal_strlit("4");
            assert("4"@ =~= seq![digit_char(4)]);
        }
        out.append("4");
    } else if d == 5 {
        proof {
            reveal_strlit("5");
            assert("5"@ =~= seq![digit_char(5)]);
        }
        out.append("5");
    } else if d == 6 {
        proof {
            reveal_strlit("6");
            assert("6"@ =~= seq![digit_char(6)]);
        }
        out.append("6");
    } else if d == 7 {
        proof {
            reveal_strlit("7");
            assert("7"@ =~= seq![digit_char(7)]);
        }
        out.append("7");
    } else if d == 8 {
        proof {
            reveal_strlit("8");
            assert("8"@ =~= seq![digit_char(8)]);
        }
        out.append("8");
    } else {
        proof {
            reveal_strlit("9");
            assert("9"@ =~= seq![digit_char(9)]);
        }
        out.append("9");
    }
}

/// Appends the canonical decimal representation of `n`.
pub fn push_dec(out: &mut String, n: u64)
    ensures
        final(out)@ == old(out)@ + dec_rep(n as nat),
    decreases n,
{
    if n >= 10 {
        push_dec(out, n / 10);
        push_digit(out, n % 10);
        assert(final(out)@ =~= old(out)@ + dec_rep(n as nat));
    } else {
        push_digit(out, n);
    }
}

/// Appends the canonical decimal representation of a signed value whose
/// magnitude fits a `u64`.
pub fn push_dec_signed(out: &mut String, v: i128)
    requires
        -(u64::MAX as int) <= v <= u64::MAX as int,
    ensures
        final(out)@ == old(out)@ + dec_rep_int(v as int),
{
    if v < 0 {
        proof {
            reveal_strlit("-");
            assert("-"@ =~= seq!['-']);
        }
        out.append("-");
        let m: u64 = (-v) as u64;
        push_dec(out, m);
        assert(final(out)@ =~= old(out)@ + dec_rep_int(v as int));
    } else {
        push_dec(out, v as u64);
    }
}

/// Appends the rendering of an optional latency.
fn push_opt_u64(out: &mut String, v: &Option<u64>)
    ensures
        final(out)@ == old(out)@ + enc_opt_u64(*v),
{
    match v {
        Some(n) => push_dec(out, *n),
        None => out.append("null"),
    }
}

/// Appends the rendering of an optional delta.
fn push_opt_diff(out: &mut String, v: &Option<i128>)
    requires
        match *v {
            Some(d) => -(u64::MAX as int) <= d <= u64::MAX as int,
            None => true,
        },
    ensures
        final(out)@ == old(out)@ + enc_opt_diff(*v),
{
    match v {
        Some(d) => push_dec_signed(out, *d),
        None => out.append("null"),
    }
}

/// Appends the rendering of one outcome.
pub(crate) fn push_outcome(out: &mut String, r: &CheckResult)
    requires
        result_wf(*r),
    ensures
        final(out)@ == old(out)@ + enc_outcome(*r),
{
    out.append("{\"timestamp\":");
    push_dec_signed(out, r.timestamp_ms as i128);
    out.append(",\"status\":\"");
    match r.status {
        CheckStatus::Up => out.append("Up"),
        CheckStatus::Down => out.append("Down"),
        CheckStatus::Error => out.append("Error"),
    }
    out.append("\",\"response_time\":");
    push_opt_u64(out, &r.response_time_ms);
    out.append(",\"diff_from_prev\":");
    push_opt_diff(out, &r.diff_from_prev);
    out.append(",\"diff_from_acceptable\":");
    push_opt_diff(out, &r.diff_from_acceptable);
    out.append("}");
    assert(final(out)@ =~= old(out)@ + enc_outcome(*r));
}

/// Appends the rendering of every outcome from position `from` on, each
/// preceded by a comma.
fn push_results_rest(out: &mut String, v: &VecDeque<CheckResult>, from: usize)
    requires
        from <= v@.len(),
        forall|i: int| 0 <= i < v@.len() ==> result_wf(#[trigger] v@[i]),
    ensures
        final(out)@ == old(out)@ + enc_results_rest(v@.skip(from as int)),
    decreases v@.len() - from,
{
    if from < v.len() {
        out.append(",");
        push_outcome(out, &v[from]);
        push_results_rest(out, v, from + 1);
        proof {
            assert(v@.skip(from as int)[0] == v@[from as int]);
            assert(v@.skip(from as int).drop_first() =~= v@.skip(from as int + 1));
            assert(final(out)@ =~= old(out)@ + enc_results_rest(v@.skip(from as int)));
        }
    } else {
        proof {
            assert(v@.skip(from as int) =~= Seq::<CheckResult>::empty());
        }
    }
}

/// Appends the rendering of an outcome list.
fn push_results(out: &mut String, v: &VecDeque<CheckResult>)
    requires
        forall|i: int| 0 <= i < v@.len() ==> result_wf(#[trigger] v@[i]),
    ensures
        final(out)@ == old(out)@ + enc_results(v@),
{
    if v.len() > 0 {
        push_outcome(out, &v[0]);
        push_results_rest(out, v, 1);
        proof {
            assert(v@.skip(1) =~= v@.drop_first());
            assert(final(out)@ =~= old(out)@ + enc_results(v@));
        }
    }
}

/// Appends the rendering of one keyed entry.
fn push_entry(out: &mut String, h: &CheckHistory)
    requires
        h@.wf(),
    ensures
        final(out)@ == old(out)@ + enc_entry(h@),
{
    out.append("\"");
    out.append(h.url.as_str());
    out.append("\":{\"acceptable_latency_ms\":");
    push_dec(out, h.acceptable_latency_ms);
    out.append(",\"results\":[");
    push_results(out, &h.results);
    out.append("]}");
    proof {
        reveal_strlit("\":");
        reveal_strlit("{\"acceptable_latency_ms\":");
        reveal_strlit("\":{\"acceptable_latency_ms\":");
        assert("\":{\"acceptable_latency_ms\":"@ =~= "\":"@ + "{\"acceptable_latency_ms\":"@);
        assert(final(out)@ =~= old(out)@ + enc_entry(h@));
    }
}

/// Appends the rendering of every entry from position `from` on, each
/// preceded by a comma.
fn push_entries_rest(out: &mut String, a: &Aggregate, from: usize)
    requires
        from <= a@.len(),
        agg_wf(a@),
    ensures
        final(out)@ == old(out)@ + enc_entries_rest(a@.skip(from as int)),
    decreases a@.len() - from,
{
    if from < a.histories.len() {
        out.append(",");
        proof {
            assert(a.histories[from as int]@ == a@[from as int]);
            assert(a@[from as int].wf());
        }
        push_entry(out, &a.histories[from]);
        push_entries_rest(out, a, from + 1);
        proof {
            assert(a@.skip(from as int)[0] == a@[from as int]);
            assert(a@.skip(from as int).drop_first() =~= a@.skip(from as int + 1));
            assert(final(out)@ =~= old(out)@ + enc_entries_rest(a@.skip(from as int)));
        }
    } else {
        proof {
            assert(a@.skip(from as int) =~= Seq::<HistoryView>::empty());
        }
    }
}

// ---------------------------------------------------------------------------
// Round trip: reading back what was written yields the same aggregate.
// ---------------------------------------------------------------------------

/// The text `x` stands written in `s` at position `i`.
pub open spec fn matches_at(s: Seq<char>, i: int, x: Seq<char>) -> bool {
    &&& 0 <= i
    &&& i + x.len() <= s.len()
    &&& forall|k: int| 0 <= k < x.len() ==> s[i + k] == #[trigger] x[k]
}

/// Concatenated text stands written piece by piece.
proof fn lemma_match_split(s: Seq<char>, i: int, a: Seq<char>, b: Seq<char>)
    requires
        matches_at(s, i, a + b),
    ensures
        matches_at(s, i, a),
        matches_at(s, i + a.len(), b),
{
    assert forall|k: int| 0 <= k < a.len() implies s[i + k] == #[trigger] a[k] by {
        assert((a + b)[k] == a[k]);
    }
    assert forall|k: int| 0 <= k < b.len() implies s[i + a.len() + k] == #[trigger] b[k] by {
        assert((a + b)[a.len() + k] == b[k]);
        assert(s[i + (a.len() + k)] == (a + b)[a.len() + k]);
    }
}

/// Adjacent written pieces stand written as one.
proof fn lemma_match_join(s: Seq<char>, i: int, a: Seq<char>, b: Seq<char>)
    requires
        matches_at(s, i, a),
        matches_at(s, i + a.len(), b),
    ensures
        matches_at(s, i, a + b),
{
    assert forall|k: int| 0 <= k < (a + b).len() implies s[i + k] == #[trigger] (a + b)[k] by {
        if k < a.len() {
            assert(s[i + k] == a[k]);
        } else {
            assert(s[i + a.len() + (k - a.len())] == b[k - a.len()]);
        }
    }
}

/// A literal that stands written is consumed.
proof fn lemma_parse_lit_yes(s: Seq<char>, i: int, l: Seq<char>)
    requires
        matches_at(s, i, l),
    ensures
        parse_lit(s, i, l) == Some(i + l.len()),
{
    assert(s.subrange(i, i + l.len()) =~= l);
}

/// A literal whose first character deviates is not consumed.
proof fn lemma_parse_lit_no_first(s: Seq<char>, i: int, l: Seq<char>)
    requires
        l.len() >= 1,
        0 <= i < s.len(),
        s[i] != l[0],
    ensures
        parse_lit(s, i, l) is None,
{
    if i + l.len() <= s.len() && s.subrange(i, i + l.len()) == l {
        assert(s.subrange(i, i + l.len())[0] == s[i]);
        assert(false);
    }
}

/// A digit scan over a maximal digit run stops exactly at its end.
proof fn lemma_digits_end_exact(s: Seq<char>, i: int, j: int)
    requires
        0 <= i <= j <= s.len(),
        forall|k: int| i <= k < j ==> is_digit(#[trigger] s[k]),
        j == s.len() || !is_digit(s[j]),
    ensures
        digits_end(s, i) == j,
    decreases j - i,
{
    if i < j {
        lemma_digits_end_exact(s, i + 1, j);
    }
}

/// A quote scan over quote-free text stops exactly at the closing quote.
proof fn lemma_string_end_exact(s: Seq<char>, i: int, j: int)
    requires
        0 <= i <= j < s.len(),
        forall|k: int| i <= k < j ==> #[trigger] s[k] != '"',
        s[j] == '"',
    ensures
        string_end(s, i) == j,
    decreases j - i,
{
    if i < j {
        lemma_string_end_exact(s, i + 1, j);
    }
}

/// A written canonical number is read back as itself.
proof fn lemma_parse_nat_round(s: Seq<char>, i: int, n: nat)
    requires
        n < pow10(20),
        matches_at(s, i, dec_rep(n)),
        i + dec_rep(n).len() == s.len() || !is_digit(s[i + dec_rep(n).len()]),
    ensures
        parse_nat(s, i) == Some((n, i + dec_rep(n).len())),
{
    let l = dec_rep(n).len() as int;
    lemma_dec_rep_digits(n);
    lemma_dec_rep_len(n, 20);
    assert forall|k: int| i <= k < i + l implies is_digit(#[trigger] s[k]) by {
        assert(s[i + (k - i)] == dec_rep(n)[k - i]);
    }
    lemma_digits_end_exact(s, i, i + l);
    if l > 1 {
        assert(n >= 1) by {
            if n < 10 {
                assert(dec_rep(n).len() == 1);
            }
        }
        lemma_dec_rep_no_leading_zero(n);
        assert(s[i] == dec_rep(n)[0]);
    }
    assert(s.subrange(i, i + l) =~= dec_rep(n));
    lemma_seq_val_of_rep(n);
}

/// A written canonical signed number is read back as itself.
proof fn lemma_parse_int_round(s: Seq<char>, i: int, v: int)
    requires
        -pow10(20) < v < pow10(20),
        matches_at(s, i, dec_rep_int(v)),
        i + dec_rep_int(v).len() == s.len() || !is_digit(s[i + dec_rep_int(v).len()]),
    ensures
        parse_int(s, i) == Some((v, i + dec_rep_int(v).len())),
{
    if v >= 0 {
        lemma_dec_rep_digits(v as nat);
        assert(s[i + 0] == dec_rep(v as nat)[0]);
        assert(is_digit(s[i]));
        assert('-' as u32 == 45);
        assert(s[i] != '-');
        lemma_parse_nat_round(s, i, v as nat);
    } else {
        assert(s[i + 0] == dec_rep_int(v)[0]);
        assert(dec_rep_int(v)[0] == '-');
        lemma_match_split(s, i, seq!['-'], dec_rep((-v) as nat));
        lemma_parse_nat_round(s, i + 1, (-v) as nat);
    }
}

/// A written optional latency is read back as itself.
proof fn lemma_parse_opt_u64_round(s: Seq<char>, i: int, v: Option<u64>)
    requires
        matches_at(s, i, enc_opt_u64(v)),
        i + enc_opt_u64(v).len() == s.len() || !is_digit(s[i + enc_opt_u64(v).len()]),
    ensures
        parse_opt_u64(s, i) == Some((v, i + enc_opt_u64(v).len())),
{
    reveal_strlit("null");
    match v {
        None => {
            lemma_parse_lit_yes(s, i, "null"@);
        },
        Some(n) => {
            lemma_pow10_20();
            lemma_dec_rep_digits(n as nat);
            assert(s[i + 0] == dec_rep(n as nat)[0]);
            assert(is_digit(s[i]));
            assert('n' as u32 == 110);
            assert(s[i] != 'n');
            assert("null"@[0] == 'n');
            lemma_parse_lit_no_first(s, i, "null"@);
            lemma_parse_nat_round(s, i, n as nat);
        },
    }
}

/// A written optional delta is read back as itself.
proof fn lemma_parse_opt_diff_round(s: Seq<char>, i: int, v: Option<i128>)
    requires
        match v {
            Some(d) => -(u64::MAX as int) <= d <= u64::MAX as int,
            None => true,
        },
        matches_at(s, i, enc_opt_diff(v)),
        i + enc_opt_diff(v).len() == s.len() || !is_digit(s[i + enc_opt_diff(v).len()]),
    ensures
        parse_opt_diff(s, i) == Some((v, i + enc_opt_diff(v).len())),
{
    reveal_strlit("null");
    match v {
        None => {
            lemma_parse_lit_yes(s, i, "null"@);
        },
        Some(d) => {
            lemma_pow10_20();
            assert('n' as u32 == 110);
            assert("null"@[0] == 'n');
            if d >= 0 {
                lemma_dec_rep_digits(d as nat);
                assert(s[i + 0] == dec_rep(d as nat)[0]);
                assert(is_digit(s[i]));
                assert(s[i] != 'n');
            } else {
                assert(s[i + 0] == dec_rep_int(d as int)[0]);
                assert(dec_rep_int(d as int)[0] == '-');
                assert('-' as u32 == 45);
                assert(s[i] != 'n');
            }
            lemma_parse_lit_no_first(s, i, "null"@);
            lemma_parse_int_round(s, i, d as int);
        },
    }
}

/// A written status name is read back as itself.
proof fn lemma_parse_status_round(s: Seq<char>, i: int, st: CheckStatus)
    requires
        matches_at(s, i, enc_status(st)),
    ensures
        parse_status(s, i) == Some((st, i + enc_status(st).len())),
{
    reveal_strlit("Up");
    reveal_strlit("Down");
    reveal_strlit("Error");
    match st {
        CheckStatus::Up => {
            lemma_parse_lit_yes(s, i, "Up"@);
        },
        CheckStatus::Down => {
            assert(s[i + 0] == "Down"@[0]);
            lemma_parse_lit_no_first(s, i, "Up"@);
            lemma_parse_lit_yes(s, i, "Down"@);
        },
        CheckStatus::Error => {
            assert(s[i + 0] == "Error"@[0]);
            lemma_parse_lit_no_first(s, i, "Up"@);
            lemma_parse_lit_no_first(s, i, "Down"@);
            lemma_parse_lit_yes(s, i, "Error"@);
        },
    }
}

/// A written outcome is read back as itself.
#[verifier::rlimit(60)]
proof fn lemma_parse_outcome_round(s: Seq<char>, i: int, r: CheckResult)
    requires
        result_wf(r),
        matches_at(s, i, enc_outcome(r)),
    ensures
        parse_outcome(s, i) == Some((r, i + enc_outcome(r).len())),
{
    reveal_strlit("{\"timestamp\":");
    reveal_strlit(",\"status\":\"");
    reveal_strlit("\",\"response_time\":");
    reveal_strlit(",\"diff_from_prev\":");
    reveal_strlit(",\"diff_from_acceptable\":");
    reveal_strlit("}");
    lemma_pow10_20();
    let l1 = "{\"timestamp\":"@;
    let x_ts = dec_rep_int(r.timestamp_ms as int);
    let l2 = ",\"status\":\""@;
    let x_st = enc_status(r.status);
    let l3 = "\",\"response_time\":"@;
    let x_rt = enc_opt_u64(r.response_time_ms);
    let l4 = ",\"diff_from_prev\":"@;
    let x_dp = enc_opt_diff(r.diff_from_prev);
    let l5 = ",\"diff_from_acceptable\":"@;
    let x_da = enc_opt_diff(r.diff_from_acceptable);
    let l6 = "}"@;
    lemma_match_split(s, i, l1 + x_ts + l2 + x_st + l3 + x_rt + l4 + x_dp + l5 + x_da, l6);
    lemma_match_split(s, i, l1 + x_ts + l2 + x_st + l3 + x_rt + l4 + x_dp + l5, x_da);
    lemma_match_split(s, i, l1 + x_ts + l2 + x_st + l3 + x_rt + l4 + x_dp, l5);
    lemma_match_split(s, i, l1 + x_ts + l2 + x_st + l3 + x_rt + l4, x_dp);
    lemma_match_split(s, i, l1 + x_ts + l2 + x_st + l3 + x_rt, l4);
    lemma_match_split(s, i, l1 + x_ts + l2 + x_st + l3, x_rt);
    lemma_match_split(s, i, l1 + x_ts + l2 + x_st, l3);
    lemma_match_split(s, i, l1 + x_ts + l2, x_st);
    lemma_match_split(s, i, l1 + x_ts, l2);
    lemma_match_split(s, i, l1, x_ts);
    let i1 = i + l1.len();
    let i2 = i1 + x_ts.len();
    let i3 = i2 + l2.len();
    let i4 = i3 + x_st.len();
    let i5 = i4 + l3.len();
    let i6 = i5 + x_rt.len();
    let i7 = i6 + l4.len();
    let i8 = i7 + x_dp.len();
    let i9 = i8 + l5.len();
    let i10 = i9 + x_da.len();
    lemma_parse_lit_yes(s, i, l1);
    assert(s[i2 + 0] == l2[0]);
    assert(!is_digit(',')) by {
        assert(',' as u32 == 44);
    }
    lemma_parse_int_round(s, i1, r.timestamp_ms as int);
    lemma_parse_lit_yes(s, i2, l2);
    lemma_parse_status_round(s, i3, r.status);
    lemma_parse_lit_yes(s, i4, l3);
    assert(s[i6 + 0] == l4[0]);
    lemma_parse_opt_u64_round(s, i5, r.response_time_ms);
    lemma_parse_lit_yes(s, i6, l4);
    assert(s[i8 + 0] == l5[0]);
    lemma_parse_opt_diff_round(s, i7, r.diff_from_prev);
    lemma_parse_lit_yes(s, i8, l5);
    assert(s[i10 + 0] == l6[0]);
    assert(!is_digit('}')) by {
        assert('}' as u32 == 125);
    }
    lemma_parse_opt_diff_round(s, i9, r.diff_from_acceptable);
    lemma_parse_lit_yes(s, i10, l6);
}

/// A written outcome-list tail, closing bracket included, is read back as
/// itself, appended to whatever was already read.
#[verifier::rlimit(80)]
proof fn lemma_parse_results_rest_round(
    s: Seq<char>,
    i: int,
    done: Seq<CheckResult>,
    rest: Seq<CheckResult>,
)
    requires
        done.len() + rest.len() <= MAX_HISTORY,
        forall|k: int| 0 <= k < rest.len() ==> result_wf(#[trigger] rest[k]),
        matches_at(s, i, enc_results_rest(rest) + "]"@),
    ensures
        parse_results_rest(s, i, done) == Some(
            (done + rest, i + enc_results_rest(rest).len() + 1),
        ),
    decreases rest.len(),
{
    reveal_strlit("]");
    reveal_strlit(",");
    reveal_strlit("{\"timestamp\":");
    if rest.len() == 0 {
        assert(enc_results_rest(rest) + "]"@ =~= "]"@);
        lemma_parse_lit_yes(s, i, "]"@);
        assert(done + rest =~= done);
    } else {
        let h0 = rest[0];
        let x_o = enc_outcome(h0);
        let rr = enc_results_rest(rest.drop_first());
        assert(enc_results_rest(rest) + "]"@ =~= ","@ + x_o + (rr + "]"@));
        lemma_match_split(s, i, ","@ + x_o, rr + "]"@);
        lemma_match_split(s, i, ","@, x_o);
        assert(s[i + 0] == ","@[0]);
        assert(',' as u32 == 44 && ']' as u32 == 93);
        lemma_parse_lit_no_first(s, i, "]"@);
        lemma_parse_lit_yes(s, i, ","@);
        lemma_parse_outcome_round(s, i + 1, h0);
        let j = i + 1 + x_o.len();
        lemma_parse_results_rest_round(s, j, done.push(h0), rest.drop_first());
        assert(done.push(h0) + rest.drop_first() =~= done + rest);
    }
}

/// A written outcome list, closing bracket included, is read back as itself.
#[verifier::rlimit(100)]
#[verifier::spinoff_prover]
proof fn lemma_parse_results_round(s: Seq<char>, i: int, rs: Seq<CheckResult>)
    requires
        rs.len() <= MAX_HISTORY,
        forall|k: int| 0 <= k < rs.len() ==> result_wf(#[trigger] rs[k]),
        matches_at(s, i, enc_results(rs) + "]"@),
    ensures
        parse_results(s, i) == Some((rs, i + enc_results(rs).len() + 1)),
{
    reveal_strlit("]");
    reveal_strlit("{\"timestamp\":");
    if rs.len() == 0 {
        assert(enc_results(rs) + "]"@ =~= "]"@);
        lemma_parse_lit_yes(s, i, "]"@);
        assert(rs =~= Seq::<CheckResult>::empty());
    } else {
        let h0 = rs[0];
        let x_o = enc_outcome(h0);
        let rr = enc_results_rest(rs.drop_first());
        assert(enc_results(rs) + "]"@ =~= x_o + (rr + "]"@));
        lemma_match_split(s, i, x_o, rr + "]"@);
        assert(s[i + 0] == x_o[0]);
        assert(x_o[0] == "{\"timestamp\":"@[0]);
        assert('{' as u32 == 123 && ']' as u32 == 93);
        lemma_parse_lit_no_first(s, i, "]"@);
        lemma_parse_outcome_round(s, i, h0);
        let j = i + x_o.len();
        lemma_parse_results_rest_round(s, j, seq![h0], rs.drop_first());
        assert(seq![h0] + rs.drop_first() =~= rs);
    }
}

/// A written history is read back as itself.
proof fn lemma_parse_hist_round(s: Seq<char>, i: int, h: HistoryView)
    requires
        h.wf(),
        matches_at(s, i, enc_hist(h)),
    ensures
        parse_hist(s, i) == Some(((h.acceptable_latency_ms, h.results), i + enc_hist(h).len())),
{
    reveal_strlit("{\"acceptable_latency_ms\":");
    reveal_strlit(",\"results\":[");
    reveal_strlit("]}");
    reveal_strlit("]");
    reveal_strlit("}");
    lemma_pow10_20();
    let la = "{\"acceptable_latency_ms\":"@;
    let x_n = dec_rep(h.acceptable_latency_ms as nat);
    let lb = ",\"results\":["@;
    let x_r = enc_results(h.results);
    assert("]}"@ =~= "]"@ + "}"@);
    assert(enc_hist(h) =~= la + x_n + lb + (x_r + "]"@) + "}"@);
    lemma_match_split(s, i, la + x_n + lb + (x_r + "]"@), "}"@);
    lemma_match_split(s, i, la + x_n + lb, x_r + "]"@);
    lemma_match_split(s, i, la + x_n, lb);
    lemma_match_split(s, i, la, x_n);
    let i1 = i + la.len();
    let i2 = i1 + x_n.len();
    let i3 = i2 + lb.len();
    let i4 = i3 + (x_r + "]"@).len();
    lemma_parse_lit_yes(s, i, la);
    assert(s[i2 + 0] == lb[0]);
    assert(!is_digit(',')) by {
        assert(',' as u32 == 44);
    }
    lemma_parse_nat_round(s, i1, h.acceptable_latency_ms as nat);
    lemma_parse_lit_yes(s, i2, lb);
    lemma_parse_results_round(s, i3, h.results);
    lemma_parse_lit_yes(s, i4, "}"@);
}

/// A written keyed entry is read back as itself.
#[verifier::rlimit(100)]
#[verifier::spinoff_prover]
proof fn lemma_parse_entry_round(s: Seq<char>, i: int, h: HistoryView)
    requires
        h.wf(),
        url_ok(h.url),
        matches_at(s, i, enc_entry(h)),
    ensures
        parse_entry(s, i) == Some(
            ((h.url, h.acceptable_latency_ms, h.results), i + enc_entry(h).len()),
        ),
{
    reveal_strlit("\"");
    reveal_strlit("\":");
    reveal_strlit(":");
    assert("\":"@ =~= "\""@ + ":"@);
    assert(enc_entry(h) =~= "\""@ + h.url + "\""@ + ":"@ + enc_hist(h));
    lemma_match_split(s, i, "\""@ + h.url + "\""@ + ":"@, enc_hist(h));
    lemma_match_split(s, i, "\""@ + h.url + "\""@, ":"@);
    lemma_match_split(s, i, "\""@ + h.url, "\""@);
    lemma_match_split(s, i, "\""@, h.url);
    let i1 = i + 1;
    let j = i1 + h.url.len();
    lemma_parse_lit_yes(s, i, "\""@);
    assert(s[j + 0] == "\""@[0]);
    assert forall|k: int| i1 <= k < j implies #[trigger] s[k] != '"' by {
        assert(s[i1 + (k - i1)] == h.url[k - i1]);
    }
    lemma_string_end_exact(s, i1, j);
    lemma_parse_lit_yes(s, j + 1, ":"@);
    lemma_parse_hist_round(s, j + 2, h);
    assert(s.subrange(i1, j) =~= h.url);
}

/// A written entry-list tail, closing brace included, is read back as
/// itself, appended to whatever was already read.
proof fn lemma_parse_entries_rest_round(
    s: Seq<char>,
    i: int,
    done: Seq<HistoryView>,
    rest: Seq<HistoryView>,
)
    requires
        agg_wf(done + rest),
        urls_ok(done + rest),
        matches_at(s, i, enc_entries_rest(rest) + "}"@),
    ensures
        parse_entries_rest(s, i, done) == Some(
            (done + rest, i + enc_entries_rest(rest).len() + 1),
        ),
    decreases rest.len(),
{
    reveal_strlit("}");
    reveal_strlit(",");
    reveal_strlit("\"");
    if rest.len() == 0 {
        assert(enc_entries_rest(rest) + "}"@ =~= "}"@);
        lemma_parse_lit_yes(s, i, "}"@);
        assert(done + rest =~= done);
    } else {
        let h0 = rest[0];
        let x_e = enc_entry(h0);
        let rr = enc_entries_rest(rest.drop_first());
        assert(enc_entries_rest(rest) + "}"@ =~= ","@ + x_e + (rr + "}"@));
        lemma_match_split(s, i, ","@ + x_e, rr + "}"@);
        lemma_match_split(s, i, ","@, x_e);
        assert(s[i + 0] == ","@[0]);
        assert(',' as u32 == 44 && '}' as u32 == 125);
        lemma_parse_lit_no_first(s, i, "}"@);
        lemma_parse_lit_yes(s, i, ","@);
        assert((done + rest)[done.len() as int] == h0);
        lemma_parse_entry_round(s, i + 1, h0);
        let j = i + 1 + x_e.len();
        assert(!seq_contains_url(done, h0.url)) by {
            if seq_contains_url(done, h0.url) {
                let k = choose|k: int| 0 <= k < done.len() && #[trigger] done[k].url == h0.url;
                assert((done + rest)[k] == done[k]);
                assert(false);
            }
        }
        assert(entry_view(h0.url, h0.acceptable_latency_ms, h0.results) == h0);
        assert(done.push(h0) + rest.drop_first() =~= done + rest);
        lemma_parse_entries_rest_round(s, j, done.push(h0), rest.drop_first());
    }
}

/// Round trip: the snapshot document written for a well-formed aggregate —
/// one whose endpoint identifiers are unique, quote-free, and whose
/// histories respect the cap and the delta ranges — reads back as exactly
/// that aggregate: same endpoints in the same order, same budgets, same
/// outcome sequences.  (An identifier containing a quote cannot be carried
/// by the format and is excluded.)
#[verifier::rlimit(100)]
#[verifier::spinoff_prover]
pub proof fn lemma_snapshot_round_trip(hs: Seq<HistoryView>)
    requires
        agg_wf(hs),
        urls_ok(hs),
    ensures
        parse_doc(enc_doc(hs)) == Some(hs),
        recover_spec(enc_doc(hs)) == hs,
{
    reveal_strlit("{");
    reveal_strlit("}");
    reveal_strlit("\"");
    let s = enc_doc(hs);
    assert forall|k: int| 0 <= k < s.len() implies s[0 + k] == #[trigger] s[k] by {}
    assert(matches_at(s, 0, s));
    assert(s =~= "{"@ + (enc_entries(hs) + "}"@));
    lemma_match_split(s, 0, "{"@, enc_entries(hs) + "}"@);
    lemma_parse_lit_yes(s, 0, "{"@);
    if hs.len() == 0 {
        assert(enc_entries(hs) + "}"@ =~= "}"@);
        lemma_parse_lit_yes(s, 1int, "}"@);
        assert(hs =~= Seq::<HistoryView>::empty());
    } else {
        let h0 = hs[0];
        let x_e = enc_entry(h0);
        let rr = enc_entries_rest(hs.drop_first());
        assert(enc_entries(hs) + "}"@ =~= x_e + (rr + "}"@));
        lemma_match_split(s, 1, x_e, rr + "}"@);
        assert(s[1int + 0] == x_e[0]);
        assert(x_e[0] == "\""@[0]);
        assert('"' as u32 == 34 && '}' as u32 == 125);
        lemma_parse_lit_no_first(s, 1int, "}"@);
        lemma_parse_entry_round(s, 1int, h0);
        let j = 1int + x_e.len();
        assert(entry_view(h0.url, h0.acceptable_latency_ms, h0.results) == h0);
        assert(seq![h0] + hs.drop_first() =~= hs);
        lemma_parse_entries_rest_round(s, j, seq![h0], hs.drop_first());
    }
}

/// Idempotence: recovering a snapshot document and snapshotting the
/// recovered aggregate again, with no tick in between, writes character for
/// character the same document.
pub proof fn lemma_snapshot_recover_idempotent(hs: Seq<HistoryView>)
    requires
        agg_wf(hs),
        urls_ok(hs),
    ensures
        enc_doc(recover_spec(enc_doc(hs))) == enc_doc(hs),
{
    lemma_snapshot_round_trip(hs);
}

// ---------------------------------------------------------------------------
// Reading the document, executably: each reader returns exactly what its
// specification parser denotes.
// ---------------------------------------------------------------------------

/// Consumes the literal `l` at `i`, if it is there.
fn match_lit(s: &str, n: usize, i: usize, l: &str) -> (r: Option<usize>)
    requires
        n == s@.len(),
        i <= n,
    ensures
        match r {
            Some(e) => parse_lit(s@, i as int, l@) == Some(e as int) && i < e <= n || l@.len() == 0
                && e == i && parse_lit(s@, i as int, l@) == Some(e as int),
            None => parse_lit(s@, i as int, l@) is None,
        },
{
    let m = l.unicode_len();
    if m > n - i {
        return None;
    }
    let mut k: usize = 0;
    while k < m
        invariant
            k <= m,
            i + m <= n,
            n == s@.len(),
            m == l@.len(),
            forall|q: int| 0 <= q < k ==> s@[i + q] == l@[q],
        decreases m - k,
    {
        if s.get_char(i + k) != l.get_char(k) {
            proof {
                if parse_lit(s@, i as int, l@) is Some {
                    assert(s@.subrange(i as int, i + l@.len()) == l@);
                    assert(s@.subrange(i as int, i + l@.len())[k as int] == s@[i + k]);
                    assert(false);
                }
            }
            return None;
        }
        k = k + 1;
    }
    proof {
        assert(s@.subrange(i as int, i + m) =~= l@);
    }
    Some(i + m)
}

/// Scans to the end of the digit run starting at `i`.
fn scan_digits(s: &str, n: usize, i: usize) -> (e: usize)
    requires
        n == s@.len(),
        i <= n,
    ensures
        e as int == digits_end(s@, i as int),
        i <= e <= n,
{
    proof {
        lemma_digits_end_range(s@, i as int);
    }
    let mut j = i;
    while j < n
        invariant
            i <= j <= n,
            n == s@.len(),
            digits_end(s@, i as int) == digits_end(s@, j as int),
        decreases n - j,
    {
        let u = s.get_char(j) as u32;
        if !(48 <= u && u <= 57) {
            return j;
        }
        j = j + 1;
    }
    j
}

/// Scans to the first quote at or after `i`.
fn find_quote(s: &str, n: usize, i: usize) -> (e: usize)
    requires
        n == s@.len(),
        i <= n,
    ensures
        e as int == string_end(s@, i as int),
        i <= e <= n,
{
    proof {
        lemma_string_end_range(s@, i as int);
    }
    let mut j = i;
    while j < n
        invariant
            i <= j <= n,
            n == s@.len(),
            string_end(s@, i as int) == string_end(s@, j as int),
        decreases n - j,
    {
        if s.get_char(j) == '"' {
            return j;
        }
        j = j + 1;
    }
    j
}

/// Consumes a canonical unsigned number.
fn parse_nat_x(s: &str, n: usize, i: usize) -> (r: Option<(u128, usize)>)
    requires
        n == s@.len(),
        i <= n,
    ensures
        match r {
            Some((v, e)) => parse_nat(s@, i as int) == Some((v as nat, e as int)) && i < e <= n
                && v < pow10(20),
            None => parse_nat(s@, i as int) is None,
        },
{
    proof {
        lemma_digits_end_range(s@, i as int);
        lemma_pow10_20();
    }
    let e = scan_digits(s, n, i);
    if e == i {
        return None;
    }
    if e - i > 20 {
        return None;
    }
    if e - i > 1 && s.get_char(i) == '0' {
        return None;
    }
    let mut acc: u128 = 0;
    let mut k = i;
    while k < e
        invariant
            i <= k <= e <= n,
            e - i <= 20,
            n == s@.len(),
            e as int == digits_end(s@, i as int),
            forall|q: int| i <= q < e ==> is_digit(#[trigger] s@[q]),
            acc == seq_val(s@.subrange(i as int, k as int)),
            acc < pow10((k - i) as nat),
        decreases e - k,
    {
        let c = s.get_char(k);
        assert(is_digit(s@[k as int]));
        let d = (c as u32 - 48) as u128;
        proof {
            lemma_pow10_mono((k - i) as nat, 20);
            lemma_pow10_20();
            assert(pow10((k + 1 - i) as nat) == 10 * pow10((k - i) as nat));
        }
        acc = acc * 10 + d;
        proof {
            assert(s@.subrange(i as int, k as int + 1).drop_last() =~= s@.subrange(
                i as int,
                k as int,
            ));
            assert(s@.subrange(i as int, k as int + 1).last() == s@[k as int]);
            assert(d as nat == digit_val(s@[k as int]));
        }
        k = k + 1;
    }
    proof {
        lemma_pow10_mono((e - i) as nat, 20);
    }
    Some((acc, e))
}

/// Consumes a canonical signed number.
fn parse_int_x(s: &str, n: usize, i: usize) -> (r: Option<(i128, usize)>)
    requires
        n == s@.len(),
        i <= n,
    ensures
        match r {
            Some((v, e)) => parse_int(s@, i as int) == Some((v as int, e as int)) && i < e <= n,
            None => parse_int(s@, i as int) is None,
        },
{
    if i >= n {
        return None;
    }
    proof {
        lemma_pow10_20();
    }
    if s.get_char(i) == '-' {
        match parse_nat_x(s, n, i + 1) {
            Some((v, e)) => if v == 0 {
                None
            } else {
                Some((-(v as i128), e))
            },
            None => None,
        }
    } else {
        match parse_nat_x(s, n, i) {
            Some((v, e)) => Some((v as i128, e)),
            None => None,
        }
    }
}

/// Consumes an optional latency.
fn parse_opt_u64_x(s: &str, n: usize, i: usize) -> (r: Option<(Option<u64>, usize)>)
    requires
        n == s@.len(),
        i <= n,
    ensures
        match r {
            Some((v, e)) => parse_opt_u64(s@, i as int) == Some((v, e as int)) && i < e <= n,
            None => parse_opt_u64(s@, i as int) is None,
        },
{
    match match_lit(s, n, i, "null") {
        Some(e) => {
            proof {
                reveal_strlit("null");
            }
            Some((None, e))
        },
        None => match parse_nat_x(s, n, i) {
            Some((v, e)) => if v <= u64::MAX as u128 {
                Some((Some(v as u64), e))
            } else {
                None
            },
            None => None,
        },
    }
}

/// Consumes an optional delta.
fn parse_opt_diff_x(s: &str, n: usize, i: usize) -> (r: Option<(Option<i128>, usize)>)
    requires
        n == s@.len(),
        i <= n,
    ensures
        match r {
            Some((v, e)) => parse_opt_diff(s@, i as int) == Some((v, e as int)) && i < e <= n,
            None => parse_opt_diff(s@, i as int) is None,
        },
{
    match match_lit(s, n, i, "null") {
        Some(e) => {
            proof {
                reveal_strlit("null");
            }
            Some((None, e))
        },
        None => match parse_int_x(s, n, i) {
            Some((v, e)) => if -(u64::MAX as i128) <= v && v <= u64::MAX as i128 {
                Some((Some(v), e))
            } else {
                None
            },
            None => None,
        },
    }
}

/// Consumes a status name.
fn parse_status_x(s: &str, n: usize, i: usize) -> (r: Option<(CheckStatus, usize)>)
    requires
        n == s@.len(),
        i <= n,
    ensures
        match r {
            Some((v, e)) => parse_status(s@, i as int) == Some((v, e as int)) && i < e <= n,
            None => parse_status(s@, i as int) is None,
        },
{
    proof {
        reveal_strlit("Up");
        reveal_strlit("Down");
        reveal_strlit("Error");
    }
    match match_lit(s, n, i, "Up") {
        Some(e) => Some((CheckStatus::Up, e)),
        None => match match_lit(s, n, i, "Down") {
            Some(e) => Some((CheckStatus::Down, e)),
            None => match match_lit(s, n, i, "Error") {
                Some(e) => Some((CheckStatus::Error, e)),
                None => None,
            },
        },
    }
}

/// Consumes one outcome object.
fn parse_outcome_x(s: &str, n: usize, i: usize) -> (r: Option<(CheckResult, usize)>)
    requires
        n == s@.len(),
        i <= n,
    ensures
        match r {
            Some((v, e)) => parse_outcome(s@, i as int) == Some((v, e as int)) && i < e <= n,
            None => parse_outcome(s@, i as int) is None,
        },
{
    let i1 = match match_lit(s, n, i, "{\"timestamp\":") {
        Some(x) => x,
        None => {
            return None;
        },
    };
    let (ts, i2) = match parse_int_x(s, n, i1) {
        Some(x) => x,
        None => {
            return None;
        },
    };
    if ts < i64::MIN as i128 || ts > i64::MAX as i128 {
        return None;
    }
    let i3 = match match_lit(s, n, i2, ",\"status\":\"") {
        Some(x) => x,
        None => {
            return None;
        },
    };
    let (st, i4) = match parse_status_x(s, n, i3) {
        Some(x) => x,
        None => {
            return None;
        },
    };
    let i5 = match match_lit(s, n, i4, "\",\"response_time\":") {
        Some(x) => x,
        None => {
            return None;
        },
    };
    let (rt, i6) = match parse_opt_u64_x(s, n, i5) {
        Some(x) => x,
        None => {
            return None;
        },
    };
    let i7 = match match_lit(s, n, i6, ",\"diff_from_prev\":") {
        Some(x) => x,
        None => {
            return None;
        },
    };
    let (dp, i8) = match parse_opt_diff_x(s, n, i7) {
        Some(x) => x,
        None => {
            return None;
        },
    };
    match match_lit(s, n, i8, ",\"diff_from_acceptable\":") {
        Some(i9) => {
            let (da, i10) = match parse_opt_diff_x(s, n, i9) {
                Some(x) => x,
                None => {
                    return None;
                },
            };
            let i11 = match match_lit(s, n, i10, "}") {
                Some(x) => x,
                None => {
                    return None;
                },
            };
            Some(
                (
                    CheckResult {
                        timestamp_ms: ts as i64,
                        status: st,
                        response_time_ms: rt,
                        diff_from_prev: dp,
                        diff_from_acceptable: da,
                    },
                    i11,
                ),
            )
        },
        None => {
            let i9 = match match_lit(s, n, i8, "}") {
                Some(x) => x,
                None => {
                    return None;
                },
            };
            Some(
                (
                    CheckResult {
                        timestamp_ms: ts as i64,
                        status: st,
                        response_time_ms: rt,
                        diff_from_prev: dp,
                        diff_from_acceptable: None,
                    },
                    i9,
                ),
            )
        },
    }
}

/// Consumes the outcomes after the first, up to the closing bracket.
fn parse_results_rest_x(s: &str, n: usize, i: usize, acc: VecDeque<CheckResult>) -> (r: Option<
    (VecDeque<CheckResult>, usize),
>)
    requires
        n == s@.len(),
        i <= n,
    ensures
        match r {
            Some((v, e)) => parse_results_rest(s@, i as int, acc@) == Some((v@, e as int)) && e
                <= n,
            None => parse_results_rest(s@, i as int, acc@) is None,
        },
    decreases n - i,
{
    match match_lit(s, n, i, "]") {
        Some(e) => Some((acc, e)),
        None => {
            let i1 = match match_lit(s, n, i, ",") {
                Some(x) => x,
                None => {
                    return None;
                },
            };
            let (rr, j) = match parse_outcome_x(s, n, i1) {
                Some(x) => x,
                None => {
                    return None;
                },
            };
            if acc.len() >= MAX_HISTORY {
                return None;
            }
            let mut acc = acc;
            acc.push_back(rr);
            parse_results_rest_x(s, n, j, acc)
        },
    }
}

/// Consumes an outcome list, up to and including the closing bracket.
fn parse_results_x(s: &str, n: usize, i: usize) -> (r: Option<(VecDeque<CheckResult>, usize)>)
    requires
        n == s@.len(),
        i <= n,
    ensures
        match r {
            Some((v, e)) => parse_results(s@, i as int) == Some((v@, e as int)) && e <= n,
            None => parse_results(s@, i as int) is None,
        },
{
    match match_lit(s, n, i, "]") {
        Some(e) => {
            let v: VecDeque<CheckResult> = VecDeque::new();
            proof {
                assert(v@ =~= Seq::<CheckResult>::empty());
            }
            Some((v, e))
        },
        None => {
            let (rr, j) = match parse_outcome_x(s, n, i) {
                Some(x) => x,
                None => {
                    return None;
                },
            };
            let mut v: VecDeque<CheckResult> = VecDeque::new();
            v.push_back(rr);
            proof {
                assert(v@ =~= seq![rr]);
            }
            parse_results_rest_x(s, n, j, v)
        },
    }
}

/// Consumes one history object.
fn parse_hist_x(s: &str, n: usize, i: usize) -> (r: Option<((u64, VecDeque<CheckResult>), usize)>)
    requires
        n == s@.len(),
        i <= n,
    ensures
        match r {
            Some(((a, v), e)) => parse_hist(s@, i as int) == Some(((a, v@), e as int)) && e <= n,
            None => parse_hist(s@, i as int) is None,
        },
{
    proof {
        lemma_pow10_20();
    }
    match match_lit(s, n, i, "{\"acceptable_latency_ms\":") {
        Some(i1) => {
            let (v, i2) = match parse_nat_x(s, n, i1) {
                Some(x) => x,
                None => {
                    return None;
                },
            };
            if v > u64::MAX as u128 {
                return None;
            }
            let i3 = match match_lit(s, n, i2, ",\"results\":[") {
                Some(x) => x,
                None => {
                    return None;
                },
            };
            let (rs, i4) = match parse_results_x(s, n, i3) {
                Some(x) => x,
                None => {
                    return None;
                },
            };
            let i5 = match match_lit(s, n, i4, "}") {
                Some(x) => x,
                None => {
                    return None;
                },
            };
            Some(((v as u64, rs), i5))
        },
        None => {
            let i1 = match match_lit(s, n, i, "{\"results\":[") {
                Some(x) => x,
                None => {
                    return None;
                },
            };
            let (rs, i2) = match parse_results_x(s, n, i1) {
                Some(x) => x,
                None => {
                    return None;
                },
            };
            let i3 = match match_lit(s, n, i2, "}") {
                Some(x) => x,
                None => {
                    return None;
                },
            };
            Some(((0u64, rs), i3))
        },
    }
}

/// Consumes one keyed entry.
fn parse_entry_x(s: &str, n: usize, i: usize) -> (r: Option<
    ((String, u64, VecDeque<CheckResult>), usize),
>)
    requires
        n == s@.len(),
        i <= n,
    ensures
        match r {
            Some(((url, a, v), e)) => parse_entry(s@, i as int) == Some(
                ((url@, a, v@), e as int),
            ) && e <= n,
            None => parse_entry(s@, i as int) is None,
        },
{
    let i1 = match match_lit(s, n, i, "\"") {
        Some(x) => x,
        None => {
            return None;
        },
    };
    let j = find_quote(s, n, i1);
    if j >= n {
        return None;
    }
    let url_slice = s.substring_char(i1, j);
    let url = url_slice.to_owned();
    let i2 = match match_lit(s, n, j + 1, ":") {
        Some(x) => x,
        None => {
            return None;
        },
    };
    let ((a, rs), i3) = match parse_hist_x(s, n, i2) {
        Some(x) => x,
        None => {
            return None;
        },
    };
    Some(((url, a, rs), i3))
}

/// The views of a history vector, in order.
pub open spec fn views_of(v: Seq<CheckHistory>) -> Seq<HistoryView> {
    Seq::new(v.len(), |k: int| v[k]@)
}

/// Whether some already parsed history carries `url`.
fn contains_url_vec(v: &Vec<CheckHistory>, url: &String) -> (r: bool)
    ensures
        r == seq_contains_url(views_of(v@), url@),
{
    let mut i: usize = 0;
    while i < v.len()
        invariant
            i <= v@.len(),
            forall|j: int| 0 <= j < i ==> #[trigger] views_of(v@)[j].url != url@,
        decreases v@.len() - i,
    {
        if v[i].url == *url {
            assert(views_of(v@)[i as int].url == url@);
            return true;
        }
        i = i + 1;
    }
    false
}

/// Consumes the entries after the first, up to the closing brace.
#[verifier::rlimit(30)]
fn parse_entries_rest_x(s: &str, n: usize, i: usize, acc: Vec<CheckHistory>) -> (r: Option<
    (Vec<CheckHistory>, usize),
>)
    requires
        n == s@.len(),
        i <= n,
    ensures
        match r {
            Some((v, e)) => parse_entries_rest(s@, i as int, views_of(acc@)) == Some(
                (views_of(v@), e as int),
            ) && e <= n,
            None => parse_entries_rest(s@, i as int, views_of(acc@)) is None,
        },
    decreases n - i,
{
    match match_lit(s, n, i, "}") {
        Some(e) => Some((acc, e)),
        None => {
            let i1 = match match_lit(s, n, i, ",") {
                Some(x) => x,
                None => {
                    return None;
                },
            };
            let ((url, a, rs), j) = match parse_entry_x(s, n, i1) {
                Some(x) => x,
                None => {
                    return None;
                },
            };
            if j <= i {
                return None;
            }
            if contains_url_vec(&acc, &url) {
                return None;
            }
            let mut acc = acc;
            let ghost pre = views_of(acc@);
            acc.push(CheckHistory { url, acceptable_latency_ms: a, results: rs });
            proof {
                assert(views_of(acc@) =~= pre.push(entry_view(acc@.last().url@, a, rs@)));
            }
            parse_entries_rest_x(s, n, j, acc)
        },
    }
}

/// Consumes the whole entry list, up to and including the closing brace.
fn parse_entries_x(s: &str, n: usize, i: usize) -> (r: Option<(Vec<CheckHistory>, usize)>)
    requires
        n == s@.len(),
        i <= n,
    ensures
        match r {
            Some((v, e)) => parse_entries(s@, i as int) == Some((views_of(v@), e as int)) && e
                <= n,
            None => parse_entries(s@, i as int) is None,
        },
{
    match match_lit(s, n, i, "}") {
        Some(e) => {
            let v: Vec<CheckHistory> = Vec::new();
            proof {
                assert(views_of(v@) =~= Seq::<HistoryView>::empty());
            }
            Some((v, e))
        },
        None => {
            let ((url, a, rs), j) = match parse_entry_x(s, n, i) {
                Some(x) => x,
                None => {
                    return None;
                },
            };
            if j <= i {
                return None;
            }
            let mut v: Vec<CheckHistory> = Vec::new();
            v.push(CheckHistory { url, acceptable_latency_ms: a, results: rs });
            proof {
                assert(views_of(v@) =~= seq![entry_view(v@.last().url@, a, rs@)]);
            }
            parse_entries_rest_x(s, n, j, v)
        },
    }
}

/// Recovers the aggregate a snapshot document denotes; an unreadable
/// document — corrupt, torn, or of a shape this reader never wrote —
/// recovers as the empty aggregate, exactly as a missing one does.
pub fn recover_document(doc: &str) -> (a: Aggregate)
    ensures
        a@ == recover_spec(doc@),
        agg_wf(a@),
        urls_ok(a@),
{
    proof {
        lemma_parse_doc_wf(doc@);
    }
    let n = doc.unicode_len();
    let i1 = match match_lit(doc, n, 0, "{") {
        Some(x) => x,
        None => {
            return Aggregate::new();
        },
    };
    match parse_entries_x(doc, n, i1) {
        Some((v, e)) => {
            if e == n {
                let a = Aggregate { histories: v };
                proof {
                    assert(a@ =~= views_of(v@));
                }
                a
            } else {
                Aggregate::new()
            }
        },
        None => Aggregate::new(),
    }
}

/// Startup recovery: a prior snapshot's text if one could be read, or
/// nothing.  Absent, unreadable and readable documents all recover, the
/// first two as the empty aggregate: recovery never fails.
pub fn recover(doc: Option<&String>) -> (a: Aggregate)
    ensures
        match doc {
            Some(d) => a@ == recover_spec(d@),
            None => a@ == Seq::<HistoryView>::empty(),
        },
        agg_wf(a@),
        urls_ok(a@),
{
    match doc {
        Some(d) => recover_document(d.as_str()),
        None => Aggregate::new(),
    }
}

/// Serializes the whole aggregate into one snapshot document.  The caller
/// writes the text to durable storage all-or-nothing; a reader of any
/// earlier complete document recovers, so a failed or torn write costs at
/// most this tick's snapshot.
pub fn snapshot_document(a: &Aggregate) -> (doc: String)
    requires
        agg_wf(a@),
    ensures
        doc@ == enc_doc(a@),
{
    let mut out = String::new();
    out.append("{");
    if a.histories.len() > 0 {
        proof {
            assert(a.histories[0int]@ == a@[0int]);
            assert(a@[0int].wf());
        }
        push_entry(&mut out, &a.histories[0]);
        push_entries_rest(&mut out, a, 1);
        proof {
            assert(a@.skip(1) =~= a@.drop_first());
        }
    }
    out.append("}");
    proof {
        assert(out@ =~= enc_doc(a@));
    }
    out
}

} // verus!
