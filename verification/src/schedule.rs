//! A recurring cron-defined trigger: from a cron expression and a fixed
//! reference zone offset, the next fire instant strictly after a given time.

use vstd::prelude::*;

verus! {

/// Whether the cron library accepts `expr` as a well-formed expression.
pub uninterp spec fn cron_accepts(expr: Seq<char>) -> bool;

/// The fire instant (seconds since the epoch) the cron library reports for
/// the schedule `expr` strictly after `after`, read in the zone `tz_offset`
/// seconds east of UTC; `None` when the expression is rejected or the
/// library finds no instant.
pub uninterp spec fn cron_next_of(expr: Seq<char>, after: int, tz_offset: int) -> Option<i64>;

/// One day inside the earliest instant the time library represents
/// (midnight of its first year).  Instants queried closer to the edge could
/// leave the representable range under the zone adjustment or the search's
/// one-second step, which the time library treats as fatal.
pub const CRON_QUERY_MIN_SECS: i64 = -8_334_632_937_600 + 86_400;

/// One day inside the latest instant the time library represents (the last
/// second of its final year).
pub const CRON_QUERY_MAX_SECS: i64 = 8_210_298_412_799 - 86_400;

/// Relies on `cron::Schedule::from_str`: it returns `Ok` exactly when the
/// text parses as a cron expression, a function of the text alone.
#[verifier::external_body]
fn cron_parse_ok(expr: &str) -> (r: bool)
    ensures
        r == cron_accepts(expr@),
{
    <cron::Schedule as core::str::FromStr>::from_str(expr).is_ok()
}

/// Relies on `cron::Schedule::from_str` and `cron::Schedule::after`: the
/// schedule's matching instants are searched from one second past the given
/// time (so the result is strictly later), and the result is a function of
/// the expression, the instant, and the zone offset alone.  The instant must
/// stand a day inside the time library's representable range: the search's
/// first step adds one second, and the zone adjustment up to a day, with
/// arithmetic that treats leaving the range as fatal.
#[verifier::external_body]
fn cron_next_fire(expr: &str, after_secs: i64, tz_offset_secs: i32) -> (r: Option<i64>)
    requires
        CRON_QUERY_MIN_SECS <= after_secs <= CRON_QUERY_MAX_SECS,
    ensures
        r == cron_next_of(expr@, after_secs as int, tz_offset_secs as int),
        r matches Some(t) ==> t > after_secs,
        r is Some ==> cron_accepts(expr@),
{
    let schedule = match <cron::Schedule as core::str::FromStr>::from_str(expr) {
        Ok(s) => s,
        Err(_) => return None,
    };
    let tz = match chrono::FixedOffset::east_opt(tz_offset_secs) {
        Some(z) => z,
        None => return None,
    };
    let after = match chrono::DateTime::from_timestamp(after_secs, 0) {
        Some(d) => d,
        None => return None,
    };
    schedule.after(&after.with_timezone(&tz)).next().map(|d| d.timestamp())
}

/// A recurring trigger: a cron expression read in a fixed reference zone,
/// yielding fire instants one after another.  Both the retention scheduler
/// and the daily report sender consume one.
pub struct RecurringTrigger {
    pub cron_expr: String,
    pub tz_offset_secs: i32,
}

impl RecurringTrigger {
    /// Builds a trigger; `None` exactly when the expression is malformed
    /// (callers treat that as fatal at startup).
    pub fn new(cron_expr: String, tz_offset_secs: i32) -> (r: Option<RecurringTrigger>)
        ensures
            (r is Some) == cron_accepts(cron_expr@),
            r matches Some(tr) ==> tr.cron_expr == cron_expr && tr.tz_offset_secs
                == tz_offset_secs,
    {
        if cron_parse_ok(cron_expr.as_str()) {
            Some(RecurringTrigger { cron_expr, tz_offset_secs })
        } else {
            None
        }
    }

    /// The fire instant the schedule reports, strictly after `now`.
    /// Recomputed from the clock after every firing and after every restart:
    /// a window missed while the process was down is never replayed.  `now`
    /// must stand a day inside the time library's representable range.
    pub fn next_fire(&self, now: i64) -> (r: Option<i64>)
        requires
            CRON_QUERY_MIN_SECS <= now <= CRON_QUERY_MAX_SECS,
        ensures
            r == cron_next_of(self.cron_expr@, now as int, self.tz_offset_secs as int),
            r matches Some(t) ==> t > now,
    {
        cron_next_fire(self.cron_expr.as_str(), now, self.tz_offset_secs)
    }
}

} // verus!
