//! Retention: the message store's age-based bulk delete, and the scheduler
//! that drives it on a cron cadence with retry-until-success.

use vstd::prelude::*;
use crate::schedule::{
    cron_accepts, cron_next_of, RecurringTrigger, CRON_QUERY_MAX_SECS, CRON_QUERY_MIN_SECS,
};
use crate::store::Message;

verus! {

/// Records older than this many seconds are deleted (three weeks).
pub const RETENTION_WINDOW_SECS: i64 = 3 * 7 * 24 * 3600;

/// Fixed backoff between delete retries (five minutes).
pub const RETRY_BACKOFF_SECS: i64 = 300;

/// Where the retention loop stands.
#[derive(Clone, Copy, Debug, PartialEq, Eq, Structural)]
pub enum RetentionPhase {
    /// Between runs: the next fire time is not yet computed.
    Idle,
    /// Sleeping until the fire instant.
    Waiting { fire_at: i64 },
    /// A delete with this cutoff is owed, and is retried until it succeeds.
    Deleting { cutoff: i64, attempts: u64 },
}

/// One failed delete: the owed cutoff is kept and only the attempt count
/// grows.  Outside the deleting phase a failure report changes nothing.
pub open spec fn spec_fail_step(p: RetentionPhase) -> RetentionPhase {
    match p {
        RetentionPhase::Deleting { cutoff, attempts } => RetentionPhase::Deleting {
            cutoff,
            attempts: (attempts + 1) as u64,
        },
        _ => p,
    }
}

/// The phase after `n` consecutive failed deletes.
pub open spec fn spec_after_failures(p: RetentionPhase, n: nat) -> RetentionPhase
    decreases n,
{
    if n == 0 {
        p
    } else {
        spec_fail_step(spec_after_failures(p, (n - 1) as nat))
    }
}

/// Retrying never advances and never recomputes: after any number of failed
/// deletes, the owed cutoff is still the one computed at wake, with only the
/// attempt count grown — so the next successful delete is the same delete
/// the fire time owed.
pub proof fn lemma_retries_keep_cutoff(cutoff: i64, n: nat)
    requires
        n <= u64::MAX,
    ensures
        spec_after_failures(RetentionPhase::Deleting { cutoff, attempts: 0u64 }, n)
            == (RetentionPhase::Deleting { cutoff, attempts: n as u64 }),
    decreases n,
{
    if n > 0 {
        lemma_retries_keep_cutoff(cutoff, (n - 1) as nat);
    }
}

/// The retention scheduler: computes fire times from its cron trigger and
/// holds one owed delete across retries.  The loop around it sleeps,
/// performs the delete, and reports the outcome back.
pub struct RetentionScheduler {
    pub trigger: RecurringTrigger,
    pub phase: RetentionPhase,
}

impl RetentionScheduler {
    /// Parses the cron expression once at startup; `None` exactly on a
    /// malformed expression, which the caller treats as fatal.
    pub fn new(cron_expr: String, tz_offset_secs: i32) -> (r: Option<Self>)
        ensures
            (r is Some) == cron_accepts(cron_expr@),
            r matches Some(s) ==> s.trigger.cron_expr@ == cron_expr@ && s.trigger.tz_offset_secs
                == tz_offset_secs && s.phase == RetentionPhase::Idle,
    {
        match RecurringTrigger::new(cron_expr, tz_offset_secs) {
            Some(tr) => Some(RetentionScheduler { trigger: tr, phase: RetentionPhase::Idle }),
            None => None,
        }
    }

    /// Computes the fire instant the schedule reports strictly after `now`;
    /// the loop sleeps until that instant.  `None` when the schedule reports
    /// no further instant.  `now` must stand a day inside the time library's
    /// representable range.
    pub fn schedule_next(&mut self, now: i64) -> (r: Option<i64>)
        requires
            old(self).phase is Idle,
            CRON_QUERY_MIN_SECS <= now <= CRON_QUERY_MAX_SECS,
        ensures
            final(self).trigger == old(self).trigger,
            r == cron_next_of(
                old(self).trigger.cron_expr@,
                now as int,
                old(self).trigger.tz_offset_secs as int,
            ),
            r matches Some(f) ==> f > now && final(self).phase == (RetentionPhase::Waiting {
                fire_at: f,
            }),
            r is None ==> final(self).phase is Idle,
    {
        match self.trigger.next_fire(now) {
            Some(f) => {
                self.phase = RetentionPhase::Waiting { fire_at: f };
                Some(f)
            },
            None => None,
        }
    }

    /// On waking at `now`: the cutoff is `now` minus the retention window,
    /// and one delete with exactly that cutoff becomes owed.
    pub fn on_wake(&mut self, now: i64) -> (cutoff: i64)
        requires
            old(self).phase is Waiting,
            i64::MIN + RETENTION_WINDOW_SECS <= now,
        ensures
            final(self).trigger == old(self).trigger,
            cutoff == now - RETENTION_WINDOW_SECS,
            final(self).phase == (RetentionPhase::Deleting { cutoff, attempts: 0u64 }),
    {
        let cutoff = now - RETENTION_WINDOW_SECS;
        self.phase = RetentionPhase::Deleting { cutoff, attempts: 0 };
        cutoff
    }

    /// The cutoff of the delete currently owed.
    pub fn pending_cutoff(&self) -> (c: i64)
        requires
            self.phase is Deleting,
        ensures
            self.phase matches RetentionPhase::Deleting { cutoff, .. } && c == cutoff,
    {
        match self.phase {
            RetentionPhase::Deleting { cutoff, .. } => cutoff,
            _ => {
                assert(false);
                0
            },
        }
    }

    /// A failed delete: the same cutoff stays owed — the scheduler never
    /// advances to the next cron cycle past an unfinished delete — and the
    /// loop backs off the fixed interval before retrying.
    pub fn on_delete_failure(&mut self) -> (backoff: i64)
        requires
            old(self).phase matches RetentionPhase::Deleting { attempts, .. } && attempts
                < u64::MAX,
        ensures
            final(self).trigger == old(self).trigger,
            backoff == RETRY_BACKOFF_SECS,
            final(self).phase == spec_fail_step(old(self).phase),
            old(self).phase matches RetentionPhase::Deleting { cutoff, attempts }
                ==> final(self).phase == (RetentionPhase::Deleting {
                cutoff,
                attempts: (attempts + 1) as u64,
            }),
    {
        match self.phase {
            RetentionPhase::Deleting { cutoff, attempts } => {
                self.phase = RetentionPhase::Deleting { cutoff, attempts: attempts + 1 };
            },
            _ => {
                assert(false);
            },
        }
        RETRY_BACKOFF_SECS
    }

    /// A successful delete: the owed delete is discharged, the deleted count
    /// is handed back for the single success log line, and the loop returns
    /// to computing the next fire time.
    pub fn on_delete_success(&mut self, deleted: u64) -> (report: u64)
        requires
            old(self).phase is Deleting,
        ensures
            final(self).trigger == old(self).trigger,
            report == deleted,
            final(self).phase is Idle,
    {
        self.phase = RetentionPhase::Idle;
        deleted
    }
}

/// Whether a record survives a delete with the given cutoff.
pub open spec fn survives(m: Message, cutoff: i64) -> bool {
    m.created_at >= cutoff
}

/// The records a delete with the given cutoff keeps, in their original
/// order.
pub open spec fn surviving(records: Seq<Message>, cutoff: i64) -> Seq<Message> {
    records.filter(|m: Message| m.created_at >= cutoff)
}

/// Deletion is exact: every record at or after the cutoff survives (the
/// kept sequence contains it), and every kept record is at or after the
/// cutoff — no record strictly older than the cutoff remains.
pub proof fn lemma_delete_exactness(records: Seq<Message>, cutoff: i64)
    ensures
        forall|i: int|
            0 <= i < records.len() && survives(#[trigger] records[i], cutoff) ==> surviving(
                records,
                cutoff,
            ).contains(records[i]),
        forall|i: int|
            0 <= i < surviving(records, cutoff).len() ==> survives(
                #[trigger] surviving(records, cutoff)[i],
                cutoff,
            ),
{
    broadcast use vstd::seq_lib::group_filter_ensures;

}

} // verus!
