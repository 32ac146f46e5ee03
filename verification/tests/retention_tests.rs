use discord_stats::retention::{
    RetentionPhase, RetentionScheduler, RETENTION_WINDOW_SECS, RETRY_BACKOFF_SECS,
};
use discord_stats::schedule::RecurringTrigger;
use discord_stats::store::{Message, MessageStore};

fn record(text: &str, created_at: i64) -> Message {
    Message {
        id: None,
        username: "a".to_string(),
        channel: "general".to_string(),
        text: text.to_string(),
        analyzed: None,
        created_at,
    }
}

/// A persistence collaborator that fails a set number of times, then
/// succeeds against the in-memory store.
struct FlakyRepository {
    failures_left: u32,
    store: MessageStore,
    delete_calls: Vec<i64>,
}

impl FlakyRepository {
    fn delete_older_than(&mut self, cutoff: i64) -> Result<u64, ()> {
        self.delete_calls.push(cutoff);
        if self.failures_left > 0 {
            self.failures_left -= 1;
            Err(())
        } else {
            Ok(self.store.delete_older_than(cutoff))
        }
    }
}

#[test]
fn malformed_cron_expression_is_rejected_at_construction() {
    assert!(RetentionScheduler::new("not a cron".to_string(), 0).is_none());
    assert!(RetentionScheduler::new("0 0 1 * * MON".to_string(), 0).is_some());
}

#[test]
fn next_fire_is_the_following_monday() {
    // Tuesday 2023-05-02 10:00:00 UTC; "every Monday 01:00" must fire the
    // following Monday 2023-05-08 01:00:00 UTC, not in the same week.
    let trigger = RecurringTrigger::new("0 0 1 * * MON".to_string(), 0).unwrap();
    let tuesday_10_00 = 1683021600;
    let monday_01_00 = 1683507600;
    assert_eq!(trigger.next_fire(tuesday_10_00), Some(monday_01_00));
}

#[test]
fn next_fire_is_strictly_in_the_future() {
    // exactly at a fire instant, the next fire is a week later
    let trigger = RecurringTrigger::new("0 0 1 * * MON".to_string(), 0).unwrap();
    let monday_01_00 = 1683507600;
    let next = trigger.next_fire(monday_01_00).unwrap();
    assert!(next > monday_01_00);
    assert_eq!(next, monday_01_00 + 7 * 24 * 3600);
}

#[test]
fn wake_computes_cutoff_three_weeks_back() {
    let mut sch = RetentionScheduler::new("0 0 1 * * MON".to_string(), 0).unwrap();
    let fire = sch.schedule_next(1683021600).unwrap();
    assert_eq!(fire, 1683507600);
    let cutoff = sch.on_wake(fire);
    assert_eq!(cutoff, fire - RETENTION_WINDOW_SECS);
    assert_eq!(cutoff, fire - 1814400);
}

#[test]
fn retries_with_fixed_backoff_until_success_and_logs_once() {
    // a collaborator failing three times: the delete runs exactly four
    // times, with the same cutoff every time, the fixed backoff elapses
    // between the failing calls, and the count is logged once at the end
    let n_failures = 3;
    let mut repo = FlakyRepository {
        failures_left: n_failures,
        store: MessageStore::new(),
        delete_calls: vec![],
    };
    repo.store.append(record("old", 100));
    repo.store.append(record("new", 1_683_507_600));

    let mut sch = RetentionScheduler::new("0 0 1 * * MON".to_string(), 0).unwrap();
    let fire = sch.schedule_next(1683021600).unwrap();
    let cutoff = sch.on_wake(fire);

    let mut backoffs: Vec<i64> = vec![];
    let mut logged_counts: Vec<u64> = vec![];
    loop {
        match repo.delete_older_than(sch.pending_cutoff()) {
            Ok(n) => {
                let report = sch.on_delete_success(n);
                logged_counts.push(report);
                break;
            }
            Err(()) => {
                backoffs.push(sch.on_delete_failure());
            }
        }
    }

    assert_eq!(repo.delete_calls.len() as u32, n_failures + 1);
    assert!(repo.delete_calls.iter().all(|c| *c == cutoff));
    assert_eq!(backoffs, vec![RETRY_BACKOFF_SECS; n_failures as usize]);
    assert_eq!(backoffs, vec![300, 300, 300]);
    assert_eq!(logged_counts, vec![1]);
    assert_eq!(sch.phase, RetentionPhase::Idle);
    assert_eq!(repo.store.len(), 1);
    assert_eq!(repo.store.records[0].text, "new");
}

#[test]
fn delete_keeps_records_at_or_after_cutoff_and_drops_the_rest() {
    let mut store = MessageStore::new();
    store.append(record("before", 999));
    store.append(record("at", 1000));
    store.append(record("after", 1001));
    let deleted = store.delete_older_than(1000);
    assert_eq!(deleted, 1);
    assert_eq!(store.len(), 2);
    assert_eq!(store.records[0].text, "at");
    assert_eq!(store.records[0].created_at, 1000);
    assert_eq!(store.records[1].text, "after");
    assert_eq!(store.records[1].created_at, 1001);
}

#[test]
fn delete_on_empty_store_deletes_nothing() {
    let mut store = MessageStore::new();
    assert_eq!(store.delete_older_than(1000), 0);
    assert_eq!(store.len(), 0);
}
