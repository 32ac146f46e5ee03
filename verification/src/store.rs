//! The persisted message record and a verified in-memory store with the
//! repository's two operations: append, and delete-older-than.

use vstd::prelude::*;

verus! {

/// A persisted message record: created once at the end of the ingestion
/// pipeline, immutable thereafter, destroyed only by retention deletion.
pub struct Message {
    /// Identifier assigned by the persistence layer on insert; never set by
    /// the pipeline.
    pub id: Option<u64>,
    /// The author's display name.
    pub username: String,
    /// The channel's display name; empty when channel-name resolution
    /// failed.
    pub channel: String,
    /// The message body after mention resolution.
    pub text: String,
    /// The enrichment label; absent when enrichment failed, was skipped, or
    /// returned no signal.
    pub analyzed: Option<String>,
    /// Stamped by the pipeline at persistence time, adjusted to the fixed
    /// target zone offset.
    pub created_at: i64,
}

/// An in-memory message store with the repository operations the service
/// relies on.  It stands in for the persistence collaborator wherever the
/// records themselves are reasoned about or tested.
pub struct MessageStore {
    pub records: Vec<Message>,
}

impl MessageStore {
    /// An empty store.
    pub fn new() -> (s: Self)
        ensures
            s.records@ == Seq::<Message>::empty(),
    {
        MessageStore { records: Vec::new() }
    }

    /// Appends one record; nothing else changes.
    pub fn append(&mut self, m: Message)
        ensures
            final(self).records@ == old(self).records@.push(m),
    {
        self.records.push(m);
    }

    /// Number of records held.
    pub fn len(&self) -> (n: usize)
        ensures
            n == self.records@.len(),
    {
        self.records.len()
    }

    /// Deletes every record whose `created_at` is strictly before `cutoff`
    /// and no other: the kept records are exactly those at or after the
    /// cutoff, in their original order, and the deleted count is returned.
    pub fn delete_older_than(&mut self, cutoff: i64) -> (deleted: u64)
        ensures
            final(self).records@ == old(self).records@.filter(
                |m: Message| m.created_at >= cutoff,
            ),
            deleted == old(self).records@.len() - final(self).records@.len(),
            forall|i: int|
                0 <= i < final(self).records@.len() ==> final(self).records@[i].created_at
                    >= cutoff,
    {
        let ghost orig = self.records@;
        let ghost pred = |m: Message| m.created_at >= cutoff;
        let n = self.records.len();
        let mut kept: Vec<Message> = Vec::new();
        let mut j: usize = 0;
        proof {
            reveal(Seq::filter);
            assert(orig.skip(0) =~= orig);
            assert(orig.take(0) =~= Seq::<Message>::empty());
        }
        while j < n
            invariant
                n == orig.len(),
                j <= n,
                self.records@ == orig.skip(j as int),
                kept@ == orig.take(j as int).filter(pred),
                pred == (|m: Message| m.created_at >= cutoff),
            decreases n - j,
        {
            let m = self.records.remove(0);
            proof {
                assert(orig.skip(j as int)[0] == orig[j as int]);
                assert(orig.skip(j as int).remove(0) =~= orig.skip(j as int + 1));
            }
            let ghost kept_prev = kept@;
            if m.created_at >= cutoff {
                kept.push(m);
            }
            proof {
                reveal(Seq::filter);
                assert(orig.take(j as int + 1).drop_last() =~= orig.take(j as int));
                assert(orig.take(j as int + 1).last() == orig[j as int]);
            }
            j = j + 1;
        }
        proof {
            assert(orig.take(n as int) =~= orig);
            broadcast use vstd::seq_lib::group_filter_ensures;

            assert(orig.filter(pred).len() <= orig.len());
        }
        let remaining = kept.len();
        self.records = kept;
        (n - remaining) as u64
    }
}

} // verus!
