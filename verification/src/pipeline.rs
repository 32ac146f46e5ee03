//! The ingestion pipeline: filter, resolve, enrich, stamp, persist — with
//! exactly one append per accepted event.

use vstd::prelude::*;
use crate::event::InboundEvent;
use crate::filter::{evaluate_filters, spec_filter_decision, FilterConfig, FilterDecision};
use crate::mentions::{replace_mentions, spec_resolve_mentions, Directory};
use crate::store::{Message, MessageStore};

verus! {

/// The fixed target zone offset applied to record timestamps (UTC+9).
pub const RECORD_TZ_OFFSET_SECS: i64 = 9 * 3600;

/// A record's timestamp: the wall clock at persistence time, shifted to the
/// fixed target zone offset.
pub open spec fn spec_stamp(now_utc: i64) -> int {
    now_utc + RECORD_TZ_OFFSET_SECS
}

/// Stamps the persistence-time clock reading.
pub fn stamp_time(now_utc: i64) -> (t: i64)
    requires
        now_utc + RECORD_TZ_OFFSET_SECS <= i64::MAX,
    ensures
        t == spec_stamp(now_utc),
{
    now_utc + RECORD_TZ_OFFSET_SECS
}

/// Stamping preserves clock order: while the clock does not step back,
/// successive records carry non-decreasing timestamps.
pub proof fn lemma_stamp_monotonic(earlier: i64, later: i64)
    requires
        earlier <= later,
    ensures
        spec_stamp(earlier) <= spec_stamp(later),
{
}

/// The classification signals enrichment can detect.
#[derive(Clone, Copy, Debug, PartialEq, Eq, Structural)]
pub enum SentimentKind {
    Mixed,
    Negative,
    Neutral,
    Positive,
    Other,
}

/// The label text stored for each classification signal.
pub open spec fn spec_sentiment_label(k: SentimentKind) -> Seq<char> {
    match k {
        SentimentKind::Mixed => "mixed"@,
        SentimentKind::Negative => "negative"@,
        SentimentKind::Neutral => "neutral"@,
        SentimentKind::Positive => "positive"@,
        SentimentKind::Other => "unknown"@,
    }
}

/// Renders the label text for a classification signal.
pub fn sentiment_label(k: SentimentKind) -> (r: String)
    ensures
        r@ == spec_sentiment_label(k),
{
    match k {
        SentimentKind::Mixed => "mixed".to_owned(),
        SentimentKind::Negative => "negative".to_owned(),
        SentimentKind::Neutral => "neutral".to_owned(),
        SentimentKind::Positive => "positive".to_owned(),
        SentimentKind::Other => "unknown".to_owned(),
    }
}

/// Text of this many words or fewer is not sent for translation.
pub const TRANSLATION_MIN_WORDS: usize = 20;

/// Only text of more than `TRANSLATION_MIN_WORDS`
/// whitespace-separated words is worth a translation call.
pub fn should_translate(text: &str) -> (r: bool)
    ensures
        r == (crate::text::word_count(text@) > TRANSLATION_MIN_WORDS),
{
    crate::text::count_words(text) > TRANSLATION_MIN_WORDS
}

/// Enrichment failure never drops the message: an error means "no
/// classification" and the pipeline proceeds to persistence.
pub fn classification_of<E>(r: Result<Option<String>, E>) -> (c: Option<String>)
    ensures
        r matches Ok(l) ==> c == l,
        r is Err ==> c is None,
{
    match r {
        Ok(l) => l,
        Err(_) => None,
    }
}

/// Builds the record the pipeline persists.  The id is left for the
/// persistence layer; a missing channel name degrades to an empty one and
/// never blocks persistence.
pub fn build_message(
    author: String,
    channel_name: Option<String>,
    text: String,
    classification: Option<String>,
    stamped_at: i64,
) -> (m: Message)
    ensures
        m.id is None,
        m.username == author,
        channel_name matches Some(c) ==> m.channel == c,
        channel_name is None ==> m.channel@ == Seq::<char>::empty(),
        m.text == text,
        m.analyzed == classification,
        m.created_at == stamped_at,
{
    let channel = match channel_name {
        Some(c) => c,
        None => String::new(),
    };
    Message { id: None, username: author, channel, text, analyzed: classification, created_at: stamped_at }
}

/// The ingestion pipeline's configuration.
pub struct IngestionPipeline {
    pub filter: FilterConfig,
}

impl IngestionPipeline {
    /// Filter, then resolve: `None` exactly when the filter chain rejects
    /// the event; otherwise the mention-resolved text.
    pub fn prepare(&self, ev: &InboundEvent, dir: &Directory) -> (r: Option<String>)
        ensures
            (r is Some) == (spec_filter_decision(*ev, self.filter) == FilterDecision::Accept),
            r matches Some(t) ==> t@ == spec_resolve_mentions(*ev, *dir),
    {
        if evaluate_filters(ev, &self.filter) == FilterDecision::Accept {
            Some(replace_mentions(ev, dir))
        } else {
            None
        }
    }

    /// One full ingestion step against a store: evaluates the filter chain,
    /// resolves mentions, attaches the classification, stamps the time, and
    /// appends exactly one record when — and only when — the event is
    /// accepted.
    pub fn ingest<E>(
        &self,
        ev: &InboundEvent,
        dir: &Directory,
        enrichment: Result<Option<String>, E>,
        channel_name: Option<String>,
        now_utc: i64,
        store: &mut MessageStore,
    ) -> (accepted: bool)
        requires
            now_utc + RECORD_TZ_OFFSET_SECS <= i64::MAX,
        ensures
            accepted == (spec_filter_decision(*ev, self.filter) == FilterDecision::Accept),
            !accepted ==> final(store).records@ == old(store).records@,
            accepted ==> final(store).records@.len() == old(store).records@.len() + 1
                && final(store).records@ == old(store).records@.push(
                final(store).records@.last(),
            ) && {
                let m = final(store).records@.last();
                &&& m.id is None
                &&& m.username@ == ev.author_name@
                &&& m.text@ == spec_resolve_mentions(*ev, *dir)
                &&& (enrichment matches Ok(l) ==> m.analyzed == l)
                &&& (enrichment is Err ==> m.analyzed is None)
                &&& (channel_name matches Some(c) ==> m.channel@ == c@)
                &&& (channel_name is None ==> m.channel@ == Seq::<char>::empty())
                &&& m.created_at == spec_stamp(now_utc)
            },
    {
        match self.prepare(ev, dir) {
            Some(text) => {
                let classification = classification_of(enrichment);
                let stamped = stamp_time(now_utc);
                let m = build_message(
                    ev.author_name.clone(),
                    channel_name,
                    text,
                    classification,
                    stamped,
                );
                store.append(m);
                true
            },
            None => false,
        }
    }
}

} // verus!
