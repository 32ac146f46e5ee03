//! The filter chain: pure accept/reject evaluation of an inbound event
//! against static configuration, with short-circuit ordering.

use vstd::prelude::*;
use crate::event::InboundEvent;
use crate::text::{count_words, word_count};

verus! {

/// Static filter configuration: id lists and the minimum word count.
pub struct FilterConfig {
    /// Ids of known automation accounts.
    pub automation_ids: Vec<u64>,
    /// Sender ids whose events are ignored.
    pub ignored_user_ids: Vec<u64>,
    /// Channel ids whose events are ignored.
    pub ignored_channel_ids: Vec<u64>,
    /// Guild ids whose events are admitted; events from other guilds are
    /// rejected, but an event with no guild passes this check.
    pub allowed_guild_ids: Vec<u64>,
    /// Minimum number of whitespace-separated words (inclusive).
    pub min_word_count: usize,
}

/// The filter chain outcome: `Accept`, or the first rejection reason in
/// evaluation order.
#[derive(Clone, Copy, Debug, PartialEq, Eq, Structural)]
pub enum FilterDecision {
    Accept,
    RejectedAutomation,
    RejectedIgnoredUser,
    RejectedIgnoredChannel,
    RejectedTooShort,
    RejectedGuildNotAllowed,
}

/// The decision on `ev` under `cfg`: checks run in a fixed order and the
/// first failing check decides.  An event with no guild id passes the
/// allow-list check.
pub open spec fn spec_filter_decision(ev: InboundEvent, cfg: FilterConfig) -> FilterDecision {
    if ev.author_is_bot || cfg.automation_ids@.contains(ev.author_id) {
        FilterDecision::RejectedAutomation
    } else if cfg.ignored_user_ids@.contains(ev.author_id) {
        FilterDecision::RejectedIgnoredUser
    } else if cfg.ignored_channel_ids@.contains(ev.channel_id) {
        FilterDecision::RejectedIgnoredChannel
    } else if word_count(ev.text@) < cfg.min_word_count {
        FilterDecision::RejectedTooShort
    } else if ev.guild_id matches Some(g) && !cfg.allowed_guild_ids@.contains(g) {
        FilterDecision::RejectedGuildNotAllowed
    } else {
        FilterDecision::Accept
    }
}

/// Linear membership test on an id list.
pub fn contains_id(ids: &Vec<u64>, x: u64) -> (r: bool)
    ensures
        r == ids@.contains(x),
{
    let mut i: usize = 0;
    while i < ids.len()
        invariant
            i <= ids@.len(),
            forall|j: int| 0 <= j < i ==> ids@[j] != x,
        decreases ids@.len() - i,
    {
        if ids[i] == x {
            return true;
        }
        i = i + 1;
    }
    false
}

/// Whether the sender counts as an automation account: flagged by the
/// transport, or in the configured automation id set.
pub fn is_automation(ev: &InboundEvent, cfg: &FilterConfig) -> (r: bool)
    ensures
        r == (ev.author_is_bot || cfg.automation_ids@.contains(ev.author_id)),
{
    ev.author_is_bot || contains_id(&cfg.automation_ids, ev.author_id)
}

/// Whether the sender's id is in the configured ignore-list.
pub fn should_ignore_user(ev: &InboundEvent, cfg: &FilterConfig) -> (r: bool)
    ensures
        r == cfg.ignored_user_ids@.contains(ev.author_id),
{
    contains_id(&cfg.ignored_user_ids, ev.author_id)
}

/// Whether the originating channel's id is in the configured ignore-list.
pub fn should_ignore_channel(ev: &InboundEvent, cfg: &FilterConfig) -> (r: bool)
    ensures
        r == cfg.ignored_channel_ids@.contains(ev.channel_id),
{
    contains_id(&cfg.ignored_channel_ids, ev.channel_id)
}

/// Whether `text` has at least `min_word_count` whitespace-separated words
/// (the boundary is inclusive).
pub fn has_minimum_word_count(text: &str, min_word_count: usize) -> (r: bool)
    ensures
        r == (word_count(text@) >= min_word_count),
{
    count_words(text) >= min_word_count
}

/// Whether the event's guild falls outside the allow-list.  An event with no
/// guild id is never rejected by this check.
pub fn should_not_ignore_guild(ev: &InboundEvent, cfg: &FilterConfig) -> (r: bool)
    ensures
        r == (ev.guild_id matches Some(g) && !cfg.allowed_guild_ids@.contains(g)),
{
    match ev.guild_id {
        Some(g) => !contains_id(&cfg.allowed_guild_ids, g),
        None => false,
    }
}

/// Whether the event originates from exactly the given guild.  An event with
/// no guild id never matches.
pub fn filter_guild(ev: &InboundEvent, guild: u64) -> (r: bool)
    ensures
        r == (ev.guild_id matches Some(g) && g == guild),
{
    match ev.guild_id {
        Some(g) => g == guild,
        None => false,
    }
}

/// Evaluates the filter chain on `ev`: the first failing check, in order,
/// decides, and no later check runs.
pub fn evaluate_filters(ev: &InboundEvent, cfg: &FilterConfig) -> (d: FilterDecision)
    ensures
        d == spec_filter_decision(*ev, *cfg),
{
    if is_automation(ev, cfg) {
        FilterDecision::RejectedAutomation
    } else if should_ignore_user(ev, cfg) {
        FilterDecision::RejectedIgnoredUser
    } else if should_ignore_channel(ev, cfg) {
        FilterDecision::RejectedIgnoredChannel
    } else if !has_minimum_word_count(ev.text.as_str(), cfg.min_word_count) {
        FilterDecision::RejectedTooShort
    } else if should_not_ignore_guild(ev, cfg) {
        FilterDecision::RejectedGuildNotAllowed
    } else {
        FilterDecision::Accept
    }
}

/// An event whose sender is flagged as automation is rejected, whatever its
/// other fields.
pub proof fn lemma_automation_always_rejected(ev: InboundEvent, cfg: FilterConfig)
    requires
        ev.author_is_bot,
    ensures
        spec_filter_decision(ev, cfg) == FilterDecision::RejectedAutomation,
{
}

/// An event whose text has fewer words than the configured minimum is never
/// accepted.
pub proof fn lemma_below_minimum_words_rejected(ev: InboundEvent, cfg: FilterConfig)
    requires
        word_count(ev.text@) < cfg.min_word_count,
    ensures
        spec_filter_decision(ev, cfg) != FilterDecision::Accept,
{
}

/// The word-count boundary is inclusive: with exactly the minimum number of
/// words, and every other check passing, the event is accepted.
pub proof fn lemma_minimum_words_accepted(ev: InboundEvent, cfg: FilterConfig)
    requires
        word_count(ev.text@) == cfg.min_word_count,
        !ev.author_is_bot,
        !cfg.automation_ids@.contains(ev.author_id),
        !cfg.ignored_user_ids@.contains(ev.author_id),
        !cfg.ignored_channel_ids@.contains(ev.channel_id),
        ev.guild_id matches Some(g) ==> cfg.allowed_guild_ids@.contains(g),
    ensures
        spec_filter_decision(ev, cfg) == FilterDecision::Accept,
{
}

} // verus!
