use discord_stats::event::InboundEvent;
use discord_stats::filter::{
    evaluate_filters, filter_guild, has_minimum_word_count, should_ignore_channel,
    should_ignore_user, should_not_ignore_guild, FilterConfig, FilterDecision,
};
use discord_stats::text::count_words;

fn base_config() -> FilterConfig {
    FilterConfig {
        automation_ids: vec![900],
        ignored_user_ids: vec![10, 11],
        ignored_channel_ids: vec![20, 21],
        allowed_guild_ids: vec![30],
        min_word_count: 5,
    }
}

fn base_event() -> InboundEvent {
    InboundEvent {
        author_id: 1,
        author_name: "a".to_string(),
        author_is_bot: false,
        channel_id: 40,
        guild_id: Some(30),
        text: "hello there how are you friend".to_string(),
        mentions: vec![],
        role_mentions: vec![],
    }
}

#[test]
fn accepts_ordinary_event() {
    assert_eq!(evaluate_filters(&base_event(), &base_config()), FilterDecision::Accept);
}

#[test]
fn bot_flag_rejects_regardless_of_other_fields() {
    let mut ev = base_event();
    ev.author_is_bot = true;
    assert_eq!(evaluate_filters(&ev, &base_config()), FilterDecision::RejectedAutomation);
    // even with an otherwise-ignored user and short text, the automation
    // check decides first
    ev.author_id = 10;
    ev.text = "hi".to_string();
    assert_eq!(evaluate_filters(&ev, &base_config()), FilterDecision::RejectedAutomation);
}

#[test]
fn automation_id_set_rejects() {
    let mut ev = base_event();
    ev.author_id = 900;
    assert_eq!(evaluate_filters(&ev, &base_config()), FilterDecision::RejectedAutomation);
}

#[test]
fn ignored_user_rejects() {
    let mut ev = base_event();
    ev.author_id = 11;
    assert!(should_ignore_user(&ev, &base_config()));
    assert_eq!(evaluate_filters(&ev, &base_config()), FilterDecision::RejectedIgnoredUser);
}

#[test]
fn ignored_channel_rejects() {
    let mut ev = base_event();
    ev.channel_id = 21;
    assert!(should_ignore_channel(&ev, &base_config()));
    assert_eq!(evaluate_filters(&ev, &base_config()), FilterDecision::RejectedIgnoredChannel);
}

#[test]
fn below_minimum_word_count_rejects() {
    let mut ev = base_event();
    ev.text = "one two three four".to_string();
    assert_eq!(evaluate_filters(&ev, &base_config()), FilterDecision::RejectedTooShort);
}

#[test]
fn exactly_minimum_word_count_accepts() {
    let mut ev = base_event();
    ev.text = "one two three four five".to_string();
    assert_eq!(evaluate_filters(&ev, &base_config()), FilterDecision::Accept);
}

#[test]
fn word_count_boundary_is_inclusive() {
    assert!(has_minimum_word_count("one two three four five", 5));
    assert!(!has_minimum_word_count("one two three four", 5));
}

#[test]
fn guild_outside_allow_list_rejects() {
    let mut ev = base_event();
    ev.guild_id = Some(31);
    assert!(should_not_ignore_guild(&ev, &base_config()));
    assert_eq!(evaluate_filters(&ev, &base_config()), FilterDecision::RejectedGuildNotAllowed);
}

#[test]
fn event_without_guild_passes_allow_list() {
    let mut ev = base_event();
    ev.guild_id = None;
    assert!(!should_not_ignore_guild(&ev, &base_config()));
    assert_eq!(evaluate_filters(&ev, &base_config()), FilterDecision::Accept);
}

#[test]
fn filter_guild_matches_exact_guild_only() {
    let ev = base_event();
    assert!(filter_guild(&ev, 30));
    assert!(!filter_guild(&ev, 31));
    let mut no_guild = base_event();
    no_guild.guild_id = None;
    assert!(!filter_guild(&no_guild, 30));
}

#[test]
fn count_words_splits_on_whitespace_excluding_empty_tokens() {
    assert_eq!(count_words("hello there how are you friend"), 6);
    assert_eq!(count_words(""), 0);
    assert_eq!(count_words("   "), 0);
    assert_eq!(count_words("  a   b\t\nc  "), 3);
    assert_eq!(count_words("one"), 1);
}
