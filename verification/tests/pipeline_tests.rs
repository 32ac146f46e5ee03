use discord_stats::config::{Config, EnvConfig};
use discord_stats::event::InboundEvent;
use discord_stats::filter::FilterConfig;
use discord_stats::mentions::Directory;
use discord_stats::pipeline::{
    build_message, classification_of, sentiment_label, should_translate, stamp_time,
    IngestionPipeline, SentimentKind, RECORD_TZ_OFFSET_SECS,
};
use discord_stats::store::MessageStore;

fn pipeline() -> IngestionPipeline {
    IngestionPipeline {
        filter: FilterConfig {
            automation_ids: vec![],
            ignored_user_ids: vec![],
            ignored_channel_ids: vec![],
            allowed_guild_ids: vec![30],
            min_word_count: 5,
        },
    }
}

fn plain_event(text: &str) -> InboundEvent {
    InboundEvent {
        author_id: 1,
        author_name: "a".to_string(),
        author_is_bot: false,
        channel_id: 40,
        guild_id: None,
        text: text.to_string(),
        mentions: vec![],
        role_mentions: vec![],
    }
}

#[test]
fn accepted_event_is_persisted_with_all_fields() {
    // end to end: accepted, no substitutions apply, enrichment is positive,
    // and the stored record carries the text unchanged and the stamped time
    let ev = plain_event("hello there how are you friend");
    let dir = Directory { channels: vec![], roles: vec![] };
    let mut store = MessageStore::new();
    let now = 1_000_000;
    let enrichment: Result<Option<String>, ()> =
        Ok(Some(sentiment_label(SentimentKind::Positive)));
    let accepted = pipeline().ingest(
        &ev,
        &dir,
        enrichment,
        Some("general".to_string()),
        now,
        &mut store,
    );
    assert!(accepted);
    assert_eq!(store.len(), 1);
    let m = &store.records[0];
    assert_eq!(m.id, None);
    assert_eq!(m.username, "a");
    assert_eq!(m.channel, "general");
    assert_eq!(m.text, "hello there how are you friend");
    assert_eq!(m.analyzed, Some("positive".to_string()));
    assert_eq!(m.created_at, now + 9 * 3600);
}

#[test]
fn rejected_event_is_not_persisted() {
    let ev = plain_event("too short");
    let dir = Directory { channels: vec![], roles: vec![] };
    let mut store = MessageStore::new();
    let enrichment: Result<Option<String>, ()> = Ok(None);
    let accepted = pipeline().ingest(&ev, &dir, enrichment, None, 0, &mut store);
    assert!(!accepted);
    assert_eq!(store.len(), 0);
}

#[test]
fn enrichment_error_never_drops_the_message() {
    let ev = plain_event("hello there how are you friend");
    let dir = Directory { channels: vec![], roles: vec![] };
    let mut store = MessageStore::new();
    let enrichment: Result<Option<String>, String> = Err("network down".to_string());
    let accepted = pipeline().ingest(&ev, &dir, enrichment, None, 0, &mut store);
    assert!(accepted);
    assert_eq!(store.len(), 1);
    assert_eq!(store.records[0].analyzed, None);
}

#[test]
fn classification_treats_errors_as_no_signal() {
    assert_eq!(
        classification_of::<()>(Ok(Some("positive".to_string()))),
        Some("positive".to_string())
    );
    assert_eq!(classification_of::<()>(Ok(None)), None);
    assert_eq!(classification_of(Err("boom".to_string())), None);
}

#[test]
fn sentiment_labels_match_their_kinds() {
    assert_eq!(sentiment_label(SentimentKind::Mixed), "mixed");
    assert_eq!(sentiment_label(SentimentKind::Negative), "negative");
    assert_eq!(sentiment_label(SentimentKind::Neutral), "neutral");
    assert_eq!(sentiment_label(SentimentKind::Positive), "positive");
    assert_eq!(sentiment_label(SentimentKind::Other), "unknown");
}

#[test]
fn stamp_shifts_by_the_fixed_zone_offset() {
    assert_eq!(RECORD_TZ_OFFSET_SECS, 9 * 3600);
    assert_eq!(stamp_time(0), 32400);
    assert_eq!(stamp_time(1_000_000), 1_032_400);
}

#[test]
fn missing_channel_name_degrades_to_empty() {
    let m = build_message("a".to_string(), None, "t".to_string(), None, 5);
    assert_eq!(m.channel, "");
    assert_eq!(m.created_at, 5);
    assert_eq!(m.id, None);
}

#[test]
fn translation_gate_needs_more_than_twenty_words() {
    let twenty = vec!["w"; 20].join(" ");
    let twenty_one = vec!["w"; 21].join(" ");
    assert!(!should_translate(&twenty));
    assert!(should_translate(&twenty_one));
}

#[test]
fn environment_selection_knows_both_names() {
    let env = |tag: &str| EnvConfig {
        discord_token: format!("{tag}-token"),
        mongo_uri: format!("{tag}-uri"),
        discord_guild: format!("{tag}-guild"),
        aws_access_key_id: None,
        aws_secret_access_key: None,
        aws_region: None,
    };
    let config = Config { development: env("dev"), production: env("prod") };
    assert_eq!(config.get_environment("production").unwrap().mongo_uri, "prod-uri");
    assert_eq!(config.get_environment("development").unwrap().mongo_uri, "dev-uri");
    assert!(config.get_environment("staging").is_none());
}
