use discord_stats::event::{InboundEvent, UserMention};
use discord_stats::mentions::{channel_ref_ids, remove_urls, replace_mentions, Directory};
use discord_stats::text::{count_words, u64_to_dec_chars};

fn empty_directory() -> Directory {
    Directory { channels: vec![], roles: vec![] }
}

fn event(text: &str, mentions: Vec<UserMention>, roles: Vec<u64>, guild: Option<u64>) -> InboundEvent {
    InboundEvent {
        author_id: 1,
        author_name: "a".to_string(),
        author_is_bot: false,
        channel_id: 40,
        guild_id: guild,
        text: text.to_string(),
        mentions,
        role_mentions: roles,
    }
}

#[test]
fn user_mention_both_forms_replaced() {
    let ev = event(
        "hi <@42> and <@!42>!",
        vec![UserMention { id: 42, name: "Alice".to_string() }],
        vec![],
        None,
    );
    assert_eq!(replace_mentions(&ev, &empty_directory()), "hi Alice and Alice!");
}

#[test]
fn user_mentions_applied_in_entity_order() {
    let ev = event(
        "<@1> <@2>",
        vec![
            UserMention { id: 1, name: "One".to_string() },
            UserMention { id: 2, name: "Two".to_string() },
        ],
        vec![],
        None,
    );
    assert_eq!(replace_mentions(&ev, &empty_directory()), "One Two");
}

#[test]
fn channel_reference_resolved_via_directory() {
    let dir = Directory { channels: vec![(7, "general".to_string())], roles: vec![] };
    let ev = event("see <#7> please", vec![], vec![], None);
    assert_eq!(replace_mentions(&ev, &dir), "see general please");
}

#[test]
fn channel_lookup_miss_becomes_empty_text() {
    let dir = empty_directory();
    let ev = event("see <#7> please", vec![], vec![], None);
    assert_eq!(replace_mentions(&ev, &dir), "see  please");
}

#[test]
fn channel_id_too_large_for_u64_becomes_empty_text() {
    // 21 nines cannot fit in a u64, so no lookup can serve the token
    let ev = event("x <#999999999999999999999> y", vec![], vec![], None);
    let dir = empty_directory();
    assert_eq!(replace_mentions(&ev, &dir), "x  y");
}

#[test]
fn channel_substitution_preserves_surrounding_text_verbatim() {
    let dir = Directory { channels: vec![(7, "general".to_string())], roles: vec![] };
    let ev = event("a <#7> b <#8> c <#7>", vec![], vec![], None);
    assert_eq!(replace_mentions(&ev, &dir), "a general b  c general");
}

#[test]
fn malformed_channel_tokens_left_untouched() {
    let dir = Directory { channels: vec![(7, "general".to_string())], roles: vec![] };
    let ev = event("<#> <#x> <#7 and <7>", vec![], vec![], None);
    assert_eq!(replace_mentions(&ev, &dir), "<#> <#x> <#7 and <7>");
}

#[test]
fn role_mention_resolved_when_guild_present() {
    let dir = Directory { channels: vec![], roles: vec![(5, "admin".to_string())] };
    let ev = event("ping <@&5>", vec![], vec![5], Some(1));
    assert_eq!(replace_mentions(&ev, &dir), "ping admin");
}

#[test]
fn role_mention_untouched_without_guild() {
    let dir = Directory { channels: vec![], roles: vec![(5, "admin".to_string())] };
    let ev = event("ping <@&5>", vec![], vec![5], None);
    assert_eq!(replace_mentions(&ev, &dir), "ping <@&5>");
}

#[test]
fn role_mention_untouched_on_lookup_miss() {
    let dir = empty_directory();
    let ev = event("ping <@&5>", vec![], vec![5], Some(1));
    assert_eq!(replace_mentions(&ev, &dir), "ping <@&5>");
}

#[test]
fn resolution_is_identity_on_token_free_text() {
    // already-resolved text: no reference tokens anywhere
    let text = "hello there, Alice # general < > @ no tokens here";
    let ev = event(
        text,
        vec![UserMention { id: 42, name: "Alice".to_string() }],
        vec![5],
        Some(1),
    );
    let dir = Directory {
        channels: vec![(7, "general".to_string())],
        roles: vec![(5, "admin".to_string())],
    };
    assert_eq!(replace_mentions(&ev, &dir), text);
}

#[test]
fn channel_ref_ids_collects_ids_in_token_order() {
    assert_eq!(channel_ref_ids("a <#7> b <#8> c <#7>"), vec![7, 8, 7]);
    assert_eq!(channel_ref_ids("no tokens"), Vec::<u64>::new());
    assert_eq!(channel_ref_ids("<#999999999999999999999>"), Vec::<u64>::new());
}

#[test]
fn remove_urls_drops_pure_urls_only() {
    assert_eq!(remove_urls("http://example.com"), None);
    assert_eq!(remove_urls("https://example.com/path"), None);
    assert_eq!(remove_urls("see http://example.com"), Some("see http://example.com".to_string()));
    assert_eq!(remove_urls("http://example.com now"), Some("http://example.com now".to_string()));
    assert_eq!(remove_urls("http://"), Some("http://".to_string()));
    assert_eq!(remove_urls("plain text"), Some("plain text".to_string()));
}

#[test]
fn role_token_untouched_when_role_not_attached_to_event() {
    // the directory knows the role, but the event does not mention it
    let dir = Directory { channels: vec![], roles: vec![(5, "admin".to_string())] };
    let ev = event("ping <@&5>", vec![], vec![], Some(1));
    assert_eq!(replace_mentions(&ev, &dir), "ping <@&5>");
}

#[test]
fn user_token_untouched_when_id_differs_from_attached_entity() {
    let ev = event(
        "hi <@43>",
        vec![UserMention { id: 42, name: "Alice".to_string() }],
        vec![],
        None,
    );
    assert_eq!(replace_mentions(&ev, &empty_directory()), "hi <@43>");
}

#[test]
fn unicode_whitespace_separates_words() {
    assert_eq!(count_words("a\u{3000}b\u{00A0}c"), 3);
    assert_eq!(count_words("\u{2028}\u{2003}"), 0);
}

#[test]
fn u64_rendering_matches_decimal() {
    assert_eq!(u64_to_dec_chars(0), vec!['0']);
    assert_eq!(u64_to_dec_chars(123), vec!['1', '2', '3']);
    assert_eq!(u64_to_dec_chars(u64::MAX), "18446744073709551615".chars().collect::<Vec<_>>());
}
