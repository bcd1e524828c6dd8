use guild_stats::live::LiveCounts;
use guild_stats::message_data::emoji::Emoji;

fn glyph(s: &str) -> Emoji {
    Emoji::unicode(s.to_string())
}

#[test]
fn live_counts_start_empty() {
    let counts = LiveCounts::new();
    assert_eq!(counts.member_message_counts.len(), 0);
    assert_eq!(counts.use_emoji_counts.len(), 0);
    assert_eq!(counts.mention_counts.len(), 0);
    assert_eq!(counts.reaction_counts.len(), 0);
}

#[test]
fn live_record_counts_a_reactor_once_per_message() {
    let mut counts = LiveCounts::new();
    counts.record(
        1,
        &vec![(glyph("a"), vec![5, 6, 5]), (Emoji::custom(9), vec![6, 7]), (glyph("a"), vec![])],
        &vec![2, 3, 2],
    );
    assert_eq!(counts.member_message_counts.entries, vec![(1, 1)]);
    assert_eq!(counts.reaction_counts.entries, vec![(5, 1), (6, 1), (7, 1)]);
    assert_eq!(counts.mention_counts.entries, vec![(2, 2), (3, 1)]);
    assert_eq!(counts.use_emoji_counts.get(&glyph("a")), Some(2));
    assert_eq!(counts.use_emoji_counts.get(&Emoji::Custom(9)), Some(1));
    counts.record(1, &vec![(Emoji::custom(9), vec![5])], &vec![]);
    counts.record(2, &vec![], &vec![1]);
    assert_eq!(counts.member_message_counts.entries, vec![(1, 2), (2, 1)]);
    assert_eq!(counts.reaction_counts.entries, vec![(5, 2), (6, 1), (7, 1)]);
    assert_eq!(counts.mention_counts.entries, vec![(2, 2), (3, 1), (1, 1)]);
    assert_eq!(counts.use_emoji_counts.get(&Emoji::Custom(9)), Some(2));
}

#[test]
fn emoji_from_id_and_from_text() {
    assert!(matches!(Emoji::from(44u64), Emoji::Custom(44)));
    assert!(matches!(Emoji::from("ok".to_string()), Emoji::Unicode(s) if s == "ok"));
}
