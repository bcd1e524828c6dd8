use guild_stats::counter::Counter;
use guild_stats::message_data::channels::{
    is_private_archive_channel, Overwrite, OverwriteKind, VIEW_CHANNEL,
};
use guild_stats::message_data::emoji::{Emoji, EmojiData};
use guild_stats::message_data::message::{MessageData, Timestamp};
use guild_stats::message_data::{ChannelData, JsonData, UserData};
use guild_stats::per_channel::CounterPerChannel;
use guild_stats::report::{
    custom_ranks, data_row, emoji_label, lookup_channel, lookup_user, ranked_rows, single_row,
};
use guild_stats::utils::{
    filename, get_reactions, push_decimal, Reactors, ReactorsNext, REACTOR_PAGE,
};
use std::collections::HashMap;

const GUILD: u64 = 1_095_933_862_657_405_038;

fn channel(overwrites: Vec<Overwrite>) -> ChannelData {
    ChannelData::new(42, "general".to_string(), 0, overwrites)
}

#[test]
fn everyone_denied_view_is_private_archive() {
    let c = channel(vec![Overwrite { allow: 0, deny: VIEW_CHANNEL, kind: OverwriteKind::Role(GUILD) }]);
    assert!(is_private_archive_channel(&c, GUILD));
}

#[test]
fn same_deny_for_another_role_is_not_private() {
    let c =
        channel(vec![Overwrite { allow: 0, deny: VIEW_CHANNEL, kind: OverwriteKind::Role(GUILD + 1) }]);
    assert!(!is_private_archive_channel(&c, GUILD));
}

#[test]
fn deny_for_a_member_with_the_guild_id_is_not_private() {
    let c = channel(vec![Overwrite { allow: 0, deny: VIEW_CHANNEL, kind: OverwriteKind::Member(GUILD) }]);
    assert!(!is_private_archive_channel(&c, GUILD));
}

#[test]
fn no_overwrites_is_not_private() {
    assert!(!is_private_archive_channel(&channel(vec![]), GUILD));
}

#[test]
fn everyone_denied_other_permissions_is_not_private() {
    let c = channel(vec![Overwrite {
        allow: VIEW_CHANNEL,
        deny: !VIEW_CHANNEL,
        kind: OverwriteKind::Role(GUILD),
    }]);
    assert!(!is_private_archive_channel(&c, GUILD));
}

#[test]
fn view_denied_among_other_bits_is_private() {
    let c = channel(vec![
        Overwrite { allow: 0, deny: 2048, kind: OverwriteKind::Role(7) },
        Overwrite { allow: 0, deny: u64::MAX, kind: OverwriteKind::Role(GUILD) },
    ]);
    assert!(is_private_archive_channel(&c, GUILD));
}

#[test]
fn any_everyone_overwrite_that_denies_view_counts() {
    let c = channel(vec![
        Overwrite { allow: 0, deny: 0, kind: OverwriteKind::Role(GUILD) },
        Overwrite { allow: 0, deny: VIEW_CHANNEL, kind: OverwriteKind::Role(GUILD) },
    ]);
    assert!(is_private_archive_channel(&c, GUILD));
}

#[test]
fn text_based_channel_types() {
    let kinds: Vec<(u8, bool)> = vec![
        (0, true),
        (1, false),
        (2, true),
        (3, false),
        (4, false),
        (5, true),
        (6, false),
        (10, true),
        (11, true),
        (12, true),
        (13, true),
        (14, false),
        (15, false),
        (16, false),
        (255, false),
    ];
    for (kind, want) in kinds {
        let c = ChannelData::new(1, "c".to_string(), kind, vec![]);
        assert_eq!(c.is_text_based(), want, "type {}", kind);
    }
}

#[test]
fn unknown_user_placeholder() {
    let u = UserData::unknown();
    assert_eq!(u.user_id, 0);
    assert_eq!(u.username, "Unknown");
    assert_eq!(u.display_name, "Unknown");
    assert_eq!(u.avatar_url, None);
    assert!(!u.is_bot);
    let d = UserData::default();
    assert_eq!(d.display_name, "Unknown");
    assert_eq!(d.label(), "Unknown");
}

#[test]
fn unknown_channel_placeholder() {
    let c = ChannelData::default();
    assert_eq!(c.channel_id, 0);
    assert_eq!(c.name, "Unknown");
    assert_eq!(c.channel_type, 0);
    assert!(c.permission_overwrites.is_empty());
    assert_eq!(ChannelData::unknown().label(), "Unknown");
}

#[test]
fn lookup_user_finds_or_gives_the_placeholder() {
    let mut dir = HashMap::new();
    dir.insert(5, UserData::new(5, "ann".to_string(), "Ann".to_string(), Some("a.png".to_string()), true));
    let found = lookup_user(&dir, 5);
    assert_eq!(found.user_id, 5);
    assert_eq!(found.username, "ann");
    assert_eq!(found.display_name, "Ann");
    assert_eq!(found.avatar_url, Some("a.png".to_string()));
    assert!(found.is_bot);
    let missing = lookup_user(&dir, 6);
    assert_eq!(missing.user_id, 0);
    assert_eq!(missing.display_name, "Unknown");
    assert_eq!(missing.username, "Unknown");
    assert_eq!(missing.avatar_url, None);
    assert!(!missing.is_bot);
}

#[test]
fn lookup_channel_finds_or_gives_the_placeholder() {
    let mut dir = HashMap::new();
    dir.insert(
        9,
        ChannelData::new(
            9,
            "news".to_string(),
            5,
            vec![Overwrite { allow: 1, deny: 2, kind: OverwriteKind::Member(3) }],
        ),
    );
    let found = lookup_channel(&dir, 9);
    assert_eq!(found.channel_id, 9);
    assert_eq!(found.name, "news");
    assert_eq!(found.channel_type, 5);
    assert_eq!(found.permission_overwrites.len(), 1);
    assert_eq!(found.permission_overwrites[0].deny, 2);
    assert_eq!(lookup_channel(&dir, 10).name, "Unknown");
}

#[test]
fn emoji_labels() {
    let mut dir = HashMap::new();
    dir.insert(3, EmojiData { emoji_id: 3, alias: "wave".to_string(), image_url: "w.png".to_string() });
    assert_eq!(emoji_label(&Emoji::custom(3), &dir), "<:wave:3>");
    assert_eq!(emoji_label(&Emoji::custom(4), &dir), "Unknown");
    assert_eq!(emoji_label(&Emoji::unicode("z".to_string()), &dir), "z");
    let copy = dir.get(&3).unwrap().duplicate();
    assert_eq!(copy.alias, "wave");
    assert_eq!(copy.image_url, "w.png");
    assert_eq!(copy.emoji_id, 3);
    let big = EmojiData { emoji_id: 1_311_603_619_300_114_464, alias: "".to_string(), image_url: "".to_string() };
    assert_eq!(big.label(), "<::1311603619300114464>");
}

#[test]
fn push_decimal_appends_the_digits() {
    let mut text = "n=".to_string();
    push_decimal(&mut text, 0);
    push_decimal(&mut text, 907);
    push_decimal(&mut text, 1000);
    assert_eq!(text, "n=09071000");
}

#[test]
fn counter_check_finds_a_key_that_occurs_twice() {
    let mut good: Counter<u64> = Counter::new();
    good.add(1, 1);
    good.add(2, 1);
    assert!(good.check());
    assert!(Counter::<u64> { entries: vec![] }.check());
    assert!(!Counter::<u64> { entries: vec![(1, 1), (2, 1), (1, 5)] }.check());
    let twice = Counter::<Emoji> {
        entries: vec![(Emoji::unicode("a".to_string()), 1), (Emoji::unicode("a".to_string()), 2)],
    };
    assert!(!twice.check());
}

#[test]
fn table_check_finds_bad_rows() {
    let mut good: CounterPerChannel<u64> = CounterPerChannel::new();
    good.add(1, 10, 1);
    good.add(2, 10, 1);
    assert!(good.check());
    let bad_row = CounterPerChannel::<u64> {
        rows: vec![(1, Counter { entries: vec![(10, 1), (10, 2)] })],
    };
    assert!(!bad_row.check());
    let two_rows = CounterPerChannel::<u64> {
        rows: vec![(1, Counter { entries: vec![] }), (1, Counter { entries: vec![] })],
    };
    assert!(!two_rows.check());
}

#[test]
fn from_parts_takes_the_last_tally_of_an_emoji() {
    let m = MessageData::from_parts(
        1,
        2,
        3,
        vec![4, 5],
        vec![
            (Emoji::custom(7), 1),
            (Emoji::unicode("q".to_string()), 2),
            (Emoji::custom(7), 9),
        ],
        Timestamp { secs: 10, nanos: 20 },
        Some(Timestamp { secs: 30, nanos: 40 }),
        1,
        12,
        true,
    );
    assert_eq!(m.channel_id, 1);
    assert_eq!(m.message_id, 2);
    assert_eq!(m.author_id, 3);
    assert_eq!(m.mentions, vec![4, 5]);
    assert_eq!(m.reactions.len(), 2);
    assert_eq!(m.reactions.get(&Emoji::Custom(7)), Some(9));
    assert_eq!(m.reactions.get(&Emoji::Unicode("q".to_string())), Some(2));
    assert_eq!(m.used_emojis.len(), 3);
    assert!(matches!(m.used_emojis[2], Emoji::Custom(7)));
    assert_eq!(m.send_time.secs, 10);
    assert_eq!(m.send_time.nanos, 20);
    assert_eq!(m.edit_time.map(|t| t.secs), Some(30));
    assert_eq!(m.attachment_count, 1);
    assert_eq!(m.num_characters, 12);
    assert!(m.is_pinned);
}

#[test]
fn json_data_new_keeps_its_parts() {
    let mut members = HashMap::new();
    members.insert(1, UserData::unknown());
    let data = JsonData::new(77, members, HashMap::new(), HashMap::new(), vec![(5, vec![])]);
    assert_eq!(data.guild_id, 77);
    assert_eq!(data.members.len(), 1);
    assert!(data.channels.is_empty());
    assert!(data.emojis.is_empty());
    assert_eq!(data.messages.len(), 1);
    assert_eq!(data.messages[0].0, 5);
}

#[test]
fn filename_of_a_guild() {
    assert_eq!(filename(GUILD), "outputs/1095933862657405038.json");
    assert_eq!(filename(0), "outputs/0.json");
    assert_eq!(filename(7), "outputs/7.json");
    assert_eq!(filename(10), "outputs/10.json");
    assert_eq!(filename(u64::MAX), "outputs/18446744073709551615.json");
}

#[test]
fn reactors_stop_at_a_page_that_is_not_full() {
    let first: Vec<u64> = (1..=100).collect();
    let second: Vec<u64> = (101..=130).collect();
    let walk = Reactors::new();
    assert_eq!(walk.after, None);
    let walk = match get_reactions::<()>(walk, Ok(first)) {
        ReactorsNext::More(w) => w,
        _ => panic!("a full page asks for more"),
    };
    assert_eq!(walk.after, Some(100));
    assert_eq!(walk.users.len(), REACTOR_PAGE as usize);
    match get_reactions::<()>(walk, Ok(second)) {
        ReactorsNext::Done(users) => {
            assert_eq!(users.len(), 130);
            assert_eq!(users[0], 1);
            assert_eq!(users[129], 130);
        },
        _ => panic!("a short page ends the collection"),
    }
}

#[test]
fn reactors_empty_page_and_failure() {
    assert!(matches!(
        get_reactions::<u8>(Reactors::new(), Ok(vec![])),
        ReactorsNext::Done(users) if users.is_empty()
    ));
    assert!(matches!(get_reactions(Reactors::new(), Err(9u8)), ReactorsNext::Failed(9)));
}

#[test]
fn data_row_with_and_without_breakdown() {
    let mut per: CounterPerChannel<u64> = CounterPerChannel::new();
    per.add(1, 10, 1);
    per.add(1, 20, 3);
    let row = data_row(Some(2), &1u64, 4, Some(&per));
    assert_eq!(row.rank, Some(2));
    assert_eq!(row.key, 1);
    assert_eq!(row.count, 4);
    assert_eq!(row.shares, Some(vec![(20, 75), (10, 25)]));
    let bare = data_row(None, &1u64, 4, None);
    assert_eq!(bare.rank, None);
    assert_eq!(bare.shares, None);
    let missing = data_row(None, &2u64, 4, Some(&per));
    assert_eq!(missing.shares, Some(vec![]));
}

#[test]
fn ranked_rows_number_from_one() {
    let mut per: CounterPerChannel<u64> = CounterPerChannel::new();
    per.add(1, 10, 2);
    per.add(2, 10, 1);
    per.add(2, 30, 2);
    let top = vec![(2u64, 3u64), (1, 2)];
    let rows = ranked_rows(&top, Some(&per));
    assert_eq!(rows.len(), 2);
    assert_eq!(rows[0].rank, Some(1));
    assert_eq!(rows[0].key, 2);
    assert_eq!(rows[0].count, 3);
    assert_eq!(rows[0].shares, Some(vec![(30, 66), (10, 33)]));
    assert_eq!(rows[1].rank, Some(2));
    assert_eq!(rows[1].shares, Some(vec![(10, 100)]));
    let plain = ranked_rows(&top, None);
    assert_eq!(plain[1].key, 1);
    assert_eq!(plain[1].shares, None);
}

#[test]
fn single_row_of_listed_and_unlisted_key() {
    let mut sum: Counter<u64> = Counter::new();
    let mut per: CounterPerChannel<u64> = CounterPerChannel::new();
    sum.add(1, 4);
    per.add(1, 10, 4);
    let row = single_row(&1u64, &sum, Some(&per)).unwrap();
    assert_eq!(row.rank, None);
    assert_eq!(row.count, 4);
    assert_eq!(row.shares, Some(vec![(10, 100)]));
    assert!(single_row(&2u64, &sum, Some(&per)).is_none());
}

#[test]
fn custom_ranks_keep_the_place_in_the_whole_ranking() {
    let ranking = vec![
        (Emoji::unicode("a".to_string()), 9),
        (Emoji::custom(5), 7),
        (Emoji::unicode("b".to_string()), 3),
        (Emoji::custom(6), 1),
    ];
    assert_eq!(custom_ranks(&ranking), vec![(2, 5, 7), (4, 6, 1)]);
    assert!(custom_ranks(&vec![]).is_empty());
}
