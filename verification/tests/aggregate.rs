use guild_stats::aggregate::{
    aggregate, aggregate_dated, check_window, is_bot, is_excluded, local_years, message_volume,
    volume_fits, Settings,
};
use guild_stats::calendar::{bucket_at, bucket_index, is_known_zone};
use guild_stats::error::StatsError;
use guild_stats::message_data::emoji::Emoji;
use guild_stats::message_data::message::{MessageData, Timestamp};
use guild_stats::message_data::user::UserData;
use guild_stats::message_data::JsonData;
use guild_stats::stats::{calc_emojis, calc_mention, calc_messages, YearStats};
use guild_stats::counter::Counter;
use guild_stats::per_channel::CounterPerChannel;
use guild_stats::report::{analyse, year_report, year_reports};
use std::collections::HashMap;

// 2023-01-01T00:00:00 in Tokyo, which is 2022-12-31T15:00:00 UTC.
const TOKYO_2023: i64 = 1_672_498_800;
// 2024-01-01T00:00:00 in Tokyo.
const TOKYO_2024: i64 = 1_704_034_800;

fn message(
    channel: u64,
    id: u64,
    author: u64,
    secs: i64,
    mentions: Vec<u64>,
    reactions: Vec<(Emoji, u64)>,
) -> MessageData {
    MessageData::from_parts(
        channel,
        id,
        author,
        mentions,
        reactions,
        Timestamp { secs, nanos: 0 },
        None,
        0,
        0,
        false,
    )
}

fn plain(channel: u64, id: u64, author: u64, secs: i64) -> MessageData {
    message(channel, id, author, secs, vec![], vec![])
}

fn member(id: u64, name: &str, bot: bool) -> UserData {
    UserData::new(id, name.to_string(), name.to_string(), None, bot)
}

fn snapshot(members: Vec<UserData>, messages: Vec<(u64, Vec<MessageData>)>) -> JsonData {
    let mut dir = HashMap::new();
    for m in members {
        dir.insert(m.user_id, m);
    }
    JsonData::new(1, dir, HashMap::new(), HashMap::new(), messages)
}

fn settings(excluded: Vec<u64>, first_year: i32, years: usize) -> Settings {
    Settings {
        excluded,
        zone: "Asia/Tokyo".to_string(),
        first_year,
        years,
        skip_bots: false,
        top: None,
        lookup: None,
    }
}

#[test]
fn bucket_index_inside_and_outside_the_window() {
    assert_eq!(bucket_index(Some(2023), 2023, 2), Some(0));
    assert_eq!(bucket_index(Some(2024), 2023, 2), Some(1));
    assert_eq!(bucket_index(Some(2025), 2023, 2), None);
    assert_eq!(bucket_index(Some(2022), 2023, 2), None);
    assert_eq!(bucket_index(None, 2023, 2), None);
    assert_eq!(bucket_index(Some(2023), 2023, 0), None);
    assert_eq!(bucket_index(Some(i32::MAX), i32::MIN, usize::MAX), Some(u32::MAX as usize));
    assert_eq!(bucket_index(Some(i32::MIN), i32::MAX, usize::MAX), None);
}

#[test]
fn known_and_unknown_zones() {
    assert!(is_known_zone("Asia/Tokyo"));
    assert!(is_known_zone("UTC"));
    assert!(!is_known_zone("Mars/Olympus"));
    assert!(!is_known_zone(""));
}

#[test]
fn bucket_at_reads_the_year_in_the_zone() {
    assert_eq!(bucket_at("Asia/Tokyo", TOKYO_2023, 2023, 2), Some(0));
    assert_eq!(bucket_at("Asia/Tokyo", TOKYO_2023 - 1, 2023, 2), None);
    assert_eq!(bucket_at("UTC", TOKYO_2023, 2023, 2), None);
    assert_eq!(bucket_at("UTC", TOKYO_2023, 2022, 2), Some(0));
    assert_eq!(bucket_at("Asia/Tokyo", TOKYO_2024, 2023, 2), Some(1));
    assert_eq!(bucket_at("Asia/Tokyo", 0, 1970, 1), Some(0));
    assert_eq!(bucket_at("Nowhere/Else", TOKYO_2023, 2023, 2), None);
    assert_eq!(bucket_at("UTC", i64::MAX, 2023, 2), None);
}

#[test]
fn window_boundary_first_instant_is_included() {
    let data = snapshot(
        vec![],
        vec![(10, vec![plain(10, 1, 5, TOKYO_2023), plain(10, 2, 5, TOKYO_2023 - 1)])],
    );
    let stats = aggregate(&data, &settings(vec![], 2023, 2)).unwrap_or_else(|_| panic!());
    assert_eq!(stats.len(), 2);
    assert_eq!(stats[0].year, 2023);
    assert_eq!(stats[1].year, 2024);
    assert_eq!(stats[0].messages, 1);
    assert_eq!(stats[1].messages, 0);
    assert_eq!(stats[0].user_messages.get(&5), Some(1));
}

#[test]
fn window_boundary_last_instant_and_beyond() {
    let end = 1_735_657_200; // 2025-01-01T00:00:00 in Tokyo
    let data = snapshot(
        vec![],
        vec![(10, vec![plain(10, 1, 5, end - 1), plain(10, 2, 5, end), plain(10, 3, 6, TOKYO_2024)])],
    );
    let stats = aggregate(&data, &settings(vec![], 2023, 2)).unwrap_or_else(|_| panic!());
    assert_eq!(stats[0].messages, 0);
    assert_eq!(stats[1].messages, 2);
    assert_eq!(stats[1].user_messages.entries, vec![(5, 1), (6, 1)]);
}

#[test]
fn excluded_channel_contributes_nothing() {
    let mut a = vec![];
    for i in 0..10 {
        a.push(message(100, i, 1, TOKYO_2023 + 60, vec![2], vec![(Emoji::custom(9), 1)]));
    }
    let mut b = vec![];
    for i in 0..7 {
        b.push(plain(200, 100 + i, 2, TOKYO_2023 + 120));
    }
    let mut c = vec![];
    for i in 0..5 {
        c.push(message(300, 200 + i, 3, TOKYO_2023 + 180, vec![1, 2], vec![(Emoji::custom(9), 4)]));
    }
    let data = snapshot(vec![], vec![(100, a), (200, b), (300, c)]);
    let stats = aggregate(&data, &settings(vec![300], 2023, 1)).unwrap_or_else(|_| panic!());
    let year = &stats[0];
    assert_eq!(year.messages, 17);
    assert_eq!(year.mentions, 10);
    assert_eq!(year.user_messages.entries, vec![(1, 10), (2, 7)]);
    assert_eq!(year.user_messages.get(&3), None);
    assert_eq!(year.user_mentions.entries, vec![(2, 10)]);
    assert_eq!(year.emojis.get(&Emoji::Custom(9)), Some(10));
    assert_eq!(year.reactions.entries, vec![(1, 10), (2, 0)]);
    assert!(year.user_messages_per_channels.get(&3).is_none());
    assert_eq!(year.user_messages_per_channels.get(&1).unwrap().entries, vec![(100, 10)]);
    assert_eq!(year.user_messages_per_channels.get(&2).unwrap().entries, vec![(200, 7)]);
}

#[test]
fn exclusion_goes_by_the_channel_of_the_archive() {
    let data = snapshot(vec![], vec![(300, vec![plain(100, 1, 1, TOKYO_2023)])]);
    let stats = aggregate(&data, &settings(vec![300], 2023, 1)).unwrap_or_else(|_| panic!());
    assert_eq!(stats[0].messages, 0);
    let stats = aggregate(&data, &settings(vec![100], 2023, 1)).unwrap_or_else(|_| panic!());
    assert_eq!(stats[0].messages, 1);
    assert_eq!(stats[0].user_messages_per_channels.get(&1).unwrap().entries, vec![(100, 1)]);
}

#[test]
fn bots_are_left_out_only_on_request() {
    let members = || vec![member(1, "human", false), member(2, "robot", true)];
    let logs = || {
        vec![(
            10,
            vec![
                plain(10, 1, 1, TOKYO_2023),
                plain(10, 2, 2, TOKYO_2023),
                plain(10, 3, 3, TOKYO_2023),
            ],
        )]
    };
    let with = aggregate(&snapshot(members(), logs()), &settings(vec![], 2023, 1))
        .unwrap_or_else(|_| panic!());
    assert_eq!(with[0].messages, 3);
    let mut s = settings(vec![], 2023, 1);
    s.skip_bots = true;
    let without = aggregate(&snapshot(members(), logs()), &s).unwrap_or_else(|_| panic!());
    assert_eq!(without[0].messages, 2);
    assert_eq!(without[0].user_messages.entries, vec![(1, 1), (3, 1)]);
}

#[test]
fn mentions_count_for_the_mentioned() {
    let data = snapshot(
        vec![],
        vec![(
            10,
            vec![
                message(10, 1, 1, TOKYO_2023, vec![2, 3, 2], vec![]),
                message(20, 2, 2, TOKYO_2023, vec![3], vec![]),
            ],
        )],
    );
    let stats = aggregate(&data, &settings(vec![], 2023, 1)).unwrap_or_else(|_| panic!());
    let year = &stats[0];
    assert_eq!(year.mentions, 4);
    assert_eq!(year.user_mentions.entries, vec![(2, 2), (3, 2)]);
    assert_eq!(year.user_mentions.get(&1), None);
    assert_eq!(year.user_mentions_per_channels.get(&3).unwrap().entries, vec![(10, 1), (20, 1)]);
    assert_eq!(year.user_mentions_per_channels.get(&2).unwrap().entries, vec![(10, 2)]);
}

#[test]
fn reactions_use_the_stored_tallies() {
    let data = snapshot(
        vec![],
        vec![(
            10,
            vec![
                message(
                    10,
                    1,
                    1,
                    TOKYO_2023,
                    vec![],
                    vec![(Emoji::custom(7), 3), (Emoji::unicode("x".to_string()), 2)],
                ),
                message(20, 2, 2, TOKYO_2023, vec![], vec![(Emoji::custom(7), 5)]),
                plain(20, 3, 3, TOKYO_2023),
            ],
        )],
    );
    let stats = aggregate(&data, &settings(vec![], 2023, 1)).unwrap_or_else(|_| panic!());
    let year = &stats[0];
    assert_eq!(year.emojis.get(&Emoji::Custom(7)), Some(8));
    assert_eq!(year.emojis.get(&Emoji::Unicode("x".to_string())), Some(2));
    assert_eq!(year.emojis_per_channels.get(&Emoji::Custom(7)).unwrap().entries, vec![(10, 3), (20, 5)]);
    assert_eq!(year.reactions.entries, vec![(1, 5), (2, 5), (3, 0)]);
    assert_eq!(year.messages, 3);
    assert_eq!(year.mentions, 0);
}

#[test]
fn aggregate_conserves_counts_over_channels() {
    let mut log_a = vec![];
    let mut log_b = vec![];
    for i in 0..40u64 {
        let author = i % 5;
        let m = message(
            if i % 3 == 0 { 11 } else { 12 },
            i,
            author,
            TOKYO_2023 + (i as i64) * 1_000_000,
            vec![(i + 1) % 5, (i + 2) % 4],
            vec![(Emoji::custom(i % 3), i), (Emoji::unicode("y".to_string()), 1)],
        );
        if i % 2 == 0 {
            log_a.push(m);
        } else {
            log_b.push(m);
        }
    }
    let data = snapshot(vec![], vec![(11, log_a), (12, log_b)]);
    let stats = aggregate(&data, &settings(vec![], 2023, 2)).unwrap_or_else(|_| panic!());
    let mut seen = 0;
    for year in stats.iter() {
        for (k, n) in year.user_messages.entries.iter() {
            assert_eq!(year.user_messages_per_channels.get(k).unwrap().checked_total(), Some(*n));
        }
        for (k, n) in year.user_mentions.entries.iter() {
            assert_eq!(year.user_mentions_per_channels.get(k).unwrap().checked_total(), Some(*n));
        }
        for (k, n) in year.emojis.entries.iter() {
            assert_eq!(year.emojis_per_channels.get(k).unwrap().checked_total(), Some(*n));
        }
        assert_eq!(year.user_messages.checked_total(), Some(year.messages));
        assert_eq!(year.user_mentions.checked_total(), Some(year.mentions));
        assert_eq!(year.reactions.checked_total(), year.emojis.checked_total());
        seen += year.messages;
    }
    assert_eq!(seen, 40);
    assert_eq!(stats[0].messages, 32);
    assert_eq!(stats[1].messages, 8);
}

#[test]
fn zero_years_is_config_invalid() {
    let data = snapshot(vec![], vec![]);
    let r = aggregate(&data, &settings(vec![], 2023, 0));
    assert!(matches!(r, Err(StatsError::ConfigInvalid)));
}

#[test]
fn window_beyond_the_calendar_is_config_invalid() {
    let data = snapshot(vec![], vec![]);
    let r = aggregate(&data, &settings(vec![], i32::MAX, 2));
    assert!(matches!(r, Err(StatsError::ConfigInvalid)));
    let r = aggregate(&data, &settings(vec![], i32::MAX, 1));
    assert!(matches!(r, Ok(v) if v.len() == 1 && v[0].year == i32::MAX));
}

#[test]
fn unknown_zone_is_config_invalid() {
    let data = snapshot(vec![], vec![]);
    let mut s = settings(vec![], 2023, 2);
    s.zone = "Atlantis/Center".to_string();
    assert!(matches!(aggregate(&data, &s), Err(StatsError::ConfigInvalid)));
}

#[test]
fn check_window_cases() {
    assert!(check_window(2023, 2));
    assert!(!check_window(2023, 0));
    assert!(check_window(i32::MAX, 1));
    assert!(!check_window(i32::MAX, 2));
    assert!(check_window(i32::MIN, 1));
    assert!(check_window(0, (i32::MAX as usize) + 1));
    assert!(!check_window(0, (i32::MAX as usize) + 2));
}

#[test]
fn aggregate_dated_goes_by_the_table() {
    let data = snapshot(
        vec![],
        vec![
            (10, vec![plain(10, 1, 1, 0), plain(10, 2, 2, 0), plain(10, 3, 3, 0)]),
            (20, vec![plain(20, 4, 1, 0)]),
        ],
    );
    let table = vec![vec![Some(2001), Some(2000), None], vec![]];
    let stats =
        aggregate_dated(&data, &settings(vec![], 2000, 2), &table).unwrap_or_else(|_| panic!());
    assert_eq!(stats[0].user_messages.entries, vec![(2, 1)]);
    assert_eq!(stats[1].user_messages.entries, vec![(1, 1)]);
    assert_eq!(stats[0].messages + stats[1].messages, 2);
}

#[test]
fn local_years_has_one_place_per_message() {
    let logs = vec![
        (10, vec![plain(10, 1, 1, TOKYO_2023), plain(10, 2, 1, TOKYO_2023 - 1)]),
        (20, vec![]),
        (30, vec![plain(30, 3, 1, i64::MIN)]),
    ];
    let table = local_years(&logs, "Asia/Tokyo");
    assert_eq!(table, vec![vec![Some(2023), Some(2022)], vec![], vec![None]]);
    let table = local_years(&logs, "No/Zone");
    assert_eq!(table, vec![vec![None, None], vec![], vec![None]]);
}

#[test]
fn is_excluded_and_is_bot() {
    assert!(is_excluded(&vec![1, 2, 3], 2));
    assert!(!is_excluded(&vec![1, 2, 3], 4));
    assert!(!is_excluded(&vec![], 4));
    let mut dir = HashMap::new();
    dir.insert(1, member(1, "a", false));
    dir.insert(2, member(2, "b", true));
    assert!(!is_bot(&dir, 1));
    assert!(is_bot(&dir, 2));
    assert!(!is_bot(&dir, 3));
}

#[test]
fn volume_of_a_message() {
    let m = message(1, 1, 1, 0, vec![1, 2], vec![(Emoji::custom(1), 10), (Emoji::custom(2), 5)]);
    assert_eq!(message_volume(&m), Some(18));
    let big = message(1, 1, 1, 0, vec![], vec![(Emoji::custom(1), u64::MAX)]);
    assert_eq!(message_volume(&big), None);
    let edge = message(1, 1, 1, 0, vec![], vec![(Emoji::custom(1), u64::MAX - 1)]);
    assert_eq!(message_volume(&edge), Some(u64::MAX));
}

#[test]
fn volume_fits_cases() {
    let ok = vec![(1, vec![plain(1, 1, 1, 0)]), (2, vec![plain(2, 2, 1, 0)])];
    assert!(volume_fits(&ok));
    let full = vec![(
        1,
        vec![message(1, 1, 1, 0, vec![], vec![(Emoji::custom(1), u64::MAX - 2)]), plain(1, 2, 1, 0)],
    )];
    assert!(volume_fits(&full));
    let over = vec![
        (1, vec![message(1, 1, 1, 0, vec![], vec![(Emoji::custom(1), u64::MAX - 2)])]),
        (2, vec![plain(2, 2, 1, 0), plain(2, 3, 1, 0)]),
    ];
    assert!(!volume_fits(&over));
    assert!(volume_fits(&vec![]));
}

#[test]
fn calc_messages_counts_author_and_channel() {
    let mut sum: Counter<u64> = Counter::new();
    let mut per: CounterPerChannel<u64> = CounterPerChannel::new();
    calc_messages(&plain(10, 1, 5, 0), &mut sum, &mut per);
    calc_messages(&plain(20, 2, 5, 0), &mut sum, &mut per);
    calc_messages(&plain(10, 3, 6, 0), &mut sum, &mut per);
    assert_eq!(sum.entries, vec![(5, 2), (6, 1)]);
    assert_eq!(per.get(&5).unwrap().entries, vec![(10, 1), (20, 1)]);
    assert_eq!(per.get(&6).unwrap().entries, vec![(10, 1)]);
}

#[test]
fn calc_mention_counts_each_occurrence() {
    let mut sum: Counter<u64> = Counter::new();
    let mut per: CounterPerChannel<u64> = CounterPerChannel::new();
    calc_mention(&message(10, 1, 5, 0, vec![7, 8, 7], vec![]), &mut sum, &mut per);
    calc_mention(&message(10, 2, 5, 0, vec![], vec![]), &mut sum, &mut per);
    assert_eq!(sum.entries, vec![(7, 2), (8, 1)]);
    assert_eq!(per.get(&7).unwrap().entries, vec![(10, 2)]);
}

#[test]
fn calc_emojis_lists_the_author_without_reactions() {
    let mut sum: Counter<Emoji> = Counter::new();
    let mut per: CounterPerChannel<Emoji> = CounterPerChannel::new();
    let mut reactions: Counter<u64> = Counter::new();
    calc_emojis(&plain(10, 1, 5, 0), &mut sum, &mut per, &mut reactions);
    assert_eq!(sum.len(), 0);
    assert_eq!(reactions.entries, vec![(5, 0)]);
    calc_emojis(
        &message(10, 2, 5, 0, vec![], vec![(Emoji::custom(3), 0), (Emoji::custom(4), 6)]),
        &mut sum,
        &mut per,
        &mut reactions,
    );
    assert_eq!(sum.get(&Emoji::Custom(3)), Some(0));
    assert_eq!(sum.get(&Emoji::Custom(4)), Some(6));
    assert_eq!(reactions.entries, vec![(5, 6)]);
}

#[test]
fn record_adds_to_every_counter() {
    let mut year = YearStats::new(2023);
    year.record(&message(10, 1, 5, 0, vec![6], vec![(Emoji::custom(3), 2)]));
    year.record(&plain(10, 2, 6, 0));
    assert_eq!(year.year, 2023);
    assert_eq!(year.messages, 2);
    assert_eq!(year.mentions, 1);
    assert_eq!(year.user_messages.entries, vec![(5, 1), (6, 1)]);
    assert_eq!(year.user_mentions.entries, vec![(6, 1)]);
    assert_eq!(year.reactions.entries, vec![(5, 2), (6, 0)]);
    assert_eq!(year.emojis.get(&Emoji::Custom(3)), Some(2));
}

#[test]
fn year_report_ranks_and_breaks_down() {
    let mut year = YearStats::new(2023);
    for i in 0..6u64 {
        year.record(&message(
            if i < 4 { 10 } else { 20 },
            i,
            if i % 2 == 0 { 1 } else { 2 },
            0,
            vec![3],
            vec![(Emoji::custom(8), 2), (Emoji::unicode("u".to_string()), i)],
        ));
    }
    year.record(&plain(20, 9, 1, 0));
    let report = year_report(year, Some(1), Some(2));
    assert_eq!(report.year, 2023);
    assert_eq!(report.messages, 7);
    assert_eq!(report.mentions, 6);
    assert_eq!(report.message_rows.len(), 1);
    assert_eq!(report.message_rows[0].rank, Some(1));
    assert_eq!(report.message_rows[0].key, 1);
    assert_eq!(report.message_rows[0].count, 4);
    assert_eq!(report.message_rows[0].shares, Some(vec![(10, 50), (20, 50)]));
    assert_eq!(report.mention_rows.len(), 1);
    assert_eq!(report.mention_rows[0].key, 3);
    assert_eq!(report.mention_rows[0].count, 6);
    assert_eq!(report.mention_rows[0].shares, Some(vec![(10, 66), (20, 33)]));
    assert_eq!(report.emoji_rows.len(), 1);
    assert!(matches!(&report.emoji_rows[0].key, Emoji::Unicode(g) if g == "u"));
    assert_eq!(report.emoji_rows[0].count, 15);
    assert_eq!(report.emoji_rows[0].shares, Some(vec![(20, 60), (10, 40)]));
    assert_eq!(report.reaction_rows.len(), 1);
    assert_eq!(report.reaction_rows[0].key, 2);
    assert_eq!(report.reaction_rows[0].count, 15);
    assert_eq!(report.reaction_rows[0].shares, None);
    assert_eq!(report.custom_rows, vec![(2, 8, 12)]);
    let own = report.lookup_message.unwrap();
    assert_eq!(own.rank, None);
    assert_eq!(own.key, 2);
    assert_eq!(own.count, 3);
    assert_eq!(own.shares, Some(vec![(10, 66), (20, 33)]));
    assert!(report.lookup_mention.is_none());
}

#[test]
fn year_report_without_limit_and_lookup() {
    let mut year = YearStats::new(1999);
    year.record(&plain(1, 1, 5, 0));
    year.record(&plain(1, 2, 6, 0));
    year.record(&plain(1, 3, 6, 0));
    let report = year_report(year, None, None);
    assert_eq!(report.message_rows.len(), 2);
    assert_eq!(report.message_rows[0].key, 6);
    assert_eq!(report.message_rows[1].key, 5);
    assert_eq!(report.message_rows[1].rank, Some(2));
    assert!(report.mention_rows.is_empty());
    assert!(report.emoji_rows.is_empty());
    assert_eq!(report.reaction_rows.len(), 2);
    assert!(report.custom_rows.is_empty());
    assert!(report.lookup_message.is_none());
    assert!(report.lookup_mention.is_none());
    assert!(year_reports(vec![], None, None).is_empty());
}

#[test]
fn analyse_reports_every_year_of_the_window() {
    let data = snapshot(
        vec![member(1, "ann", false)],
        vec![(
            10,
            vec![
                plain(10, 1, 1, TOKYO_2023),
                plain(10, 2, 1, TOKYO_2024),
                plain(10, 3, 2, TOKYO_2024),
                plain(10, 4, 2, TOKYO_2024 + 1),
            ],
        )],
    );
    let mut s = settings(vec![], 2023, 2);
    s.top = Some(10);
    s.lookup = Some(1);
    let reports = analyse(&data, &s).unwrap_or_else(|_| panic!());
    assert_eq!(reports.len(), 2);
    assert_eq!(reports[0].year, 2023);
    assert_eq!(reports[0].messages, 1);
    assert_eq!(reports[1].year, 2024);
    assert_eq!(reports[1].messages, 3);
    assert_eq!(reports[1].message_rows[0].key, 2);
    assert_eq!(reports[1].message_rows[0].count, 2);
    assert_eq!(reports[1].message_rows[1].key, 1);
    assert_eq!(reports[1].lookup_message.as_ref().map(|r| r.count), Some(1));
    s.years = 0;
    assert!(matches!(analyse(&data, &s), Err(StatsError::ConfigInvalid)));
}
