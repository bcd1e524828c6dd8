use std::collections::HashMap;
use vstd::prelude::*;
use crate::aggregate::{aggregate, dated, fits, tallied, window_valid, Settings};
use crate::calendar::zone_known;
use crate::counter::{key_ids, lemma_tally_unique, tally_of, Counter};
use crate::error::StatsError;
use crate::key::Key;
use crate::message_data::JsonData;
use crate::order::is_ranking;
use crate::rank::{lemma_ranking_members, limited, ranking, top_n};
use crate::stats::YearStats;
use crate::message_data::channels::{is_unknown_channel, ChannelData};
use crate::message_data::emoji::{emoji_text, Emoji, EmojiData};
use crate::message_data::user::{is_unknown_user, UserData};
use crate::per_channel::CounterPerChannel;
use crate::percent::{channel_shares, percents};
use crate::rank::ranked;

verus! {

/// Two participant records say the same.
pub open spec fn same_user(a: UserData, b: UserData) -> bool {
    &&& a.user_id == b.user_id
    &&& a.username@ == b.username@
    &&& a.display_name@ == b.display_name@
    &&& a.is_bot == b.is_bot
    &&& a.avatar_url is Some == b.avatar_url is Some
    &&& a.avatar_url is Some ==> a.avatar_url->Some_0@ == b.avatar_url->Some_0@
}

/// Two channel records say the same.
pub open spec fn same_channel(a: ChannelData, b: ChannelData) -> bool {
    &&& a.channel_id == b.channel_id
    &&& a.name@ == b.name@
    &&& a.channel_type == b.channel_type
    &&& a.permission_overwrites@ == b.permission_overwrites@
}

/// The record of a participant; the placeholder where the directory has
/// none.
pub fn lookup_user(members: &HashMap<u64, UserData>, id: u64) -> (u: UserData)
    ensures
        members@.contains_key(id) ==> same_user(u, members@[id]),
        !members@.contains_key(id) ==> is_unknown_user(u),
{
    broadcast use vstd::std_specs::hash::group_hash_axioms;

    match members.get(&id) {
        Some(user) => user.duplicate(),
        None => UserData::unknown(),
    }
}

/// The record of a channel; the placeholder where the directory has none.
pub fn lookup_channel(channels: &HashMap<u64, ChannelData>, id: u64) -> (c: ChannelData)
    ensures
        channels@.contains_key(id) ==> same_channel(c, channels@[id]),
        !channels@.contains_key(id) ==> is_unknown_channel(c),
{
    broadcast use vstd::std_specs::hash::group_hash_axioms;

    match channels.get(&id) {
        Some(channel) => channel.duplicate(),
        None => ChannelData::unknown(),
    }
}

/// The text under which a report lists an emoji: a custom emoji that the
/// directory knows as the directory writes it, one that it does not know as
/// "Unknown", and a standard glyph by its characters.
pub open spec fn emoji_name(emoji: Emoji, emojis: Map<u64, EmojiData>) -> Seq<char> {
    match emoji {
        Emoji::Custom(id) => if emojis.contains_key(id) {
            emoji_text(emojis[id].alias@, emojis[id].emoji_id)
        } else {
            "Unknown"@
        },
        Emoji::Unicode(glyph) => glyph@,
    }
}

/// Names an emoji for a report.
pub fn emoji_label(emoji: &Emoji, emojis: &HashMap<u64, EmojiData>) -> (label: String)
    ensures
        label@ == emoji_name(*emoji, emojis@),
{
    broadcast use vstd::std_specs::hash::group_hash_axioms;

    match emoji {
        Emoji::Custom(id) => match emojis.get(id) {
            Some(data) => data.label(),
            None => "Unknown".to_string(),
        },
        Emoji::Unicode(glyph) => glyph.clone(),
    }
}

/// One line of a report: a key with its count, its place in the ranking
/// where it has one, and its breakdown by channel where one is asked for.
#[derive(Debug)]
pub struct DataRow<K> {
    pub rank: Option<usize>,
    pub key: K,
    pub count: u64,
    pub shares: Option<Vec<(u64, u64)>>,
}

/// The breakdown by channel that belongs to a key with a count: none where
/// no table is given, empty where the table has no row for the key, else the
/// shares of the key's channels in the count, largest first.
pub open spec fn shares_of<K: Key>(
    par_channels: Option<&CounterPerChannel<K>>,
    k: K::V,
    count: u64,
) -> Option<Seq<(u64, u64)>> {
    match par_channels {
        None => None,
        Some(table) => if table.contains(k) {
            Some(percents(ranked(table.row_entries(k)), count))
        } else {
            Some(Seq::empty())
        },
    }
}

/// Whether a row says of a key what a report owes: the place, the key, the
/// count and the breakdown.
pub open spec fn row_shows<K: Key>(
    row: DataRow<K>,
    rank: Option<usize>,
    k: K::V,
    count: u64,
    par_channels: Option<&CounterPerChannel<K>>,
) -> bool {
    &&& row.rank == rank
    &&& row.key@ == k
    &&& row.count == count
    &&& match shares_of(par_channels, k, count) {
        None => row.shares is None,
        Some(shares) => row.shares is Some && row.shares->Some_0@ == shares,
    }
}

/// Builds the line of a report for one key.
pub fn data_row<K: Key>(
    rank: Option<usize>,
    id: &K,
    count: u64,
    par_channels: Option<&CounterPerChannel<K>>,
) -> (row: DataRow<K>)
    requires
        par_channels is Some ==> par_channels->Some_0.wf() && par_channels->Some_0.row_total(id@)
            <= count,
    ensures
        row_shows(row, rank, id@, count, par_channels),
{
    let shares = match par_channels {
        Some(table) => match table.get(id) {
            Some(par_channel) => Some(channel_shares(par_channel, count)),
            None => Some(Vec::new()),
        },
        None => None,
    };
    DataRow { rank, key: id.duplicate(), count, shares }
}

/// Whether rows are the lines of a report for a ranking: one line per entry,
/// in order, numbered from one.
pub open spec fn rows_show<K: Key>(
    rows: Seq<DataRow<K>>,
    top: Seq<(K, u64)>,
    par_channels: Option<&CounterPerChannel<K>>,
) -> bool {
    &&& rows.len() == top.len()
    &&& forall|i: int|
        0 <= i < top.len() ==> row_shows(
            #[trigger] rows[i],
            Some((i + 1) as usize),
            top[i].0@,
            top[i].1,
            par_channels,
        )
}

/// Builds the lines of a report for a ranking: one line per entry, in
/// order, numbered from one.
pub fn ranked_rows<K: Key>(
    counter: &Vec<(K, u64)>,
    par_channels: Option<&CounterPerChannel<K>>,
) -> (rows: Vec<DataRow<K>>)
    requires
        par_channels is Some ==> par_channels->Some_0.wf(),
        par_channels is Some ==> forall|i: int|
            0 <= i < counter@.len() ==> par_channels->Some_0.row_total((#[trigger] counter@[i]).0@)
                <= counter@[i].1,
    ensures
        rows_show(rows@, counter@, par_channels),
{
    let mut rows: Vec<DataRow<K>> = Vec::new();
    let mut i: usize = 0;
    while i < counter.len()
        invariant
            i <= counter@.len(),
            rows@.len() == i,
            par_channels is Some ==> par_channels->Some_0.wf(),
            par_channels is Some ==> forall|j: int|
                0 <= j < counter@.len() ==> par_channels->Some_0.row_total(
                    (#[trigger] counter@[j]).0@,
                ) <= counter@[j].1,
            forall|j: int|
                0 <= j < i ==> row_shows(
                    #[trigger] rows@[j],
                    Some((j + 1) as usize),
                    counter@[j].0@,
                    counter@[j].1,
                    par_channels,
                ),
        decreases counter@.len() - i,
    {
        let row = data_row(Some(i + 1), &counter[i].0, counter[i].1, par_channels);
        rows.push(row);
        i += 1;
    }
    rows
}

/// Builds the line of a report for one key of a counter, without a place in
/// a ranking; none where the counter does not list the key.
pub fn single_row<K: Key>(
    id: &K,
    counter: &Counter<K>,
    par_channels: Option<&CounterPerChannel<K>>,
) -> (row: Option<DataRow<K>>)
    requires
        counter.wf(),
        par_channels is Some ==> par_channels->Some_0.wf() && par_channels->Some_0.row_total(id@)
            <= counter.count(id@),
    ensures
        row is Some == counter.contains(id@),
        row is Some ==> counter.count(id@) <= u64::MAX && row_shows(
            row->Some_0,
            None,
            id@,
            counter.count(id@) as u64,
            par_channels,
        ),
{
    match counter.get(id) {
        Some(count) => Some(data_row(None, id, count, par_channels)),
        None => None,
    }
}

/// The custom emojis among the first `n` entries of a ranking, each with
/// its place in that ranking, counted from one, its id and its count.
pub open spec fn custom_among(s: Seq<(Emoji, u64)>, n: int) -> Seq<(usize, u64, u64)>
    decreases n,
{
    if n <= 0 {
        Seq::empty()
    } else {
        match s[n - 1].0 {
            Emoji::Custom(id) => custom_among(s, n - 1).push((n as usize, id, s[n - 1].1)),
            Emoji::Unicode(_) => custom_among(s, n - 1),
        }
    }
}

/// Picks the custom emojis out of a ranking of emojis, keeping for each the
/// place that it has in the whole ranking.
pub fn custom_ranks(ranking: &Vec<(Emoji, u64)>) -> (rows: Vec<(usize, u64, u64)>)
    ensures
        rows@ == custom_among(ranking@, ranking@.len() as int),
{
    let mut rows: Vec<(usize, u64, u64)> = Vec::new();
    let mut i: usize = 0;
    while i < ranking.len()
        invariant
            i <= ranking@.len(),
            rows@ == custom_among(ranking@, i as int),
        decreases ranking@.len() - i,
    {
        match &ranking[i].0 {
            Emoji::Custom(id) => {
                rows.push((i + 1, *id, ranking[i].1));
            },
            Emoji::Unicode(_) => {},
        }
        i += 1;
    }
    rows
}

/// The report of one year: the totals, the rankings with their breakdowns by
/// channel, the custom emojis with their places among all emojis, and the
/// counts of the participant that was asked for.
#[derive(Debug)]
pub struct YearReport {
    pub year: i32,
    pub messages: u64,
    pub mentions: u64,
    pub message_rows: Vec<DataRow<u64>>,
    pub mention_rows: Vec<DataRow<u64>>,
    pub emoji_rows: Vec<DataRow<Emoji>>,
    pub reaction_rows: Vec<DataRow<u64>>,
    pub custom_rows: Vec<(usize, u64, u64)>,
    pub lookup_message: Option<DataRow<u64>>,
    pub lookup_mention: Option<DataRow<u64>>,
}

/// The head of the ranking of a counter: as many entries as the limit
/// allows.
pub open spec fn top_of<K: Key>(counter: Counter<K>, top: Option<usize>) -> Seq<(K, u64)> {
    ranked(counter.entries@).take(limited(top, counter.entries@.len()) as int)
}

/// Whether a row is what a report owes of the participant that was asked
/// for: nothing where nobody was asked for or the counter does not list the
/// participant, else the participant's count and its breakdown by channel.
pub open spec fn lookup_shows(
    row: Option<DataRow<u64>>,
    lookup: Option<u64>,
    counter: Counter<u64>,
    par_channels: CounterPerChannel<u64>,
) -> bool {
    match lookup {
        None => row is None,
        Some(id) => {
            &&& row is Some == counter.contains(id)
            &&& row is Some ==> counter.count(id) <= u64::MAX && row_shows(
                row->Some_0,
                None,
                id,
                counter.count(id) as u64,
                Some(&par_channels),
            )
        },
    }
}

/// Whether a report says of the counters of a year what it owes.
pub open spec fn report_shows(
    r: YearReport,
    stats: YearStats,
    top: Option<usize>,
    lookup: Option<u64>,
) -> bool {
    &&& r.year == stats.year
    &&& r.messages == stats.messages
    &&& r.mentions == stats.mentions
    &&& rows_show(
        r.message_rows@,
        top_of(stats.user_messages, top),
        Some(&stats.user_messages_per_channels),
    )
    &&& rows_show(
        r.mention_rows@,
        top_of(stats.user_mentions, top),
        Some(&stats.user_mentions_per_channels),
    )
    &&& rows_show(r.emoji_rows@, top_of(stats.emojis, top), Some(&stats.emojis_per_channels))
    &&& rows_show(r.reaction_rows@, top_of(stats.reactions, top), None)
    &&& r.custom_rows@ == custom_among(
        ranked(stats.emojis.entries@),
        stats.emojis.entries@.len() as int,
    )
    &&& lookup_shows(
        r.lookup_message,
        lookup,
        stats.user_messages,
        stats.user_messages_per_channels,
    )
    &&& lookup_shows(
        r.lookup_mention,
        lookup,
        stats.user_mentions,
        stats.user_mentions_per_channels,
    )
}

proof fn lemma_top_conserved<K: Key>(
    entries: Seq<(K, u64)>,
    table: CounterPerChannel<K>,
    full: Seq<(K, u64)>,
    m: int,
)
    requires
        key_ids(entries).no_duplicates(),
        forall|k: K::V| #[trigger] table.row_total(k) == tally_of(entries, k),
        is_ranking(full, entries),
        0 <= m <= full.len(),
    ensures
        forall|i: int|
            0 <= i < m ==> table.row_total((#[trigger] full.take(m)[i]).0@) <= full.take(m)[i].1,
{
    assert forall|i: int| 0 <= i < m implies table.row_total((#[trigger] full.take(m)[i]).0@)
        <= full.take(m)[i].1 by {
        let e = full[i];
        assert(full.contains(e));
        lemma_ranking_members(full, entries, e);
        let j = choose|j: int| 0 <= j < entries.len() && entries[j] == e;
        lemma_tally_unique(entries, j);
        assert(table.row_total(e.0@) == tally_of(entries, e.0@));
    }
}

/// Builds the report of one year from its counters: the rankings, cut at
/// the limit, with the breakdown by channel of every entry but those of the
/// reactions received; the custom emojis; and the rows of the participant
/// that was asked for.
pub fn year_report(stats: YearStats, top: Option<usize>, lookup: Option<u64>) -> (r: YearReport)
    requires
        stats.wf(),
    ensures
        report_shows(r, stats, top, lookup),
{
    let ghost before = stats;
    let YearStats {
        year,
        messages,
        mentions,
        user_messages,
        user_messages_per_channels,
        user_mentions,
        user_mentions_per_channels,
        emojis,
        emojis_per_channels,
        reactions,
    } = stats;
    let lookup_message = match lookup {
        Some(id) => single_row(&id, &user_messages, Some(&user_messages_per_channels)),
        None => None,
    };
    let lookup_mention = match lookup {
        Some(id) => single_row(&id, &user_mentions, Some(&user_mentions_per_channels)),
        None => None,
    };

    let ghost message_entries = user_messages.entries@;
    let message_top = top_n(user_messages, top);
    proof {
        lemma_top_conserved(
            message_entries,
            user_messages_per_channels,
            ranked(message_entries),
            message_top@.len() as int,
        );
    }
    let message_rows = ranked_rows(&message_top, Some(&user_messages_per_channels));

    let ghost mention_entries = user_mentions.entries@;
    let mention_top = top_n(user_mentions, top);
    proof {
        lemma_top_conserved(
            mention_entries,
            user_mentions_per_channels,
            ranked(mention_entries),
            mention_top@.len() as int,
        );
    }
    let mention_rows = ranked_rows(&mention_top, Some(&user_mentions_per_channels));

    let ghost emoji_entries = emojis.entries@;
    let mut emoji_top = ranking(emojis);
    let custom_rows = custom_ranks(&emoji_top);
    let ghost emoji_full = emoji_top@;
    match top {
        Some(n) => {
            emoji_top.truncate(n);
        },
        None => {},
    }
    proof {
        assert(emoji_top@ =~= emoji_full.take(limited(top, emoji_entries.len()) as int));
        lemma_top_conserved(
            emoji_entries,
            emojis_per_channels,
            emoji_full,
            emoji_top@.len() as int,
        );
    }
    let emoji_rows = ranked_rows(&emoji_top, Some(&emojis_per_channels));

    let reaction_top = top_n(reactions, top);
    let reaction_rows = ranked_rows(&reaction_top, None);

    YearReport {
        year,
        messages,
        mentions,
        message_rows,
        mention_rows,
        emoji_rows,
        reaction_rows,
        custom_rows,
        lookup_message,
        lookup_mention,
    }
}

/// Whether reports say of counters, year by year, what they owe.
pub open spec fn reports_show(
    reports: Seq<YearReport>,
    stats: Seq<YearStats>,
    top: Option<usize>,
    lookup: Option<u64>,
) -> bool {
    &&& reports.len() == stats.len()
    &&& forall|b: int|
        0 <= b < stats.len() ==> report_shows(#[trigger] reports[b], stats[b], top, lookup)
}

/// Builds the reports of the years of counters, in order.
pub fn year_reports(stats: Vec<YearStats>, top: Option<usize>, lookup: Option<u64>) -> (reports:
    Vec<YearReport>)
    requires
        forall|b: int| 0 <= b < stats@.len() ==> (#[trigger] stats@[b]).wf(),
    ensures
        reports_show(reports@, stats@, top, lookup),
{
    let mut reports: Vec<YearReport> = Vec::new();
    let ghost all = stats@;
    for year in iter: stats
        invariant
            iter.seq() == all,
            forall|b: int| 0 <= b < all.len() ==> (#[trigger] all[b]).wf(),
            reports@.len() == iter.index(),
            forall|b: int|
                0 <= b < iter.index() ==> report_shows(#[trigger] reports@[b], all[b], top, lookup),
    {
        reports.push(year_report(year, top, lookup));
    }
    reports
}

/// Analyses a snapshot: folds it into the counters of the years of the
/// window and reports on every year. The settings are refused where the
/// window is not valid or the time zone is not known.
pub fn analyse(data: &JsonData, settings: &Settings) -> (r: Result<Vec<YearReport>, StatsError>)
    requires
        fits(data.messages@),
    ensures
        r is Ok == (window_valid(settings.first_year, settings.years) && zone_known(
            settings.zone@,
        )),
        r is Err ==> r->Err_0 == StatsError::ConfigInvalid,
        r is Ok ==> exists|stats: Seq<YearStats>|
            {
                &&& tallied(
                    stats,
                    data.messages@,
                    dated(data.messages@, settings.zone@),
                    data.members@,
                    *settings,
                )
                &&& #[trigger] reports_show(r->Ok_0@, stats, settings.top, settings.lookup)
            },
{
    match aggregate(data, settings) {
        Ok(stats) => {
            let ghost counted = stats@;
            let reports = year_reports(stats, settings.top, settings.lookup);
            let r: Result<Vec<YearReport>, StatsError> = Ok(reports);
            proof {
                assert(tallied(
                    counted,
                    data.messages@,
                    dated(data.messages@, settings.zone@),
                    data.members@,
                    *settings,
                ));
                assert(reports_show(r->Ok_0@, counted, settings.top, settings.lookup));
            }
            r
        },
        Err(why) => Err(why),
    }
}

} // verus!
