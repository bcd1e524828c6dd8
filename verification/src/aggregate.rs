use std::collections::HashMap;
use vstd::prelude::*;
use crate::calendar::{bucket_index, bucket_of, is_known_zone, local_year, year_in_zone, zone_known};
use crate::error::StatsError;
use crate::message_data::message::MessageData;
use crate::message_data::user::UserData;
use crate::message_data::JsonData;
use crate::stats::{touches, volume, weight, Measure, Subject, YearStats};

verus! {

/// What an analysis is asked to do.
#[derive(Debug)]
pub struct Settings {
    /// The channels whose messages are left out.
    pub excluded: Vec<u64>,
    /// The name of the time zone whose calendar decides a message's year.
    pub zone: String,
    /// The first year of the window.
    pub first_year: i32,
    /// The number of years in the window.
    pub years: usize,
    /// Whether the messages of bots are left out.
    pub skip_bots: bool,
    /// How many entries a ranking of the report lists at most; all of them
    /// where no limit is set.
    pub top: Option<usize>,
    /// A participant whose own counts the report shows besides the rankings.
    pub lookup: Option<u64>,
}

/// A window is valid where it has at least one year and its last year is a
/// year that the calendar can name.
pub open spec fn window_valid(first_year: i32, years: usize) -> bool {
    &&& years > 0
    &&& first_year + years - 1 <= i32::MAX
}

/// The year that a table of years gives for message `j` of channel `i`;
/// none where the table has no such place.
pub open spec fn year_at(table: Seq<Seq<Option<i32>>>, i: int, j: int) -> Option<i32> {
    if 0 <= i < table.len() && 0 <= j < table[i].len() {
        table[i][j]
    } else {
        None
    }
}

/// The table of the years in which the messages of an archive fall for a
/// clock in the named zone.
pub open spec fn dated(logs: Seq<(u64, Vec<MessageData>)>, zone: Seq<char>) -> Seq<
    Seq<Option<i32>>,
> {
    Seq::new(
        logs.len(),
        |i: int|
            Seq::new(logs[i].1@.len(), |j: int| local_year(zone, logs[i].1@[j].send_time.secs)),
    )
}

/// The rows of a table of years.
pub open spec fn rows_of(table: Seq<Vec<Option<i32>>>) -> Seq<Seq<Option<i32>>> {
    Seq::new(table.len(), |i: int| table[i]@)
}

/// Whether the directory flags the participant as a bot. A participant whom
/// the directory does not know is no bot.
pub open spec fn flagged_bot(members: Map<u64, UserData>, id: u64) -> bool {
    members.contains_key(id) && members[id].is_bot
}

/// Whether a message of the archive is let into the counters at all: its
/// channel of the archive is not excluded, and, where bots are left out, its
/// author is not flagged as one.
pub open spec fn admitted(
    channel: u64,
    m: MessageData,
    members: Map<u64, UserData>,
    settings: Settings,
) -> bool {
    &&& !settings.excluded@.contains(channel)
    &&& !(settings.skip_bots && flagged_bot(members, m.author_id))
}

/// Whether a message is counted in the year at position `b` of the window.
pub open spec fn counted(
    channel: u64,
    m: MessageData,
    year: Option<i32>,
    members: Map<u64, UserData>,
    settings: Settings,
    b: usize,
) -> bool {
    &&& admitted(channel, m, members, settings)
    &&& bucket_of(year, settings.first_year, settings.years) == Some(b)
}

/// What the first `n` messages of one channel of the archive contribute to a
/// quantity in the year at position `b`.
pub open spec fn log_sum(
    channel: u64,
    ms: Seq<MessageData>,
    years: Seq<Option<i32>>,
    n: int,
    members: Map<u64, UserData>,
    settings: Settings,
    b: usize,
    q: Measure,
) -> nat
    decreases n,
{
    if n <= 0 {
        0
    } else {
        log_sum(channel, ms, years, n - 1, members, settings, b, q) + if counted(
            channel,
            ms[n - 1],
            if n - 1 < years.len() {
                years[n - 1]
            } else {
                None
            },
            members,
            settings,
            b,
        ) {
            weight(ms[n - 1], q)
        } else {
            0
        }
    }
}

/// What the first `n` channels of the archive contribute to a quantity in
/// the year at position `b`.
pub open spec fn archive_sum(
    logs: Seq<(u64, Vec<MessageData>)>,
    table: Seq<Seq<Option<i32>>>,
    n: int,
    members: Map<u64, UserData>,
    settings: Settings,
    b: usize,
    q: Measure,
) -> nat
    decreases n,
{
    if n <= 0 {
        0
    } else {
        archive_sum(logs, table, n - 1, members, settings, b, q) + log_sum(
            logs[n - 1].0,
            logs[n - 1].1@,
            if n - 1 < table.len() {
                table[n - 1]
            } else {
                Seq::empty()
            },
            logs[n - 1].1@.len() as int,
            members,
            settings,
            b,
            q,
        )
    }
}

/// Whether one of the first `n` messages of one channel of the archive is
/// counted in the year at position `b` and makes the counters list the
/// subject.
pub open spec fn log_any(
    channel: u64,
    ms: Seq<MessageData>,
    years: Seq<Option<i32>>,
    n: int,
    members: Map<u64, UserData>,
    settings: Settings,
    b: usize,
    s: Subject,
) -> bool
    decreases n,
{
    if n <= 0 {
        false
    } else {
        log_any(channel, ms, years, n - 1, members, settings, b, s) || (counted(
            channel,
            ms[n - 1],
            if n - 1 < years.len() {
                years[n - 1]
            } else {
                None
            },
            members,
            settings,
            b,
        ) && touches(ms[n - 1], s))
    }
}

/// Whether a message of the first `n` channels of the archive is counted in
/// the year at position `b` and makes the counters list the subject.
pub open spec fn archive_any(
    logs: Seq<(u64, Vec<MessageData>)>,
    table: Seq<Seq<Option<i32>>>,
    n: int,
    members: Map<u64, UserData>,
    settings: Settings,
    b: usize,
    s: Subject,
) -> bool
    decreases n,
{
    if n <= 0 {
        false
    } else {
        archive_any(logs, table, n - 1, members, settings, b, s) || log_any(
            logs[n - 1].0,
            logs[n - 1].1@,
            if n - 1 < table.len() {
                table[n - 1]
            } else {
                Seq::empty()
            },
            logs[n - 1].1@.len() as int,
            members,
            settings,
            b,
            s,
        )
    }
}

/// All that the first `n` messages of a channel would add to the counters.
pub open spec fn log_volume(ms: Seq<MessageData>, n: int) -> nat
    decreases n,
{
    if n <= 0 {
        0
    } else {
        log_volume(ms, n - 1) + volume(ms[n - 1])
    }
}

/// All that the first `n` channels of an archive would add to the counters.
pub open spec fn archive_volume(logs: Seq<(u64, Vec<MessageData>)>, n: int) -> nat
    decreases n,
{
    if n <= 0 {
        0
    } else {
        archive_volume(logs, n - 1) + log_volume(logs[n - 1].1@, logs[n - 1].1@.len() as int)
    }
}

/// The counters can hold an archive where all that it would add to them
/// fits in 64 bits.
pub open spec fn fits(logs: Seq<(u64, Vec<MessageData>)>) -> bool {
    archive_volume(logs, logs.len() as int) <= u64::MAX
}

proof fn lemma_log_volume_grows(ms: Seq<MessageData>, a: int, b: int)
    requires
        0 <= a <= b,
    ensures
        log_volume(ms, a) <= log_volume(ms, b),
    decreases b - a,
{
    if a < b {
        lemma_log_volume_grows(ms, a, b - 1);
    }
}

proof fn lemma_archive_volume_grows(logs: Seq<(u64, Vec<MessageData>)>, a: int, b: int)
    requires
        0 <= a <= b,
    ensures
        archive_volume(logs, a) <= archive_volume(logs, b),
    decreases b - a,
{
    if a < b {
        lemma_archive_volume_grows(logs, a, b - 1);
    }
}

/// The messages of an excluded channel contribute nothing to any quantity in
/// any year.
pub proof fn lemma_excluded_sum(
    channel: u64,
    ms: Seq<MessageData>,
    years: Seq<Option<i32>>,
    n: int,
    members: Map<u64, UserData>,
    settings: Settings,
    b: usize,
    q: Measure,
)
    requires
        settings.excluded@.contains(channel),
    ensures
        log_sum(channel, ms, years, n, members, settings, b, q) == 0,
    decreases n,
{
    if n > 0 {
        lemma_excluded_sum(channel, ms, years, n - 1, members, settings, b, q);
    }
}

/// The messages of an excluded channel make no counter list anything.
pub proof fn lemma_excluded_any(
    channel: u64,
    ms: Seq<MessageData>,
    years: Seq<Option<i32>>,
    n: int,
    members: Map<u64, UserData>,
    settings: Settings,
    b: usize,
    s: Subject,
)
    requires
        settings.excluded@.contains(channel),
    ensures
        !log_any(channel, ms, years, n, members, settings, b, s),
    decreases n,
{
    if n > 0 {
        lemma_excluded_any(channel, ms, years, n - 1, members, settings, b, s);
    }
}

/// Whether a channel is among those that are left out.
pub fn is_excluded(excluded: &Vec<u64>, channel: u64) -> (r: bool)
    ensures
        r == excluded@.contains(channel),
{
    let mut i: usize = 0;
    while i < excluded.len()
        invariant
            i <= excluded@.len(),
            forall|j: int| 0 <= j < i ==> excluded@[j] != channel,
        decreases excluded@.len() - i,
    {
        if excluded[i] == channel {
            return true;
        }
        i += 1;
    }
    false
}

/// Whether the directory flags the participant as a bot.
pub fn is_bot(members: &HashMap<u64, UserData>, id: u64) -> (r: bool)
    ensures
        r == flagged_bot(members@, id),
{
    broadcast use vstd::std_specs::hash::group_hash_axioms;

    match members.get(&id) {
        Some(user) => user.is_bot,
        None => false,
    }
}

/// The row of a table of years for channel `i`; empty where it has none.
pub open spec fn row_at(table: Seq<Seq<Option<i32>>>, i: int) -> Seq<Option<i32>> {
    if 0 <= i < table.len() {
        table[i]
    } else {
        Seq::empty()
    }
}

/// The counters of the years of a window hold exactly what the archive
/// contributes to each year: one set of counters per year, in order, each
/// valid, each quantity with the sum of what the counted messages
/// contribute, and each subject listed exactly where a counted message
/// names it.
pub open spec fn tallied(
    stats: Seq<YearStats>,
    logs: Seq<(u64, Vec<MessageData>)>,
    table: Seq<Seq<Option<i32>>>,
    members: Map<u64, UserData>,
    settings: Settings,
) -> bool {
    &&& stats.len() == settings.years
    &&& forall|b: int|
        0 <= b < stats.len() ==> {
            &&& (#[trigger] stats[b]).wf()
            &&& stats[b].year == settings.first_year + b
            &&& forall|q: Measure|
                stats[b].value(q) == archive_sum(
                    logs,
                    table,
                    logs.len() as int,
                    members,
                    settings,
                    b as usize,
                    q,
                )
            &&& forall|s: Subject|
                stats[b].lists(s) == archive_any(
                    logs,
                    table,
                    logs.len() as int,
                    members,
                    settings,
                    b as usize,
                    s,
                )
        }
}

/// Whether the window of the settings is valid.
pub fn check_window(first_year: i32, years: usize) -> (ok: bool)
    ensures
        ok == window_valid(first_year, years),
{
    if years == 0 {
        return false;
    }
    let room: i64 = (i32::MAX as i64) - (first_year as i64);
    ((years - 1) as u64) <= (room as u64)
}

/// Empty counters for each year of a valid window.
pub fn empty_years(first_year: i32, years: usize) -> (stats: Vec<YearStats>)
    requires
        window_valid(first_year, years),
    ensures
        stats@.len() == years,
        forall|b: int|
            0 <= b < years ==> {
                &&& (#[trigger] stats@[b]).wf()
                &&& stats@[b].year == first_year + b
                &&& stats@[b].load() == 0
                &&& forall|q: Measure| stats@[b].value(q) == 0
                &&& forall|s: Subject| !stats@[b].lists(s)
            },
{
    let mut stats: Vec<YearStats> = Vec::new();
    let mut b: usize = 0;
    while b < years
        invariant
            window_valid(first_year, years),
            b <= years,
            stats@.len() == b,
            forall|k: int|
                0 <= k < b ==> {
                    &&& (#[trigger] stats@[k]).wf()
                    &&& stats@[k].year == first_year + k
                    &&& stats@[k].load() == 0
                    &&& forall|q: Measure| stats@[k].value(q) == 0
                    &&& forall|s: Subject| !stats@[k].lists(s)
                },
        decreases years - b,
    {
        let year: i64 = (first_year as i64) + (b as i64);
        stats.push(YearStats::new(year as i32));
        b += 1;
    }
    stats
}

/// Folds an archive into the counters of a window of years, with the year
/// of every message given in a table: the year of message `j` of channel `i`
/// of the archive stands at place `j` of row `i`. A message for which the
/// table has no place, or no year, is counted in no year.
pub fn aggregate_dated(data: &JsonData, settings: &Settings, table: &Vec<Vec<Option<i32>>>) -> (r:
    Result<Vec<YearStats>, StatsError>)
    requires
        fits(data.messages@),
    ensures
        r is Ok == window_valid(settings.first_year, settings.years),
        r is Err ==> r->Err_0 == StatsError::ConfigInvalid,
        r is Ok ==> tallied(r->Ok_0@, data.messages@, rows_of(table@), data.members@, *settings),
{
    if !check_window(settings.first_year, settings.years) {
        return Err(StatsError::ConfigInvalid);
    }
    let mut stats = empty_years(settings.first_year, settings.years);
    let ghost logs = data.messages@;
    let ghost rows = rows_of(table@);
    let ghost members = data.members@;
    let mut i: usize = 0;
    while i < data.messages.len()
        invariant
            logs == data.messages@,
            rows == rows_of(table@),
            members == data.members@,
            fits(logs),
            i <= logs.len(),
            stats@.len() == settings.years,
            forall|b: int|
                0 <= b < settings.years ==> {
                    &&& (#[trigger] stats@[b]).wf()
                    &&& stats@[b].year == settings.first_year + b
                    &&& stats@[b].load() <= archive_volume(logs, i as int)
                    &&& forall|q: Measure|
                        stats@[b].value(q) == archive_sum(
                            logs,
                            rows,
                            i as int,
                            members,
                            *settings,
                            b as usize,
                            q,
                        )
                    &&& forall|s: Subject|
                        stats@[b].lists(s) == archive_any(
                            logs,
                            rows,
                            i as int,
                            members,
                            *settings,
                            b as usize,
                            s,
                        )
                },
        decreases logs.len() - i,
    {
        let channel: u64 = data.messages[i].0;
        let ghost ms = logs[i as int].1@;
        let ghost yrs = row_at(rows, i as int);
        proof {
            lemma_archive_volume_grows(logs, i + 1, logs.len() as int);
        }
        if is_excluded(&settings.excluded, channel) {
            proof {
                assert forall|b: int| 0 <= b < settings.years implies {
                    &&& (forall|q: Measure|
                        (#[trigger] stats@[b]).value(q) == archive_sum(
                            logs,
                            rows,
                            i + 1,
                            members,
                            *settings,
                            b as usize,
                            q,
                        ))
                    &&& (forall|s: Subject|
                        stats@[b].lists(s) == archive_any(
                            logs,
                            rows,
                            i + 1,
                            members,
                            *settings,
                            b as usize,
                            s,
                        ))
                } by {
                    assert forall|q: Measure|
                        stats@[b].value(q) == archive_sum(
                            logs,
                            rows,
                            i + 1,
                            members,
                            *settings,
                            b as usize,
                            q,
                        ) by {
                        lemma_excluded_sum(
                            channel,
                            ms,
                            yrs,
                            ms.len() as int,
                            members,
                            *settings,
                            b as usize,
                            q,
                        );
                    }
                    assert forall|s: Subject|
                        stats@[b].lists(s) == archive_any(
                            logs,
                            rows,
                            i + 1,
                            members,
                            *settings,
                            b as usize,
                            s,
                        ) by {
                        lemma_excluded_any(
                            channel,
                            ms,
                            yrs,
                            ms.len() as int,
                            members,
                            *settings,
                            b as usize,
                            s,
                        );
                    }
                }
            }
        } else {
            let mut j: usize = 0;
            while j < data.messages[i].1.len()
                invariant
                    logs == data.messages@,
                    rows == rows_of(table@),
                    members == data.members@,
                    i < logs.len(),
                    ms == logs[i as int].1@,
                    yrs == row_at(rows, i as int),
                    channel == logs[i as int].0,
                    !settings.excluded@.contains(channel),
                    archive_volume(logs, i + 1) <= u64::MAX,
                    j <= ms.len(),
                    stats@.len() == settings.years,
                    forall|b: int|
                        0 <= b < settings.years ==> {
                            &&& (#[trigger] stats@[b]).wf()
                            &&& stats@[b].year == settings.first_year + b
                            &&& stats@[b].load() <= archive_volume(logs, i as int) + log_volume(
                                ms,
                                j as int,
                            )
                            &&& forall|q: Measure|
                                stats@[b].value(q) == archive_sum(
                                    logs,
                                    rows,
                                    i as int,
                                    members,
                                    *settings,
                                    b as usize,
                                    q,
                                ) + log_sum(
                                    channel,
                                    ms,
                                    yrs,
                                    j as int,
                                    members,
                                    *settings,
                                    b as usize,
                                    q,
                                )
                            &&& forall|s: Subject|
                                stats@[b].lists(s) == (archive_any(
                                    logs,
                                    rows,
                                    i as int,
                                    members,
                                    *settings,
                                    b as usize,
                                    s,
                                ) || log_any(
                                    channel,
                                    ms,
                                    yrs,
                                    j as int,
                                    members,
                                    *settings,
                                    b as usize,
                                    s,
                                ))
                        },
                decreases ms.len() - j,
            {
                let message = &data.messages[i].1[j];
                let year: Option<i32> = if i < table.len() && j < table[i].len() {
                    table[i][j]
                } else {
                    None
                };
                let ghost before = stats@;
                proof {
                    lemma_log_volume_grows(ms, j + 1, ms.len() as int);
                    assert(year == if (j as int) < yrs.len() {
                        yrs[j as int]
                    } else {
                        None
                    });
                }
                let skip = settings.skip_bots && is_bot(&data.members, message.author_id);
                let slot = if skip {
                    None
                } else {
                    bucket_index(year, settings.first_year, settings.years)
                };
                match slot {
                    Some(b) => {
                        let target = &mut stats[b];
                        target.record(message);
                    },
                    None => {},
                }
                proof {
                    assert forall|b: int| 0 <= b < settings.years implies {
                        &&& (#[trigger] stats@[b]).wf()
                        &&& stats@[b].year == settings.first_year + b
                        &&& stats@[b].load() <= archive_volume(logs, i as int) + log_volume(
                            ms,
                            j + 1,
                        )
                        &&& (forall|q: Measure|
                            stats@[b].value(q) == archive_sum(
                                logs,
                                rows,
                                i as int,
                                members,
                                *settings,
                                b as usize,
                                q,
                            ) + log_sum(channel, ms, yrs, j + 1, members, *settings, b as usize, q))
                        &&& (forall|s: Subject|
                            stats@[b].lists(s) == (archive_any(
                                logs,
                                rows,
                                i as int,
                                members,
                                *settings,
                                b as usize,
                                s,
                            ) || log_any(channel, ms, yrs, j + 1, members, *settings, b as usize, s)))
                    } by {
                        let is_counted = counted(
                            channel,
                            ms[j as int],
                            year,
                            members,
                            *settings,
                            b as usize,
                        );
                        assert(is_counted == (slot == Some(b as usize)));
                        assert(before[b].wf());
                        if !is_counted {
                            assert(stats@[b] == before[b]);
                        }
                        assert forall|q: Measure|
                            stats@[b].value(q) == archive_sum(
                                logs,
                                rows,
                                i as int,
                                members,
                                *settings,
                                b as usize,
                                q,
                            ) + log_sum(
                                channel,
                                ms,
                                yrs,
                                j + 1,
                                members,
                                *settings,
                                b as usize,
                                q,
                            ) by {
                            assert(before[b].value(q) == archive_sum(
                                logs,
                                rows,
                                i as int,
                                members,
                                *settings,
                                b as usize,
                                q,
                            ) + log_sum(
                                channel,
                                ms,
                                yrs,
                                j as int,
                                members,
                                *settings,
                                b as usize,
                                q,
                            ));
                        }
                        assert forall|s: Subject|
                            stats@[b].lists(s) == (archive_any(
                                logs,
                                rows,
                                i as int,
                                members,
                                *settings,
                                b as usize,
                                s,
                            ) || log_any(
                                channel,
                                ms,
                                yrs,
                                j + 1,
                                members,
                                *settings,
                                b as usize,
                                s,
                            )) by {
                            assert(log_any(
                                channel,
                                ms,
                                yrs,
                                j + 1,
                                members,
                                *settings,
                                b as usize,
                                s,
                            ) == (log_any(
                                channel,
                                ms,
                                yrs,
                                j as int,
                                members,
                                *settings,
                                b as usize,
                                s,
                            ) || (is_counted && touches(ms[j as int], s))));
                            if is_counted {
                                assert(stats@[b].lists(s) == (before[b].lists(s) || touches(
                                    ms[j as int],
                                    s,
                                )));
                            }
                            assert(before[b].lists(s) == (archive_any(
                                logs,
                                rows,
                                i as int,
                                members,
                                *settings,
                                b as usize,
                                s,
                            ) || log_any(
                                channel,
                                ms,
                                yrs,
                                j as int,
                                members,
                                *settings,
                                b as usize,
                                s,
                            )));
                        }
                    }
                }
                j += 1;
            }
        }
        i += 1;
    }
    Ok(stats)
}

/// Reads, for every message of an archive, the calendar year in which it
/// was sent for a clock in the named zone.
pub fn local_years(logs: &Vec<(u64, Vec<MessageData>)>, zone: &str) -> (table: Vec<
    Vec<Option<i32>>,
>)
    ensures
        rows_of(table@) == dated(logs@, zone@),
{
    let mut table: Vec<Vec<Option<i32>>> = Vec::new();
    let mut i: usize = 0;
    while i < logs.len()
        invariant
            i <= logs@.len(),
            table@.len() == i,
            forall|k: int| 0 <= k < i ==> (#[trigger] table@[k])@ == dated(logs@, zone@)[k],
        decreases logs@.len() - i,
    {
        let mut row: Vec<Option<i32>> = Vec::new();
        let mut j: usize = 0;
        while j < logs[i].1.len()
            invariant
                i < logs@.len(),
                j <= logs@[i as int].1@.len(),
                row@.len() == j,
                forall|l: int|
                    0 <= l < j ==> #[trigger] row@[l] == local_year(
                        zone@,
                        logs@[i as int].1@[l].send_time.secs,
                    ),
            decreases logs@[i as int].1@.len() - j,
        {
            row.push(year_in_zone(zone, logs[i].1[j].send_time.secs));
            j += 1;
        }
        proof {
            assert(row@ =~= dated(logs@, zone@)[i as int]);
        }
        table.push(row);
        i += 1;
    }
    proof {
        assert(rows_of(table@) =~= dated(logs@, zone@));
    }
    table
}

/// Folds a snapshot into the counters of a window of years. A message is
/// counted in the year in which it was sent for a clock in the time zone of
/// the settings, provided that its channel of the archive is not excluded,
/// that its author is no bot where bots are left out, and that the year
/// lies in the window. The settings are refused where the window is not
/// valid or the time zone is not known.
pub fn aggregate(data: &JsonData, settings: &Settings) -> (r: Result<Vec<YearStats>, StatsError>)
    requires
        fits(data.messages@),
    ensures
        r is Ok == (window_valid(settings.first_year, settings.years) && zone_known(
            settings.zone@,
        )),
        r is Err ==> r->Err_0 == StatsError::ConfigInvalid,
        r is Ok ==> tallied(
            r->Ok_0@,
            data.messages@,
            dated(data.messages@, settings.zone@),
            data.members@,
            *settings,
        ),
{
    if !is_known_zone(settings.zone.as_str()) {
        return Err(StatsError::ConfigInvalid);
    }
    if !check_window(settings.first_year, settings.years) {
        return Err(StatsError::ConfigInvalid);
    }
    let table = local_years(&data.messages, settings.zone.as_str());
    aggregate_dated(data, settings, &table)
}

/// All that one message would add to the counters, where it fits in 64
/// bits.
pub fn message_volume(message: &MessageData) -> (r: Option<u64>)
    ensures
        match r {
            Some(v) => v as nat == volume(*message),
            None => volume(*message) > u64::MAX,
        },
{
    match message.reactions.checked_total() {
        Some(tallies) => {
            let mentions: u64 = message.mentions.len() as u64;
            if mentions > u64::MAX - 1 {
                return None;
            }
            let base: u64 = mentions + 1;
            if tallies > u64::MAX - base {
                None
            } else {
                Some(base + tallies)
            }
        },
        None => None,
    }
}

/// Decides whether the counters can hold an archive.
pub fn volume_fits(logs: &Vec<(u64, Vec<MessageData>)>) -> (ok: bool)
    ensures
        ok == fits(logs@),
{
    let mut sum: u64 = 0;
    let mut i: usize = 0;
    while i < logs.len()
        invariant
            i <= logs@.len(),
            sum as nat == archive_volume(logs@, i as int),
        decreases logs@.len() - i,
    {
        let mut j: usize = 0;
        let ghost ms = logs@[i as int].1@;
        proof {
            lemma_archive_volume_grows(logs@, i + 1, logs@.len() as int);
        }
        while j < logs[i].1.len()
            invariant
                i < logs@.len(),
                ms == logs@[i as int].1@,
                j <= ms.len(),
                sum as nat == archive_volume(logs@, i as int) + log_volume(ms, j as int),
                archive_volume(logs@, i + 1) <= archive_volume(logs@, logs@.len() as int),
            decreases ms.len() - j,
        {
            proof {
                lemma_log_volume_grows(ms, j + 1, ms.len() as int);
            }
            match message_volume(&logs[i].1[j]) {
                Some(v) => {
                    if v > u64::MAX - sum {
                        return false;
                    }
                    sum = sum + v;
                },
                None => {
                    return false;
                },
            }
            j += 1;
        }
        i += 1;
    }
    true
}

} // verus!
