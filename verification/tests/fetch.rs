use guild_stats::error::StatsError;
use guild_stats::fetch::{begin, Begin, Next, Paging, Request, Rule, PAGE_SIZE};
use guild_stats::message_data::message::{MessageData, Timestamp};
use guild_stats::message_data::ChannelData;

fn msg(id: u64, author: u64, secs: i64) -> MessageData {
    MessageData::from_parts(
        1,
        id,
        author,
        vec![],
        vec![],
        Timestamp { secs, nanos: 0 },
        None,
        0,
        0,
        id % 7 == 0,
    )
}

fn text_channel() -> ChannelData {
    ChannelData::new(1, "general".to_string(), 0, vec![])
}

/// A channel of `count` messages with ids `1..=count`, served newest first
/// in pages of at most `page` messages.
struct Transport {
    count: u64,
    page: u64,
    lookups: usize,
    pages: usize,
    sizes: Vec<usize>,
}

impl Transport {
    fn answer_lookup(&mut self, id: u64) -> Result<MessageData, StatsError> {
        self.lookups += 1;
        if id >= 1 && id <= self.count {
            Ok(msg(id, id % 3, id as i64))
        } else {
            Err(StatsError::RemoteUnavailable)
        }
    }

    fn answer_page(&mut self, before: u64, limit: u8) -> Result<Vec<MessageData>, StatsError> {
        self.pages += 1;
        let size = self.page.min(limit as u64);
        let mut out = vec![];
        let mut id = before.min(self.count + 1);
        while id > 1 && (out.len() as u64) < size {
            id -= 1;
            out.push(msg(id, id % 3, id as i64));
        }
        self.sizes.push(out.len());
        Ok(out)
    }
}

fn run(
    transport: &mut Transport,
    last: Option<u64>,
    start: Option<u64>,
    filter: Option<Rule>,
    stop: Option<Rule>,
) -> Result<Vec<MessageData>, StatsError> {
    let seeding = match begin(&text_channel(), last, start, filter, stop) {
        Begin::Nothing => return Ok(vec![]),
        Begin::Seed(s) => s,
    };
    let reply = match seeding.request() {
        Request::Lookup { message_id, .. } => transport.answer_lookup(message_id),
        _ => panic!("the first request is a lookup"),
    };
    let mut next = seeding.seeded(reply);
    loop {
        match next {
            Next::Done(messages) => return Ok(messages),
            Next::Failed(e) => return Err(e),
            Next::More(paging) => {
                let reply = match paging.request() {
                    Request::PageBefore { before, limit, .. } => transport.answer_page(before, limit),
                    _ => panic!("after the seed come pages"),
                };
                next = paging.paged(reply);
            },
        }
    }
}

fn ids(messages: &[MessageData]) -> Vec<u64> {
    messages.iter().map(|m| m.message_id).collect()
}

#[test]
fn fetch_of_250_messages_in_pages_of_100() {
    let mut t = Transport { count: 250, page: 100, lookups: 0, pages: 0, sizes: vec![] };
    let got = run(&mut t, Some(250), None, None, None).unwrap_or_else(|_| panic!());
    assert_eq!(got.len(), 250);
    let want: Vec<u64> = (1..=250).rev().collect();
    assert_eq!(ids(&got), want);
    assert_eq!(t.lookups, 1);
    assert_eq!(t.sizes, vec![100, 100, 49, 0]);
}

#[test]
fn fetch_of_251_messages_serves_pages_of_100_100_50() {
    let mut t = Transport { count: 251, page: 100, lookups: 0, pages: 0, sizes: vec![] };
    let got = run(&mut t, Some(251), None, None, None).unwrap_or_else(|_| panic!());
    assert_eq!(got.len(), 251);
    assert_eq!(t.lookups, 1);
    assert_eq!(t.sizes, vec![100, 100, 50, 0]);
    assert_eq!(got[0].message_id, 251);
    assert_eq!(got[250].message_id, 1);
}

#[test]
fn short_page_does_not_end_the_walk() {
    let mut t = Transport { count: 30, page: 7, lookups: 0, pages: 0, sizes: vec![] };
    let got = run(&mut t, Some(30), None, None, None).unwrap_or_else(|_| panic!());
    assert_eq!(got.len(), 30);
    assert_eq!(t.sizes, vec![7, 7, 7, 7, 1, 0]);
}

#[test]
fn page_requests_ask_for_a_hundred() {
    let paging = Paging { channel_id: 5, cursor: 9, collected: vec![], filter: None, stop: None };
    assert_eq!(paging.request(), Request::PageBefore { channel_id: 5, before: 9, limit: 100 });
    assert_eq!(PAGE_SIZE, 100);
}

#[test]
fn non_text_channel_has_nothing_to_fetch() {
    let category = ChannelData::new(1, "cat".to_string(), 4, vec![]);
    assert!(matches!(begin(&category, Some(5), Some(3), None, None), Begin::Nothing));
}

#[test]
fn channel_without_last_message_has_nothing_to_fetch() {
    assert!(matches!(begin(&text_channel(), None, None, None, None), Begin::Nothing));
}

#[test]
fn start_goes_before_the_last_message() {
    match begin(&text_channel(), Some(50), Some(20), None, None) {
        Begin::Seed(s) => {
            assert_eq!(s.seed_id, 20);
            assert_eq!(s.channel_id, 1);
            assert_eq!(s.request(), Request::Lookup { channel_id: 1, message_id: 20 });
        },
        Begin::Nothing => panic!("there is a message to start from"),
    }
    match begin(&text_channel(), None, Some(20), None, None) {
        Begin::Seed(s) => assert_eq!(s.seed_id, 20),
        Begin::Nothing => panic!("there is a message to start from"),
    }
    let mut t = Transport { count: 50, page: 100, lookups: 0, pages: 0, sizes: vec![] };
    let got = run(&mut t, Some(50), Some(20), None, None).unwrap_or_else(|_| panic!());
    assert_eq!(ids(&got), (1..=20).rev().collect::<Vec<u64>>());
}

#[test]
fn filter_drops_but_does_not_stop() {
    let mut t = Transport { count: 12, page: 5, lookups: 0, pages: 0, sizes: vec![] };
    let got = run(&mut t, Some(12), None, Some(Rule::AuthorIs(1)), None).unwrap_or_else(|_| panic!());
    assert_eq!(ids(&got), vec![12, 10, 7, 4, 1]);
    assert_eq!(t.sizes, vec![5, 5, 1, 0]);
}

#[test]
fn stop_ends_before_the_message_that_meets_it() {
    let mut t = Transport { count: 40, page: 10, lookups: 0, pages: 0, sizes: vec![] };
    let got = run(&mut t, Some(40), None, None, Some(Rule::SentBefore(26))).unwrap_or_else(|_| panic!());
    assert_eq!(ids(&got), (26..=40).rev().collect::<Vec<u64>>());
    assert_eq!(t.sizes, vec![10, 10]);
}

#[test]
fn stop_is_not_asked_of_a_message_that_the_filter_drops() {
    let mut t = Transport { count: 9, page: 100, lookups: 0, pages: 0, sizes: vec![] };
    let got = run(&mut t, Some(9), None, Some(Rule::AuthorNotAmong(vec![0])), Some(Rule::AuthorAmong(vec![0, 1])))
        .unwrap_or_else(|_| panic!());
    assert_eq!(ids(&got), vec![9, 8]);
}

#[test]
fn seed_is_kept_whatever_the_rules_say() {
    let mut t = Transport { count: 5, page: 100, lookups: 0, pages: 0, sizes: vec![] };
    let got = run(&mut t, Some(5), None, Some(Rule::AuthorIs(99)), Some(Rule::SentSince(0)))
        .unwrap_or_else(|_| panic!());
    assert_eq!(ids(&got), vec![5]);
}

#[test]
fn failed_lookup_is_handed_on() {
    let mut t = Transport { count: 5, page: 100, lookups: 0, pages: 0, sizes: vec![] };
    let got = run(&mut t, Some(6), None, None, None);
    assert!(matches!(got, Err(StatsError::RemoteUnavailable)));
    assert_eq!(t.pages, 0);
}

#[test]
fn failed_page_is_handed_on() {
    let paging = Paging { channel_id: 1, cursor: 9, collected: vec![msg(9, 1, 9)], filter: None, stop: None };
    let next = paging.paged::<StatsError>(Err(StatsError::PermissionDenied));
    assert!(matches!(next, Next::Failed(StatsError::PermissionDenied)));
    let paging = Paging { channel_id: 1, cursor: 9, collected: vec![], filter: None, stop: None };
    assert!(matches!(paging.paged::<String>(Err("boom".to_string())), Next::Failed(e) if e == "boom"));
}

#[test]
fn cursor_moves_to_the_last_of_the_page_even_if_dropped() {
    let paging = Paging {
        channel_id: 1,
        cursor: 9,
        collected: vec![],
        filter: Some(Rule::Pinned),
        stop: None,
    };
    match paging.paged::<()>(Ok(vec![msg(8, 1, 8), msg(7, 1, 7), msg(6, 1, 6)])) {
        Next::More(p) => {
            assert_eq!(p.cursor, 6);
            assert_eq!(ids(&p.collected), vec![7]);
            assert!(matches!(p.filter, Some(Rule::Pinned)));
        },
        _ => panic!("a page that is not empty and meets no stop goes on"),
    }
}

#[test]
fn rules_test_messages() {
    let m = msg(14, 3, 100);
    assert!(Rule::AuthorIs(3).test(&m));
    assert!(!Rule::AuthorIs(4).test(&m));
    assert!(Rule::AuthorAmong(vec![1, 3]).test(&m));
    assert!(!Rule::AuthorAmong(vec![]).test(&m));
    assert!(Rule::AuthorNotAmong(vec![1, 2]).test(&m));
    assert!(!Rule::AuthorNotAmong(vec![3]).test(&m));
    assert!(Rule::SentBefore(101).test(&m));
    assert!(!Rule::SentBefore(100).test(&m));
    assert!(Rule::SentSince(100).test(&m));
    assert!(!Rule::SentSince(101).test(&m));
    assert!(Rule::Pinned.test(&m));
    assert!(!Rule::Pinned.test(&msg(15, 3, 100)));
}
