use vstd::prelude::*;
use crate::aggregate::is_excluded;
use crate::message_data::channels::{text_based, ChannelData};
use crate::message_data::message::MessageData;

verus! {

/// The largest page that is asked for.
pub const PAGE_SIZE: u8 = 100;

/// A test on a message, used to keep or drop messages, or to end a walk.
#[derive(Debug)]
pub enum Rule {
    /// The message is by this author.
    AuthorIs(u64),
    /// The message is by one of these authors.
    AuthorAmong(Vec<u64>),
    /// The message is by none of these authors.
    AuthorNotAmong(Vec<u64>),
    /// The message was sent before this second.
    SentBefore(i64),
    /// The message was sent in this second or later.
    SentSince(i64),
    /// The message is pinned.
    Pinned,
}

/// Whether a message passes a test.
pub open spec fn holds(rule: Rule, m: MessageData) -> bool {
    match rule {
        Rule::AuthorIs(u) => m.author_id == u,
        Rule::AuthorAmong(us) => us@.contains(m.author_id),
        Rule::AuthorNotAmong(us) => !us@.contains(m.author_id),
        Rule::SentBefore(t) => m.send_time.secs < t,
        Rule::SentSince(t) => m.send_time.secs >= t,
        Rule::Pinned => m.is_pinned,
    }
}

/// Whether the filter, if there is one, keeps the message.
pub open spec fn passes(filter: Option<Rule>, m: MessageData) -> bool {
    match filter {
        Some(rule) => holds(rule, m),
        None => true,
    }
}

/// Whether the stop test, if there is one, ends the walk at the message.
pub open spec fn halts(stop: Option<Rule>, m: MessageData) -> bool {
    match stop {
        Some(rule) => holds(rule, m),
        None => false,
    }
}

/// Whether the walk ends within the first `n` messages of a page: whether
/// one of them passes the filter and meets the stop test.
pub open spec fn halted(page: Seq<MessageData>, n: int, filter: Option<Rule>, stop: Option<Rule>) -> bool
    decreases n,
{
    if n <= 0 {
        false
    } else {
        halted(page, n - 1, filter, stop) || (passes(filter, page[n - 1]) && halts(
            stop,
            page[n - 1],
        ))
    }
}

/// The messages that the first `n` messages of a page add to the result:
/// those that pass the filter, in order, up to the one that ends the walk.
pub open spec fn kept(page: Seq<MessageData>, n: int, filter: Option<Rule>, stop: Option<Rule>) -> Seq<
    MessageData,
>
    decreases n,
{
    if n <= 0 {
        Seq::empty()
    } else if halted(page, n, filter, stop) || !passes(filter, page[n - 1]) {
        kept(page, n - 1, filter, stop)
    } else {
        kept(page, n - 1, filter, stop).push(page[n - 1])
    }
}

impl Rule {
    /// Applies the test to a message.
    pub fn test(&self, m: &MessageData) -> (r: bool)
        ensures
            r == holds(*self, *m),
    {
        match self {
            Rule::AuthorIs(u) => m.author_id == *u,
            Rule::AuthorAmong(us) => is_excluded(us, m.author_id),
            Rule::AuthorNotAmong(us) => !is_excluded(us, m.author_id),
            Rule::SentBefore(t) => m.send_time.secs < *t,
            Rule::SentSince(t) => m.send_time.secs >= *t,
            Rule::Pinned => m.is_pinned,
        }
    }
}

/// What the caller is to ask of the remote service next.
#[derive(Debug, Clone, Copy, PartialEq, Eq, Structural)]
pub enum Request {
    /// One message, by its id.
    Lookup { channel_id: u64, message_id: u64 },
    /// The messages before a message, newest first, at most `limit` of them.
    PageBefore { channel_id: u64, before: u64, limit: u8 },
}

/// A walk that waits for its first message.
#[derive(Debug)]
pub struct Seeding {
    pub channel_id: u64,
    pub seed_id: u64,
    pub filter: Option<Rule>,
    pub stop: Option<Rule>,
}

/// A walk that waits for a page.
#[derive(Debug)]
pub struct Paging {
    pub channel_id: u64,
    pub cursor: u64,
    pub collected: Vec<MessageData>,
    pub filter: Option<Rule>,
    pub stop: Option<Rule>,
}

/// How a walk begins.
#[derive(Debug)]
pub enum Begin {
    /// There is nothing to fetch: the result is empty.
    Nothing,
    /// The first message is to be looked up.
    Seed(Seeding),
}

/// How a walk goes on after a reply.
#[derive(Debug)]
pub enum Next<E> {
    /// Another page is to be fetched.
    More(Paging),
    /// The walk is over; these are its messages, newest first.
    Done(Vec<MessageData>),
    /// The remote service failed; this is its error.
    Failed(E),
}

/// Begins the walk over a channel, from `start` or, where that is not given,
/// from the channel's last message. A channel that is not text based, or
/// has no message to start from, has nothing to fetch.
pub fn begin(
    channel: &ChannelData,
    last_message_id: Option<u64>,
    start: Option<u64>,
    filter: Option<Rule>,
    stop: Option<Rule>,
) -> (r: Begin)
    ensures
        r is Nothing == (!text_based(channel.channel_type) || (start is None && last_message_id
            is None)),
        r is Seed ==> r->Seed_0 == (Seeding {
            channel_id: channel.channel_id,
            seed_id: if start is Some {
                start->Some_0
            } else {
                last_message_id->Some_0
            },
            filter,
            stop,
        }),
{
    if !channel.is_text_based() {
        return Begin::Nothing;
    }
    let seed_id: u64 = match start {
        Some(id) => id,
        None => match last_message_id {
            Some(id) => id,
            None => {
                return Begin::Nothing;
            },
        },
    };
    Begin::Seed(Seeding { channel_id: channel.channel_id, seed_id, filter, stop })
}

impl Seeding {
    /// The request for the first message.
    pub fn request(&self) -> (r: Request)
        ensures
            r == (Request::Lookup { channel_id: self.channel_id, message_id: self.seed_id }),
    {
        Request::Lookup { channel_id: self.channel_id, message_id: self.seed_id }
    }

    /// Takes the reply to the lookup of the first message. The message opens
    /// the result as it is, whatever filter and stop test say of it; a
    /// failure ends the walk with the error as it came.
    pub fn seeded<E>(self, reply: Result<MessageData, E>) -> (r: Next<E>)
        ensures
            match reply {
                Ok(m) => r is More && r->More_0.channel_id == self.channel_id && r->More_0.cursor
                    == self.seed_id && r->More_0.collected@ == seq![m] && r->More_0.filter
                    == self.filter && r->More_0.stop == self.stop,
                Err(e) => r == Next::<E>::Failed(e),
            },
    {
        match reply {
            Ok(m) => {
                let mut collected: Vec<MessageData> = Vec::new();
                collected.push(m);
                Next::More(
                    Paging {
                        channel_id: self.channel_id,
                        cursor: self.seed_id,
                        collected,
                        filter: self.filter,
                        stop: self.stop,
                    },
                )
            },
            Err(e) => Next::Failed(e),
        }
    }
}

impl Paging {
    /// The request for the next page: the messages before the last one seen.
    pub fn request(&self) -> (r: Request)
        ensures
            r == (Request::PageBefore {
                channel_id: self.channel_id,
                before: self.cursor,
                limit: PAGE_SIZE,
            }),
    {
        Request::PageBefore { channel_id: self.channel_id, before: self.cursor, limit: PAGE_SIZE }
    }

    /// Takes the reply to the request for a page. An empty page ends the
    /// walk, and nothing else about a page's size does. Of a page that is
    /// not empty, the messages that pass the filter join the result in
    /// order; the first of them that meets the stop test ends the walk and
    /// stays out. Otherwise the walk goes on before the last message of the
    /// page, kept or not. A failure ends the walk with the error as it came.
    pub fn paged<E>(self, reply: Result<Vec<MessageData>, E>) -> (r: Next<E>)
        ensures
            match reply {
                Err(e) => r == Next::<E>::Failed(e),
                Ok(page) => {
                    let n = page@.len() as int;
                    let all = self.collected@ + kept(page@, n, self.filter, self.stop);
                    if n == 0 {
                        r is Done && r->Done_0@ == self.collected@
                    } else if halted(page@, n, self.filter, self.stop) {
                        r is Done && r->Done_0@ == all
                    } else {
                        r is More && r->More_0.channel_id == self.channel_id && r->More_0.cursor
                            == page@[n - 1].message_id && r->More_0.collected@ == all
                            && r->More_0.filter == self.filter && r->More_0.stop == self.stop
                    }
                },
            },
    {
        match reply {
            Err(e) => Next::Failed(e),
            Ok(page) => {
                let Paging { channel_id, cursor, collected, filter, stop } = self;
                let mut collected = collected;
                if page.len() == 0 {
                    return Next::Done(collected);
                }
                let cursor: u64 = page[page.len() - 1].message_id;
                let mut stopped = false;
                let ghost before = collected@;
                let ghost items = page@;
                for message in iter: page
                    invariant
                        iter.seq() == items,
                        stopped == halted(items, iter.index() as int, filter, stop),
                        collected@ == before + kept(items, iter.index() as int, filter, stop),
                {
                    let keep = !stopped && match &filter {
                        Some(rule) => rule.test(&message),
                        None => true,
                    };
                    if keep {
                        let end = match &stop {
                            Some(rule) => rule.test(&message),
                            None => false,
                        };
                        if end {
                            stopped = true;
                        } else {
                            collected.push(message);
                        }
                    }
                }
                if stopped {
                    Next::Done(collected)
                } else {
                    Next::More(Paging { channel_id, cursor, collected, filter, stop })
                }
            },
        }
    }
}

/// Without a filter and without a stop test, a page joins the result whole
/// and never ends the walk.
pub proof fn lemma_plain_page(page: Seq<MessageData>, n: int)
    requires
        0 <= n <= page.len(),
    ensures
        !halted(page, n, None, None),
        kept(page, n, None, None) == page.take(n),
    decreases n,
{
    if n > 0 {
        lemma_plain_page(page, n - 1);
        assert(page.take(n) =~= page.take(n - 1).push(page[n - 1]));
    } else {
        assert(page.take(n) =~= Seq::<MessageData>::empty());
    }
}

} // verus!
