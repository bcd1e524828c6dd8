use vstd::prelude::*;
use crate::counter::{
    has_key, lemma_tally_le_total, lemma_total_prefix, tally_of, total_of, Counter,
};
use crate::key::Key;
use crate::message_data::emoji::{Emoji, EmojiKey};
use crate::message_data::message::MessageData;
use crate::per_channel::CounterPerChannel;

verus! {

/// How often `u` occurs in a sequence of ids.
pub open spec fn occurrences(s: Seq<u64>, u: u64) -> nat
    decreases s.len(),
{
    if s.len() == 0 {
        0
    } else {
        occurrences(s.drop_last(), u) + if s.last() == u {
            1nat
        } else {
            0
        }
    }
}

/// Conservation: for every key, the counts of its channels add up to its
/// count.
pub open spec fn conserved<K: Key>(sum: Counter<K>, per_channel: CounterPerChannel<K>) -> bool {
    forall|k: K::V| #[trigger] per_channel.row_total(k) == sum.count(k)
}

/// One if the condition holds, else zero.
pub open spec fn unit(b: bool) -> nat {
    if b {
        1
    } else {
        0
    }
}

/// Counts one message for its author, in the author's count and in the
/// author's count for the message's channel.
pub fn calc_messages(
    message: &MessageData,
    user_message_sum: &mut Counter<u64>,
    user_message_sum_per_channels: &mut CounterPerChannel<u64>,
)
    requires
        old(user_message_sum).wf(),
        old(user_message_sum_per_channels).wf(),
        conserved(*old(user_message_sum), *old(user_message_sum_per_channels)),
        old(user_message_sum).total() < u64::MAX,
    ensures
        final(user_message_sum).wf(),
        final(user_message_sum_per_channels).wf(),
        conserved(*final(user_message_sum), *final(user_message_sum_per_channels)),
        forall|u: u64|
            final(user_message_sum).count(u) == old(user_message_sum).count(u) + unit(
                u == message.author_id,
            ),
        forall|u: u64, c: u64|
            final(user_message_sum_per_channels).count(u, c) == old(
                user_message_sum_per_channels,
            ).count(u, c) + unit(u == message.author_id && c == message.channel_id),
        forall|u: u64|
            final(user_message_sum).contains(u) == (old(user_message_sum).contains(u) || u
                == message.author_id),
        forall|u: u64|
            final(user_message_sum_per_channels).contains(u) == (old(
                user_message_sum_per_channels,
            ).contains(u) || u == message.author_id),
        final(user_message_sum).total() == old(user_message_sum).total() + 1,
{
    let user_id: u64 = message.author_id;
    proof {
        lemma_tally_le_total(user_message_sum.entries@, user_id);
        assert(user_message_sum_per_channels.row_total(user_id) == user_message_sum.count(user_id));
    }
    user_message_sum_per_channels.add(user_id, message.channel_id, 1);
    user_message_sum.add(user_id, 1);
    proof {
        assert forall|k: u64| #[trigger]
            user_message_sum_per_channels.row_total(k) == user_message_sum.count(k) by {
            assert(old(user_message_sum_per_channels).row_total(k) == old(user_message_sum).count(k));
        }
    }
}

/// Counts every mention of a message for the participant mentioned, in that
/// participant's count and in the count for the message's channel.
pub fn calc_mention(
    message: &MessageData,
    user_mention_sum: &mut Counter<u64>,
    user_mention_sum_per_channels: &mut CounterPerChannel<u64>,
)
    requires
        old(user_mention_sum).wf(),
        old(user_mention_sum_per_channels).wf(),
        conserved(*old(user_mention_sum), *old(user_mention_sum_per_channels)),
        old(user_mention_sum).total() + message.mentions@.len() <= u64::MAX,
    ensures
        final(user_mention_sum).wf(),
        final(user_mention_sum_per_channels).wf(),
        conserved(*final(user_mention_sum), *final(user_mention_sum_per_channels)),
        forall|u: u64|
            final(user_mention_sum).count(u) == old(user_mention_sum).count(u) + occurrences(
                message.mentions@,
                u,
            ),
        forall|u: u64, c: u64|
            final(user_mention_sum_per_channels).count(u, c) == old(
                user_mention_sum_per_channels,
            ).count(u, c) + if c == message.channel_id {
                occurrences(message.mentions@, u)
            } else {
                0
            },
        forall|u: u64|
            final(user_mention_sum).contains(u) == (old(user_mention_sum).contains(u)
                || message.mentions@.contains(u)),
        forall|u: u64|
            final(user_mention_sum_per_channels).contains(u) == (old(
                user_mention_sum_per_channels,
            ).contains(u) || message.mentions@.contains(u)),
        final(user_mention_sum).total() == old(user_mention_sum).total() + message.mentions@.len(),
{
    let mut i: usize = 0;
    while i < message.mentions.len()
        invariant
            i <= message.mentions@.len(),
            user_mention_sum.wf(),
            user_mention_sum_per_channels.wf(),
            conserved(*user_mention_sum, *user_mention_sum_per_channels),
            old(user_mention_sum).total() + message.mentions@.len() <= u64::MAX,
            user_mention_sum.total() == old(user_mention_sum).total() + i,
            forall|u: u64|
                user_mention_sum.count(u) == old(user_mention_sum).count(u) + occurrences(
                    message.mentions@.take(i as int),
                    u,
                ),
            forall|u: u64, c: u64|
                user_mention_sum_per_channels.count(u, c) == old(
                    user_mention_sum_per_channels,
                ).count(u, c) + if c == message.channel_id {
                    occurrences(message.mentions@.take(i as int), u)
                } else {
                    0
                },
            forall|u: u64|
                user_mention_sum.contains(u) == (old(user_mention_sum).contains(u)
                    || message.mentions@.take(i as int).contains(u)),
            forall|u: u64|
                user_mention_sum_per_channels.contains(u) == (old(
                    user_mention_sum_per_channels,
                ).contains(u) || message.mentions@.take(i as int).contains(u)),
        decreases message.mentions@.len() - i,
    {
        let mention: u64 = message.mentions[i];
        let ghost seen = message.mentions@.take(i as int);
        let ghost next = message.mentions@.take(i + 1);
        let ghost sum_before = *user_mention_sum;
        let ghost per_before = *user_mention_sum_per_channels;
        proof {
            lemma_tally_le_total(user_mention_sum.entries@, mention);
            assert(user_mention_sum_per_channels.row_total(mention) == user_mention_sum.count(
                mention,
            ));
            assert(next.drop_last() =~= seen);
            assert(next.last() == mention);
        }
        user_mention_sum.add(mention, 1);
        user_mention_sum_per_channels.add(mention, message.channel_id, 1);
        proof {
            assert forall|k: u64| #[trigger]
                user_mention_sum_per_channels.row_total(k) == user_mention_sum.count(k) by {
                assert(per_before.row_total(k) == sum_before.count(k));
            }
            assert forall|u: u64| next.contains(u) == (seen.contains(u) || u == mention) by {
                if seen.contains(u) {
                    let j = choose|j: int| 0 <= j < seen.len() && seen[j] == u;
                    assert(next[j] == u);
                }
                if next.contains(u) {
                    let j = choose|j: int| 0 <= j < next.len() && next[j] == u;
                    if j < seen.len() {
                        assert(seen[j] == u);
                    }
                }
                if u == mention {
                    assert(next[i as int] == u);
                }
            }
        }
        i += 1;
    }
    proof {
        assert(message.mentions@.take(message.mentions@.len() as int) =~= message.mentions@);
    }
}

/// Counts the reactions of a message: each emoji's stored tally for the
/// emoji, in its count and in its count for the message's channel, and all
/// tallies together for the author of the message, who gets an entry even
/// where the message has no reactions.
pub fn calc_emojis(
    message: &MessageData,
    emoji_sum: &mut Counter<Emoji>,
    emoji_sum_per_channels: &mut CounterPerChannel<Emoji>,
    reaction_sum: &mut Counter<u64>,
)
    requires
        old(emoji_sum).wf(),
        old(emoji_sum_per_channels).wf(),
        old(reaction_sum).wf(),
        conserved(*old(emoji_sum), *old(emoji_sum_per_channels)),
        old(emoji_sum).total() + message.reactions.total() <= u64::MAX,
        old(reaction_sum).total() + message.reactions.total() <= u64::MAX,
    ensures
        final(emoji_sum).wf(),
        final(emoji_sum_per_channels).wf(),
        final(reaction_sum).wf(),
        conserved(*final(emoji_sum), *final(emoji_sum_per_channels)),
        forall|e: EmojiKey|
            final(emoji_sum).count(e) == old(emoji_sum).count(e) + message.reactions.count(e),
        forall|e: EmojiKey, c: u64|
            final(emoji_sum_per_channels).count(e, c) == old(emoji_sum_per_channels).count(e, c)
                + if c == message.channel_id {
                message.reactions.count(e)
            } else {
                0
            },
        forall|u: u64|
            final(reaction_sum).count(u) == old(reaction_sum).count(u) + if u == message.author_id {
                message.reactions.total()
            } else {
                0
            },
        forall|e: EmojiKey|
            final(emoji_sum).contains(e) == (old(emoji_sum).contains(e)
                || message.reactions.contains(e)),
        forall|e: EmojiKey|
            final(emoji_sum_per_channels).contains(e) == (old(emoji_sum_per_channels).contains(e)
                || message.reactions.contains(e)),
        forall|u: u64|
            final(reaction_sum).contains(u) == (old(reaction_sum).contains(u) || u
                == message.author_id),
        final(emoji_sum).total() == old(emoji_sum).total() + message.reactions.total(),
        final(reaction_sum).total() == old(reaction_sum).total() + message.reactions.total(),
{
    let author: u64 = message.author_id;
    let ghost all = message.reactions.entries@;
    proof {
        lemma_tally_le_total(reaction_sum.entries@, author);
        lemma_total_prefix(all, 0);
        assert(all.take(0) =~= Seq::<(Emoji, u64)>::empty());
    }
    reaction_sum.add(author, 0);
    let mut i: usize = 0;
    while i < message.reactions.entries.len()
        invariant
            all == message.reactions.entries@,
            author == message.author_id,
            i <= all.len(),
            emoji_sum.wf(),
            emoji_sum_per_channels.wf(),
            reaction_sum.wf(),
            conserved(*emoji_sum, *emoji_sum_per_channels),
            old(emoji_sum).total() + total_of(all) <= u64::MAX,
            old(reaction_sum).total() + total_of(all) <= u64::MAX,
            emoji_sum.total() == old(emoji_sum).total() + total_of(all.take(i as int)),
            reaction_sum.total() == old(reaction_sum).total() + total_of(all.take(i as int)),
            forall|e: EmojiKey|
                emoji_sum.count(e) == old(emoji_sum).count(e) + tally_of(all.take(i as int), e),
            forall|e: EmojiKey, c: u64|
                emoji_sum_per_channels.count(e, c) == old(emoji_sum_per_channels).count(e, c)
                    + if c == message.channel_id {
                    tally_of(all.take(i as int), e)
                } else {
                    0
                },
            forall|u: u64|
                reaction_sum.count(u) == old(reaction_sum).count(u) + if u == author {
                    total_of(all.take(i as int))
                } else {
                    0
                },
            forall|e: EmojiKey|
                emoji_sum.contains(e) == (old(emoji_sum).contains(e) || has_key(
                    all.take(i as int),
                    e,
                )),
            forall|e: EmojiKey|
                emoji_sum_per_channels.contains(e) == (old(emoji_sum_per_channels).contains(e)
                    || has_key(all.take(i as int), e)),
            forall|u: u64|
                reaction_sum.contains(u) == (old(reaction_sum).contains(u) || u == author),
        decreases all.len() - i,
    {
        let ghost seen = all.take(i as int);
        let ghost next = all.take(i + 1);
        let ghost sum_before = *emoji_sum;
        let ghost per_before = *emoji_sum_per_channels;
        let count: u64 = message.reactions.entries[i].1;
        let ghost kid = all[i as int].0@;
        proof {
            assert(next.drop_last() =~= seen);
            assert(next.last() == all[i as int]);
            lemma_total_prefix(all, i + 1);
            lemma_tally_le_total(emoji_sum.entries@, kid);
            lemma_tally_le_total(reaction_sum.entries@, author);
            assert(emoji_sum_per_channels.row_total(kid) == emoji_sum.count(kid));
        }
        emoji_sum.add(message.reactions.entries[i].0.duplicate(), count);
        emoji_sum_per_channels.add(
            message.reactions.entries[i].0.duplicate(),
            message.channel_id,
            count,
        );
        reaction_sum.add(author, count);
        proof {
            assert forall|k: EmojiKey| #[trigger]
                emoji_sum_per_channels.row_total(k) == emoji_sum.count(k) by {
                assert(per_before.row_total(k) == sum_before.count(k));
            }
            assert forall|e: EmojiKey|
                has_key(next, e) == (has_key(seen, e) || e
                    == kid) by {
                if has_key(seen, e) {
                    let j = choose|j: int| 0 <= j < seen.len() && (#[trigger] seen[j]).0@ == e;
                    assert(next[j].0@ == e);
                }
                if has_key(next, e) {
                    let j = choose|j: int| 0 <= j < next.len() && (#[trigger] next[j]).0@ == e;
                    if j < seen.len() {
                        assert(seen[j].0@ == e);
                    }
                }
                if e == kid {
                    assert(next[i as int].0@ == e);
                }
            }
        }
        i += 1;
    }
    proof {
        assert(all.take(all.len() as int) =~= all);
    }
}

/// A quantity that an analysis measures over messages.
pub enum Measure {
    /// The number of messages.
    Messages,
    /// The number of mentions.
    Mentions,
    /// The messages of one author.
    AuthoredBy(u64),
    /// The messages of one author in one channel.
    AuthoredIn(u64, u64),
    /// The mentions of one participant.
    Mentioning(u64),
    /// The mentions of one participant in one channel.
    MentioningIn(u64, u64),
    /// The reaction tallies of one emoji.
    Reacted(EmojiKey),
    /// The reaction tallies of one emoji in one channel.
    ReactedIn(EmojiKey, u64),
    /// The reaction tallies on the messages of one author.
    ReactionsTo(u64),
}

/// Someone or something that a counter can list.
pub enum Subject {
    /// A participant as the author of a message.
    Author(u64),
    /// A participant as mentioned in a message.
    Mentioned(u64),
    /// An emoji as named among the reactions of a message.
    Reaction(EmojiKey),
}

/// What one message contributes to a quantity.
pub open spec fn weight(m: MessageData, q: Measure) -> nat {
    match q {
        Measure::Messages => 1,
        Measure::Mentions => m.mentions@.len(),
        Measure::AuthoredBy(u) => unit(m.author_id == u),
        Measure::AuthoredIn(u, c) => unit(m.author_id == u && m.channel_id == c),
        Measure::Mentioning(u) => occurrences(m.mentions@, u),
        Measure::MentioningIn(u, c) => if m.channel_id == c {
            occurrences(m.mentions@, u)
        } else {
            0
        },
        Measure::Reacted(e) => m.reactions.count(e),
        Measure::ReactedIn(e, c) => if m.channel_id == c {
            m.reactions.count(e)
        } else {
            0
        },
        Measure::ReactionsTo(u) => if m.author_id == u {
            m.reactions.total()
        } else {
            0
        },
    }
}

/// Whether a message makes a counter list the subject.
pub open spec fn touches(m: MessageData, s: Subject) -> bool {
    match s {
        Subject::Author(u) => m.author_id == u,
        Subject::Mentioned(u) => m.mentions@.contains(u),
        Subject::Reaction(e) => m.reactions.contains(e),
    }
}

/// All that one message adds to the counters together: itself, its
/// mentions, and its reaction tallies.
pub open spec fn volume(m: MessageData) -> nat {
    1 + m.mentions@.len() + m.reactions.total()
}

/// The counters of one calendar year.
#[derive(Debug)]
pub struct YearStats {
    pub year: i32,
    pub messages: u64,
    pub mentions: u64,
    pub user_messages: Counter<u64>,
    pub user_messages_per_channels: CounterPerChannel<u64>,
    pub user_mentions: Counter<u64>,
    pub user_mentions_per_channels: CounterPerChannel<u64>,
    pub emojis: Counter<Emoji>,
    pub emojis_per_channels: CounterPerChannel<Emoji>,
    pub reactions: Counter<u64>,
}

impl YearStats {
    /// The invariant: every counter is valid; each counter agrees with its
    /// breakdown by channel, in what it lists and, for every key, in that the
    /// channels' counts add up to the key's count; and the counters add up
    /// to the totals.
    pub open spec fn wf(&self) -> bool {
        &&& self.user_messages.wf()
        &&& self.user_messages_per_channels.wf()
        &&& self.user_mentions.wf()
        &&& self.user_mentions_per_channels.wf()
        &&& self.emojis.wf()
        &&& self.emojis_per_channels.wf()
        &&& self.reactions.wf()
        &&& conserved(self.user_messages, self.user_messages_per_channels)
        &&& conserved(self.user_mentions, self.user_mentions_per_channels)
        &&& conserved(self.emojis, self.emojis_per_channels)
        &&& self.user_messages.total() == self.messages
        &&& self.user_mentions.total() == self.mentions
        &&& self.reactions.total() == self.emojis.total()
        &&& forall|u: u64|
            self.user_messages_per_channels.contains(u) == self.user_messages.contains(u)
        &&& forall|u: u64| self.reactions.contains(u) == self.user_messages.contains(u)
        &&& forall|u: u64|
            self.user_mentions_per_channels.contains(u) == self.user_mentions.contains(u)
        &&& forall|e: EmojiKey| self.emojis_per_channels.contains(e) == self.emojis.contains(e)
    }

    /// All that the counters hold together.
    pub open spec fn load(&self) -> nat {
        self.messages as nat + self.mentions as nat + self.emojis.total()
    }

    /// What the counters record of a quantity.
    pub open spec fn value(&self, q: Measure) -> nat {
        match q {
            Measure::Messages => self.messages as nat,
            Measure::Mentions => self.mentions as nat,
            Measure::AuthoredBy(u) => self.user_messages.count(u),
            Measure::AuthoredIn(u, c) => self.user_messages_per_channels.count(u, c),
            Measure::Mentioning(u) => self.user_mentions.count(u),
            Measure::MentioningIn(u, c) => self.user_mentions_per_channels.count(u, c),
            Measure::Reacted(e) => self.emojis.count(e),
            Measure::ReactedIn(e, c) => self.emojis_per_channels.count(e, c),
            Measure::ReactionsTo(u) => self.reactions.count(u),
        }
    }

    /// Whether the counters list a subject, be it with a count of zero.
    pub open spec fn lists(&self, s: Subject) -> bool {
        match s {
            Subject::Author(u) => self.user_messages.contains(u),
            Subject::Mentioned(u) => self.user_mentions.contains(u),
            Subject::Reaction(e) => self.emojis.contains(e),
        }
    }

    /// Empty counters for a year.
    pub fn new(year: i32) -> (stats: Self)
        ensures
            stats.wf(),
            stats.year == year,
            stats.load() == 0,
            forall|q: Measure| stats.value(q) == 0,
            forall|s: Subject| !stats.lists(s),
    {
        YearStats {
            year,
            messages: 0,
            mentions: 0,
            user_messages: Counter::new(),
            user_messages_per_channels: CounterPerChannel::new(),
            user_mentions: Counter::new(),
            user_mentions_per_channels: CounterPerChannel::new(),
            emojis: Counter::new(),
            emojis_per_channels: CounterPerChannel::new(),
            reactions: Counter::new(),
        }
    }

    /// Counts one message in every counter of the year.
    pub fn record(&mut self, message: &MessageData)
        requires
            old(self).wf(),
            old(self).load() + volume(*message) <= u64::MAX,
        ensures
            final(self).wf(),
            final(self).year == old(self).year,
            final(self).load() == old(self).load() + volume(*message),
            forall|q: Measure| final(self).value(q) == old(self).value(q) + weight(*message, q),
            forall|s: Subject| final(self).lists(s) == (old(self).lists(s) || touches(*message, s)),
    {
        self.messages = self.messages + 1;
        self.mentions = self.mentions + message.mentions.len() as u64;
        calc_messages(message, &mut self.user_messages, &mut self.user_messages_per_channels);
        calc_mention(message, &mut self.user_mentions, &mut self.user_mentions_per_channels);
        calc_emojis(
            message,
            &mut self.emojis,
            &mut self.emojis_per_channels,
            &mut self.reactions,
        );
        proof {
            assert forall|q: Measure| self.value(q) == old(self).value(q) + weight(*message, q) by {
                match q {
                    Measure::Messages => {},
                    Measure::Mentions => {},
                    Measure::AuthoredBy(u) => {},
                    Measure::AuthoredIn(u, c) => {},
                    Measure::Mentioning(u) => {},
                    Measure::MentioningIn(u, c) => {},
                    Measure::Reacted(e) => {},
                    Measure::ReactedIn(e, c) => {},
                    Measure::ReactionsTo(u) => {},
                }
            }
            assert forall|s: Subject| self.lists(s) == (old(self).lists(s) || touches(*message, s)) by {
                match s {
                    Subject::Author(u) => {},
                    Subject::Mentioned(u) => {},
                    Subject::Reaction(e) => {},
                }
            }
        }
    }
}

/// Conservation: in valid counters of a year, for every participant and
/// every emoji, the counts in the single channels add up to the count in
/// all: for the messages written, for the mentions received, and for the
/// reaction tallies. And the counts of all keys add up to the totals of the
/// year.
pub proof fn lemma_conservation(stats: YearStats)
    requires
        stats.wf(),
    ensures
        forall|u: u64| #[trigger]
            stats.user_messages_per_channels.row_total(u) == stats.user_messages.count(u),
        forall|u: u64| #[trigger]
            stats.user_mentions_per_channels.row_total(u) == stats.user_mentions.count(u),
        forall|e: EmojiKey| #[trigger]
            stats.emojis_per_channels.row_total(e) == stats.emojis.count(e),
        stats.user_messages.total() == stats.messages,
        stats.user_mentions.total() == stats.mentions,
        stats.reactions.total() == stats.emojis.total(),
{
}

} // verus!
