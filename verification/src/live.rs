use vstd::prelude::*;
use crate::counter::{add_or_insert, has_key, key_ids, lemma_tally_le_total, Counter};
use crate::key::Key;
use crate::message_data::emoji::{Emoji, EmojiKey};
use crate::stats::{occurrences, unit};

verus! {

/// How many of the first `n` reactions of a message are with the emoji `e`.
pub open spec fn uses_of(reactions: Seq<(Emoji, Vec<u64>)>, n: int, e: EmojiKey) -> nat
    decreases n,
{
    if n <= 0 {
        0
    } else {
        uses_of(reactions, n - 1, e) + unit(reactions[n - 1].0@ == e)
    }
}

/// Whether a participant is among those who gave one of the first `n`
/// reactions of a message.
pub open spec fn reacted(reactions: Seq<(Emoji, Vec<u64>)>, n: int, u: u64) -> bool
    decreases n,
{
    if n <= 0 {
        false
    } else {
        reacted(reactions, n - 1, u) || reactions[n - 1].1@.contains(u)
    }
}

/// How many participants the first `n` reactions of a message name, counting
/// one who gave several reactions once for each.
pub open spec fn reactor_slots(reactions: Seq<(Emoji, Vec<u64>)>, n: int) -> nat
    decreases n,
{
    if n <= 0 {
        0
    } else {
        reactor_slots(reactions, n - 1) + reactions[n - 1].1@.len()
    }
}

proof fn lemma_slots_grow(reactions: Seq<(Emoji, Vec<u64>)>, a: int, b: int)
    requires
        0 <= a <= b,
    ensures
        reactor_slots(reactions, a) <= reactor_slots(reactions, b),
    decreases b - a,
{
    if a < b {
        lemma_slots_grow(reactions, a, b - 1);
    }
}

/// Counts that are kept while messages come in: per participant the
/// messages written, the mentions received and the messages reacted to, and
/// per emoji the messages on which it was used as a reaction.
#[derive(Debug)]
pub struct LiveCounts {
    pub member_message_counts: Counter<u64>,
    pub use_emoji_counts: Counter<Emoji>,
    pub mention_counts: Counter<u64>,
    pub reaction_counts: Counter<u64>,
}

impl LiveCounts {
    /// The invariant: every counter is valid.
    pub open spec fn wf(&self) -> bool {
        &&& self.member_message_counts.wf()
        &&& self.use_emoji_counts.wf()
        &&& self.mention_counts.wf()
        &&& self.reaction_counts.wf()
    }

    /// Empty counts: no counter lists anyone or anything.
    pub fn new() -> (counts: Self)
        ensures
            counts.wf(),
            counts.member_message_counts.entries@.len() == 0,
            counts.use_emoji_counts.entries@.len() == 0,
            counts.mention_counts.entries@.len() == 0,
            counts.reaction_counts.entries@.len() == 0,
            forall|u: u64| !counts.member_message_counts.contains(u),
            forall|e: EmojiKey| !counts.use_emoji_counts.contains(e),
            forall|u: u64| !counts.mention_counts.contains(u),
            forall|u: u64| !counts.reaction_counts.contains(u),
            counts.member_message_counts.total() == 0,
            counts.use_emoji_counts.total() == 0,
            counts.mention_counts.total() == 0,
            counts.reaction_counts.total() == 0,
            forall|u: u64| counts.member_message_counts.count(u) == 0,
            forall|e: EmojiKey| counts.use_emoji_counts.count(e) == 0,
            forall|u: u64| counts.mention_counts.count(u) == 0,
            forall|u: u64| counts.reaction_counts.count(u) == 0,
    {
        LiveCounts {
            member_message_counts: Counter::new(),
            use_emoji_counts: Counter::new(),
            mention_counts: Counter::new(),
            reaction_counts: Counter::new(),
        }
    }

    /// Counts one message: one for its author; one for every reaction, under
    /// the reaction's emoji; one for every participant who reacted to it,
    /// however often; and one for every mention, under the participant
    /// mentioned. The reactions come as the emojis on the message, each with
    /// the participants who reacted with it.
    pub fn record(&mut self, author: u64, reactions: &Vec<(Emoji, Vec<u64>)>, mentions: &Vec<u64>)
        requires
            old(self).wf(),
            old(self).member_message_counts.total() < u64::MAX,
            old(self).use_emoji_counts.total() + reactions@.len() <= u64::MAX,
            old(self).mention_counts.total() + mentions@.len() <= u64::MAX,
            old(self).reaction_counts.total() + reactor_slots(reactions@, reactions@.len() as int)
                <= u64::MAX,
        ensures
            final(self).wf(),
            forall|u: u64|
                final(self).member_message_counts.count(u) == old(self).member_message_counts.count(
                    u,
                ) + unit(u == author),
            forall|e: EmojiKey|
                final(self).use_emoji_counts.count(e) == old(self).use_emoji_counts.count(e)
                    + uses_of(reactions@, reactions@.len() as int, e),
            forall|u: u64|
                final(self).mention_counts.count(u) == old(self).mention_counts.count(u)
                    + occurrences(mentions@, u),
            forall|u: u64|
                final(self).reaction_counts.count(u) == old(self).reaction_counts.count(u) + unit(
                    reacted(reactions@, reactions@.len() as int, u),
                ),
            final(self).member_message_counts.total() == old(self).member_message_counts.total()
                + 1,
            final(self).use_emoji_counts.total() == old(self).use_emoji_counts.total()
                + reactions@.len(),
            final(self).mention_counts.total() == old(self).mention_counts.total()
                + mentions@.len(),
            final(self).reaction_counts.total() <= old(self).reaction_counts.total()
                + reactor_slots(reactions@, reactions@.len() as int),
    {
        proof {
            lemma_tally_le_total(self.member_message_counts.entries@, author);
        }
        add_or_insert(&mut self.member_message_counts, author);

        let mut reactors: Counter<u64> = Counter::new();
        let mut i: usize = 0;
        while i < reactions.len()
            invariant
                i <= reactions@.len(),
                self.use_emoji_counts.wf(),
                reactors.wf(),
                old(self).use_emoji_counts.total() + reactions@.len() <= u64::MAX,
                self.use_emoji_counts.total() == old(self).use_emoji_counts.total() + i,
                forall|e: EmojiKey|
                    self.use_emoji_counts.count(e) == old(self).use_emoji_counts.count(e) + uses_of(
                        reactions@,
                        i as int,
                        e,
                    ),
                forall|u: u64| reactors.contains(u) == reacted(reactions@, i as int, u),
                reactors.entries@.len() <= reactor_slots(reactions@, i as int),
                self.mention_counts == old(self).mention_counts,
                self.reaction_counts == old(self).reaction_counts,
                self.member_message_counts.wf(),
                forall|u: u64|
                    self.member_message_counts.count(u) == old(self).member_message_counts.count(u)
                        + unit(u == author),
                self.member_message_counts.total() == old(self).member_message_counts.total() + 1,
            decreases reactions@.len() - i,
        {
            let ghost kid = reactions@[i as int].0@;
            proof {
                lemma_tally_le_total(self.use_emoji_counts.entries@, kid);
            }
            add_or_insert(&mut self.use_emoji_counts, reactions[i].0.duplicate());
            let users = &reactions[i].1;
            let mut j: usize = 0;
            while j < users.len()
                invariant
                    i < reactions@.len(),
                    users@ == reactions@[i as int].1@,
                    j <= users@.len(),
                    reactors.wf(),
                    forall|u: u64|
                        reactors.contains(u) == (reacted(reactions@, i as int, u) || users@.take(
                            j as int,
                        ).contains(u)),
                    reactors.entries@.len() <= reactor_slots(reactions@, i as int) + j,
                decreases users@.len() - j,
            {
                let user: u64 = users[j];
                let ghost seen = users@.take(j as int);
                let ghost next = users@.take(j + 1);
                proof {
                    assert forall|u: u64| next.contains(u) == (seen.contains(u) || u == user) by {
                        if seen.contains(u) {
                            let a = choose|a: int| 0 <= a < seen.len() && seen[a] == u;
                            assert(next[a] == u);
                        }
                        if next.contains(u) {
                            let a = choose|a: int| 0 <= a < next.len() && next[a] == u;
                            if a < seen.len() {
                                assert(seen[a] == u);
                            }
                        }
                        if u == user {
                            assert(next[j as int] == u);
                        }
                    }
                }
                if reactors.position(&user).is_none() {
                    let ghost known = reactors.keys();
                    reactors.set(user, 1);
                    proof {
                        assert(known.len() + 1 == reactors.keys().len());
                    }
                }
                j += 1;
            }
            proof {
                assert(users@.take(users@.len() as int) =~= users@);
            }
            i += 1;
        }

        let ghost base = self.reaction_counts;
        let mut k: usize = 0;
        proof {
            lemma_slots_grow(reactions@, 0, reactions@.len() as int);
        }
        while k < reactors.entries.len()
            invariant
                k <= reactors.entries@.len(),
                reactors.wf(),
                forall|u: u64|
                    reactors.contains(u) == reacted(reactions@, reactions@.len() as int, u),
                self.reaction_counts.wf(),
                base == old(self).reaction_counts,
                reactors.entries@.len() <= reactor_slots(reactions@, reactions@.len() as int),
                base.total() + reactor_slots(reactions@, reactions@.len() as int) <= u64::MAX,
                self.reaction_counts.total() == base.total() + k,
                forall|u: u64|
                    self.reaction_counts.count(u) == base.count(u) + unit(
                        has_key(reactors.entries@.take(k as int), u),
                    ),
                self.mention_counts == old(self).mention_counts,
                self.member_message_counts.wf(),
                self.use_emoji_counts.wf(),
                forall|u: u64|
                    self.member_message_counts.count(u) == old(self).member_message_counts.count(u)
                        + unit(u == author),
                self.member_message_counts.total() == old(self).member_message_counts.total() + 1,
                self.use_emoji_counts.total() == old(self).use_emoji_counts.total()
                    + reactions@.len(),
                forall|e: EmojiKey|
                    self.use_emoji_counts.count(e) == old(self).use_emoji_counts.count(e) + uses_of(
                        reactions@,
                        reactions@.len() as int,
                        e,
                    ),
            decreases reactors.entries@.len() - k,
        {
            let user: u64 = reactors.entries[k].0;
            let ghost seen = reactors.entries@.take(k as int);
            let ghost next = reactors.entries@.take(k + 1);
            proof {
                lemma_tally_le_total(self.reaction_counts.entries@, user);
                assert forall|a: int| 0 <= a < seen.len() implies (#[trigger] seen[a]).0@ != user by {
                    assert(key_ids(reactors.entries@)[a] != key_ids(reactors.entries@)[k as int]);
                }
                assert(!has_key(seen, user));
                assert forall|u: u64| has_key(next, u) == (has_key(seen, u) || u == user) by {
                    if has_key(seen, u) {
                        let a = choose|a: int| 0 <= a < seen.len() && (#[trigger] seen[a]).0@ == u;
                        assert(next[a].0@ == u);
                    }
                    if has_key(next, u) {
                        let a = choose|a: int| 0 <= a < next.len() && (#[trigger] next[a]).0@ == u;
                        if a < seen.len() {
                            assert(seen[a].0@ == u);
                        }
                    }
                    if u == user {
                        assert(next[k as int].0@ == u);
                    }
                }
            }
            add_or_insert(&mut self.reaction_counts, user);
            k += 1;
        }
        proof {
            assert(reactors.entries@.take(reactors.entries@.len() as int) =~= reactors.entries@);
            assert forall|u: u64|
                self.reaction_counts.count(u) == base.count(u) + unit(
                    reacted(reactions@, reactions@.len() as int, u),
                ) by {
                assert(reactors.contains(u) == has_key(reactors.entries@, u));
            }
        }

        let ghost mention_base = self.mention_counts;
        let mut m: usize = 0;
        while m < mentions.len()
            invariant
                m <= mentions@.len(),
                self.wf(),
                mention_base == old(self).mention_counts,
                mention_base.total() + mentions@.len() <= u64::MAX,
                self.mention_counts.total() == mention_base.total() + m,
                forall|u: u64|
                    self.mention_counts.count(u) == mention_base.count(u) + occurrences(
                        mentions@.take(m as int),
                        u,
                    ),
                forall|u: u64|
                    self.member_message_counts.count(u) == old(self).member_message_counts.count(u)
                        + unit(u == author),
                self.member_message_counts.total() == old(self).member_message_counts.total() + 1,
                self.use_emoji_counts.total() == old(self).use_emoji_counts.total()
                    + reactions@.len(),
                forall|e: EmojiKey|
                    self.use_emoji_counts.count(e) == old(self).use_emoji_counts.count(e) + uses_of(
                        reactions@,
                        reactions@.len() as int,
                        e,
                    ),
                forall|u: u64|
                    self.reaction_counts.count(u) == old(self).reaction_counts.count(u) + unit(
                        reacted(reactions@, reactions@.len() as int, u),
                    ),
                self.reaction_counts.total() <= old(self).reaction_counts.total() + reactor_slots(
                    reactions@,
                    reactions@.len() as int,
                ),
            decreases mentions@.len() - m,
        {
            let mention: u64 = mentions[m];
            proof {
                lemma_tally_le_total(self.mention_counts.entries@, mention);
                assert(mentions@.take(m + 1).drop_last() =~= mentions@.take(m as int));
            }
            add_or_insert(&mut self.mention_counts, mention);
            m += 1;
        }
        proof {
            assert(mentions@.take(mentions@.len() as int) =~= mentions@);
        }
    }
}

} // verus!
