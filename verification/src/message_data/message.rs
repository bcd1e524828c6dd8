use vstd::prelude::*;
use crate::counter::{has_key, key_ids, total_of, Counter};
use crate::key::Key;
use crate::message_data::emoji::{Emoji, EmojiKey};

verus! {

/// An instant: whole seconds since the start of 1970 (UTC), and the
/// nanoseconds into that second.
#[derive(Debug, Clone, Copy)]
pub struct Timestamp {
    pub secs: i64,
    pub nanos: u32,
}

/// One archived message.
#[derive(Debug)]
pub struct MessageData {
    pub channel_id: u64,
    pub message_id: u64,
    pub author_id: u64,
    pub mentions: Vec<u64>,
    pub reactions: Counter<Emoji>,
    pub used_emojis: Vec<Emoji>,
    pub send_time: Timestamp,
    pub edit_time: Option<Timestamp>,
    pub attachment_count: usize,
    pub num_characters: usize,
    pub is_pinned: bool,
}

/// The tally that a list of reactions reports last for an emoji; zero where
/// the list does not name it.
pub open spec fn last_tally(s: Seq<(Emoji, u64)>, k: EmojiKey) -> nat
    decreases s.len(),
{
    if s.len() == 0 {
        0
    } else if s.last().0@ == k {
        s.last().1 as nat
    } else {
        last_tally(s.drop_last(), k)
    }
}

/// The identities of a sequence of emojis, in order.
pub open spec fn emoji_ids(s: Seq<Emoji>) -> Seq<EmojiKey> {
    Seq::new(s.len(), |i: int| s[i]@)
}

impl MessageData {
    /// The invariant of a message: its reaction tallies name no emoji twice.
    pub open spec fn wf(&self) -> bool {
        self.reactions.wf()
    }

    /// Builds a message from its parts. The reactions are given as the list
    /// that the service reports: each emoji is recorded with the tally that
    /// the list gives last for it, and all of them are listed as used, in
    /// order.
    pub fn from_parts(
        channel_id: u64,
        message_id: u64,
        author_id: u64,
        mentions: Vec<u64>,
        reactions: Vec<(Emoji, u64)>,
        send_time: Timestamp,
        edit_time: Option<Timestamp>,
        attachment_count: usize,
        num_characters: usize,
        is_pinned: bool,
    ) -> (m: Self)
        ensures
            m.wf(),
            m.channel_id == channel_id,
            m.message_id == message_id,
            m.author_id == author_id,
            m.mentions == mentions,
            forall|k: EmojiKey| m.reactions.count(k) == last_tally(reactions@, k),
            forall|k: EmojiKey| m.reactions.contains(k) == has_key(reactions@, k),
            emoji_ids(m.used_emojis@) == key_ids(reactions@),
            m.reactions.total() <= total_of(reactions@),
            m.reactions.entries@.len() <= reactions@.len(),
            m.send_time == send_time,
            m.edit_time == edit_time,
            m.attachment_count == attachment_count,
            m.num_characters == num_characters,
            m.is_pinned == is_pinned,
    {
        let mut tallies: Counter<Emoji> = Counter::new();
        let mut used: Vec<Emoji> = Vec::new();
        let mut i: usize = 0;
        proof {
            assert(reactions@.take(0) =~= Seq::<(Emoji, u64)>::empty());
        }
        while i < reactions.len()
            invariant
                i <= reactions@.len(),
                tallies.wf(),
                used@.len() == i,
                forall|j: int| 0 <= j < i ==> (#[trigger] used@[j])@ == reactions@[j].0@,
                forall|k: EmojiKey| tallies.count(k) == last_tally(reactions@.take(i as int), k),
                forall|k: EmojiKey| tallies.contains(k) == has_key(reactions@.take(i as int), k),
                tallies.total() <= total_of(reactions@.take(i as int)),
                tallies.entries@.len() <= i,
            decreases reactions@.len() - i,
        {
            let ghost seen = reactions@.take(i as int);
            let ghost next = reactions@.take(i + 1);
            let emoji = reactions[i].0.duplicate();
            let tally: u64 = reactions[i].1;
            let ghost known = tallies.keys();
            tallies.set(emoji, tally);
            proof {
                assert(tallies.keys().len() <= known.len() + 1);
            }
            used.push(reactions[i].0.duplicate());
            proof {
                assert(next.drop_last() =~= seen);
                assert(next.last() == reactions@[i as int]);
                assert forall|k: EmojiKey| has_key(next, k) == (has_key(seen, k) || k
                    == reactions@[i as int].0@) by {
                    if has_key(seen, k) {
                        let j = choose|j: int| 0 <= j < seen.len() && (#[trigger] seen[j]).0@ == k;
                        assert(next[j].0@ == k);
                    }
                    if has_key(next, k) {
                        let j = choose|j: int| 0 <= j < next.len() && (#[trigger] next[j]).0@ == k;
                        if j < seen.len() {
                            assert(seen[j].0@ == k);
                        }
                    }
                    if k == reactions@[i as int].0@ {
                        assert(next[i as int].0@ == k);
                    }
                }
            }
            i += 1;
        }
        proof {
            assert(reactions@.take(reactions@.len() as int) =~= reactions@);
            assert(emoji_ids(used@) =~= key_ids(reactions@));
        }
        MessageData {
            channel_id,
            message_id,
            author_id,
            mentions,
            reactions: tallies,
            used_emojis: used,
            send_time,
            edit_time,
            attachment_count,
            num_characters,
            is_pinned,
        }
    }
}

} // verus!
