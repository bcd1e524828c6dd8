use std::collections::HashMap;
use vstd::prelude::*;

pub mod channels;
pub mod emoji;
pub mod message;
pub mod user;

pub use channels::ChannelData;
pub use emoji::Emoji;
pub use emoji::EmojiData;
pub use message::MessageData;
pub use user::UserData;

verus! {

/// A snapshot of a guild: the directories of its participants, channels and
/// custom emojis, and the archive of its messages, channel by channel.
pub struct JsonData {
    pub guild_id: u64,
    pub members: HashMap<u64, UserData>,
    pub channels: HashMap<u64, ChannelData>,
    pub emojis: HashMap<u64, EmojiData>,
    pub messages: Vec<(u64, Vec<MessageData>)>,
}

impl JsonData {
    pub fn new(
        guild_id: u64,
        members: HashMap<u64, UserData>,
        channels: HashMap<u64, ChannelData>,
        emojis: HashMap<u64, EmojiData>,
        messages: Vec<(u64, Vec<MessageData>)>,
    ) -> (data: Self)
        ensures
            data.guild_id == guild_id,
            data.members == members,
            data.channels == channels,
            data.emojis == emojis,
            data.messages == messages,
    {
        Self { guild_id, members, channels, emojis, messages }
    }
}

} // verus!
