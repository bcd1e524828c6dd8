use serenity::model::channel::{ChannelType, GuildChannel};
use serenity::model::permissions::Permissions;
use vstd::prelude::*;

verus! {

/// The bit of a permission mask that stands for viewing a channel.
pub const VIEW_CHANNEL: u64 = 1024;

/// Whom a permission overwrite is about.
#[derive(Debug, Clone, Copy)]
pub enum OverwriteKind {
    Member(u64),
    Role(u64),
}

/// A permission overwrite of a channel: what it allows and denies, as bit
/// masks, and to whom.
#[derive(Debug, Clone, Copy)]
pub struct Overwrite {
    pub allow: u64,
    pub deny: u64,
    pub kind: OverwriteKind,
}

/// What the directory records of a channel.
#[derive(Debug)]
pub struct ChannelData {
    pub channel_id: u64,
    pub name: String,
    pub channel_type: u8,
    pub permission_overwrites: Vec<Overwrite>,
}

/// Whether a mask holds the bit for viewing a channel.
pub open spec fn mask_views(bits: u64) -> bool {
    bits & VIEW_CHANNEL == VIEW_CHANNEL
}

/// The channel types in which messages can be sent: text, voice, news, the
/// three kinds of thread, and stage.
pub open spec fn text_based(channel_type: u8) -> bool {
    ||| channel_type == 0
    ||| channel_type == 2
    ||| channel_type == 5
    ||| channel_type == 10
    ||| channel_type == 11
    ||| channel_type == 12
    ||| channel_type == 13
}

/// The overwrite is about the role that every member has, whose id is the
/// guild's, and denies viewing the channel.
pub open spec fn hides_from_everyone(o: Overwrite, guild_id: u64) -> bool {
    &&& o.kind == OverwriteKind::Role(guild_id)
    &&& mask_views(o.deny)
}

/// Some overwrite of the list hides the channel from the general membership.
pub open spec fn private_archive(overwrites: Seq<Overwrite>, guild_id: u64) -> bool {
    exists|i: int| 0 <= i < overwrites.len() && hides_from_everyone(#[trigger] overwrites[i], guild_id)
}

/// The record that stands for a channel that the directory does not know.
pub open spec fn is_unknown_channel(c: ChannelData) -> bool {
    &&& c.channel_id == 0
    &&& c.name@ == "Unknown"@
    &&& c.channel_type == 0
    &&& c.permission_overwrites@.len() == 0
}

/// Calls `Permissions::view_channel` on the permission set with these bits.
///
/// Trusted: that method tests whether the set contains the view-channel
/// permission, which is the bit of value 1024.
#[verifier::external_body]
pub(crate) fn mask_has_view_channel(bits: u64) -> (r: bool)
    ensures
        r == mask_views(bits),
{
    Permissions::from_bits_retain(bits).view_channel()
}

/// Calls `GuildChannel::is_text_based` on a channel of this type.
///
/// Trusted: that method answers by the channel's type alone, and holds for
/// text, voice, news, news thread, public thread, private thread and stage.
#[verifier::external_body]
pub(crate) fn kind_is_text_based(channel_type: u8) -> (r: bool)
    ensures
        r == text_based(channel_type),
{
    let mut channel = GuildChannel::default();
    channel.kind = ChannelType::from(channel_type);
    channel.is_text_based()
}

impl ChannelData {
    pub fn new(
        channel_id: u64,
        name: String,
        channel_type: u8,
        permission_overwrites: Vec<Overwrite>,
    ) -> (c: Self)
        ensures
            c.channel_id == channel_id,
            c.name == name,
            c.channel_type == channel_type,
            c.permission_overwrites == permission_overwrites,
    {
        Self { channel_id, name, channel_type, permission_overwrites }
    }

    /// The placeholder for a channel that the directory does not know.
    pub fn unknown() -> (c: Self)
        ensures
            is_unknown_channel(c),
    {
        Self {
            channel_id: 0,
            name: "Unknown".to_string(),
            channel_type: 0,
            permission_overwrites: Vec::new(),
        }
    }

    /// Whether messages can be sent in this channel.
    pub fn is_text_based(&self) -> (r: bool)
        ensures
            r == text_based(self.channel_type),
    {
        kind_is_text_based(self.channel_type)
    }

    /// A second record with the same contents.
    pub fn duplicate(&self) -> (r: ChannelData)
        ensures
            r.channel_id == self.channel_id,
            r.name@ == self.name@,
            r.channel_type == self.channel_type,
            r.permission_overwrites@ == self.permission_overwrites@,
    {
        let mut overwrites: Vec<Overwrite> = Vec::new();
        let mut i: usize = 0;
        while i < self.permission_overwrites.len()
            invariant
                i <= self.permission_overwrites@.len(),
                overwrites@ == self.permission_overwrites@.take(i as int),
            decreases self.permission_overwrites@.len() - i,
        {
            overwrites.push(self.permission_overwrites[i]);
            proof {
                assert(overwrites@ =~= self.permission_overwrites@.take(i + 1));
            }
            i += 1;
        }
        proof {
            assert(self.permission_overwrites@.take(self.permission_overwrites@.len() as int)
                =~= self.permission_overwrites@);
        }
        ChannelData {
            channel_id: self.channel_id,
            name: self.name.clone(),
            channel_type: self.channel_type,
            permission_overwrites: overwrites,
        }
    }

    /// The name under which reports list the channel.
    pub fn label(&self) -> (s: String)
        ensures
            s@ == self.name@,
    {
        self.name.clone()
    }
}

impl Default for ChannelData {
    fn default() -> (c: Self)
        ensures
            is_unknown_channel(c),
    {
        ChannelData::unknown()
    }
}

/// Decides whether a channel is a private archive: whether one of its
/// overwrites denies the general membership role the view of the channel.
pub fn is_private_archive_channel(channel: &ChannelData, guild_id: u64) -> (r: bool)
    ensures
        r == private_archive(channel.permission_overwrites@, guild_id),
{
    let mut i: usize = 0;
    while i < channel.permission_overwrites.len()
        invariant
            i <= channel.permission_overwrites@.len(),
            forall|j: int|
                0 <= j < i ==> !hides_from_everyone(
                    #[trigger] channel.permission_overwrites@[j],
                    guild_id,
                ),
        decreases channel.permission_overwrites@.len() - i,
    {
        let o = channel.permission_overwrites[i];
        let about_everyone = match o.kind {
            OverwriteKind::Role(role_id) => role_id == guild_id,
            OverwriteKind::Member(_) => false,
        };
        if about_everyone && mask_has_view_channel(o.deny) {
            return true;
        }
        i += 1;
    }
    false
}

} // verus!
