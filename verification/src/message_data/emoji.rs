use vstd::prelude::*;
use vstd::string::StringExecFns;
use crate::key::Key;
use crate::utils::{decimal, push_decimal};

verus! {

/// The identity of an emoji: a custom asset by its id, or a standard glyph by
/// its characters. The two kinds never coincide.
pub enum EmojiKey {
    Custom(u64),
    Unicode(Seq<char>),
}

/// An emoji: either a guild's own asset or a standard glyph.
#[derive(Debug)]
pub enum Emoji {
    Custom(u64),
    Unicode(String),
}

impl View for Emoji {
    type V = EmojiKey;

    open spec fn view(&self) -> EmojiKey {
        match self {
            Emoji::Custom(id) => EmojiKey::Custom(*id),
            Emoji::Unicode(glyph) => EmojiKey::Unicode(glyph@),
        }
    }
}

impl Key for Emoji {
    fn same(&self, other: &Self) -> (r: bool) {
        match (self, other) {
            (Emoji::Custom(a), Emoji::Custom(b)) => *a == *b,
            (Emoji::Unicode(a), Emoji::Unicode(b)) => *a == *b,
            _ => false,
        }
    }

    fn duplicate(&self) -> (r: Self) {
        match self {
            Emoji::Custom(id) => Emoji::Custom(*id),
            Emoji::Unicode(glyph) => Emoji::Unicode(glyph.clone()),
        }
    }
}

impl From<u64> for Emoji {
    fn from(id: u64) -> (e: Emoji) {
        Emoji::Custom(id)
    }
}

impl vstd::std_specs::convert::FromSpecImpl<u64> for Emoji {
    open spec fn obeys_from_spec() -> bool {
        true
    }

    open spec fn from_spec(id: u64) -> Emoji {
        Emoji::Custom(id)
    }
}

impl From<String> for Emoji {
    fn from(string: String) -> (e: Emoji) {
        Emoji::Unicode(string)
    }
}

impl vstd::std_specs::convert::FromSpecImpl<String> for Emoji {
    open spec fn obeys_from_spec() -> bool {
        true
    }

    open spec fn from_spec(string: String) -> Emoji {
        Emoji::Unicode(string)
    }
}

impl Emoji {
    /// The emoji of a custom asset.
    pub fn custom(id: u64) -> (e: Emoji)
        ensures
            e@ == EmojiKey::Custom(id),
    {
        Emoji::Custom(id)
    }

    /// The emoji of a standard glyph.
    pub fn unicode(glyph: String) -> (e: Emoji)
        ensures
            e@ == EmojiKey::Unicode(glyph@),
    {
        Emoji::Unicode(glyph)
    }

    /// Whether this is a custom asset.
    pub fn is_custom(&self) -> (r: bool)
        ensures
            r == (self@ is Custom),
    {
        match self {
            Emoji::Custom(_) => true,
            Emoji::Unicode(_) => false,
        }
    }
}

/// What the directory records of a custom emoji.
#[derive(Debug)]
pub struct EmojiData {
    pub emoji_id: u64,
    pub alias: String,
    pub image_url: String,
}

/// How a custom emoji is written in a message: its alias and its id between
/// angle brackets and colons.
pub open spec fn emoji_text(alias: Seq<char>, emoji_id: u64) -> Seq<char> {
    "<:"@ + alias + ":"@ + decimal(emoji_id as nat) + ">"@
}

impl EmojiData {
    /// The text under which reports list the emoji.
    pub fn label(&self) -> (s: String)
        ensures
            s@ == emoji_text(self.alias@, self.emoji_id),
    {
        let mut s = String::from_str("<:");
        s.append(self.alias.as_str());
        s.append(":");
        push_decimal(&mut s, self.emoji_id);
        s.append(">");
        s
    }

    /// A second record with the same contents.
    pub fn duplicate(&self) -> (r: EmojiData)
        ensures
            r.emoji_id == self.emoji_id,
            r.alias@ == self.alias@,
            r.image_url@ == self.image_url@,
    {
        EmojiData {
            emoji_id: self.emoji_id,
            alias: self.alias.clone(),
            image_url: self.image_url.clone(),
        }
    }
}

} // verus!
