use vstd::prelude::*;

verus! {

/// What the directory records of a participant.
#[derive(Debug)]
pub struct UserData {
    pub user_id: u64,
    pub username: String,
    pub display_name: String,
    pub avatar_url: Option<String>,
    pub is_bot: bool,
}

/// The record that stands for a participant whom the directory does not
/// know: id zero, both names "Unknown", no avatar, not a bot.
pub open spec fn is_unknown_user(u: UserData) -> bool {
    &&& u.user_id == 0
    &&& u.username@ == "Unknown"@
    &&& u.display_name@ == "Unknown"@
    &&& u.avatar_url is None
    &&& !u.is_bot
}

impl UserData {
    pub fn new(
        user_id: u64,
        username: String,
        display_name: String,
        avatar_url: Option<String>,
        is_bot: bool,
    ) -> (u: Self)
        ensures
            u.user_id == user_id,
            u.username == username,
            u.display_name == display_name,
            u.avatar_url == avatar_url,
            u.is_bot == is_bot,
    {
        Self { user_id, username, display_name, avatar_url, is_bot }
    }

    /// The placeholder for a participant whom the directory does not know.
    pub fn unknown() -> (u: Self)
        ensures
            is_unknown_user(u),
    {
        Self {
            user_id: 0,
            username: "Unknown".to_string(),
            display_name: "Unknown".to_string(),
            avatar_url: None,
            is_bot: false,
        }
    }

    /// A second record with the same contents.
    pub fn duplicate(&self) -> (r: UserData)
        ensures
            r.user_id == self.user_id,
            r.username@ == self.username@,
            r.display_name@ == self.display_name@,
            r.is_bot == self.is_bot,
            r.avatar_url is Some == self.avatar_url is Some,
            r.avatar_url is Some ==> r.avatar_url->Some_0@ == self.avatar_url->Some_0@,
    {
        let avatar_url = match &self.avatar_url {
            Some(url) => Some(url.clone()),
            None => None,
        };
        UserData {
            user_id: self.user_id,
            username: self.username.clone(),
            display_name: self.display_name.clone(),
            avatar_url,
            is_bot: self.is_bot,
        }
    }

    /// The name under which reports list the participant.
    pub fn label(&self) -> (s: String)
        ensures
            s@ == self.display_name@,
    {
        self.display_name.clone()
    }
}

impl Default for UserData {
    fn default() -> (u: Self)
        ensures
            is_unknown_user(u),
    {
        UserData::unknown()
    }
}

} // verus!
