use vstd::prelude::*;

verus! {

/// The amount of characters of `text` lies within `min..=max`.
pub open spec fn length_within(text: Seq<char>, min: int, max: int) -> bool {
    min <= text.len() <= max
}

fn char_count_within(text: &String, min: usize, max: usize) -> (within: bool)
    ensures
        within == length_within(text@, min as int, max as int),
{
    let count = text.as_str().unicode_len();
    min <= count && count <= max
}

#[derive(Debug)]
pub struct LoginSchema {
    pub username: String,
    pub password: String,
}

#[derive(Debug)]
pub struct RegisterSchema {
    pub display_name: String,
    pub username: String,
    pub password: String,
    pub invite_token: Option<String>,
}

#[derive(Debug)]
pub struct NewRoomSchema {
    pub slug: String,
    pub title: String,
    pub description: Option<String>,
}

#[derive(Debug)]
pub struct NewStreamKeySchema {
    pub source: String,
}

#[derive(Debug)]
pub struct InputSchema {
    pub query: String,
}

#[derive(Debug)]
pub struct JoinWithInviteSchema {
    pub token: String,
}

impl LoginSchema {
    /// A username of at most 128 and a password of at most 64 characters.
    pub fn validate(&self) -> (valid: bool)
        ensures
            valid == (length_within(self.username@, 0, 128) && length_within(self.password@, 0, 64)),
    {
        char_count_within(&self.username, 0, 128) && char_count_within(&self.password, 0, 64)
    }
}

impl RegisterSchema {
    /// A display name and username of 2 to 128 characters and a password of 8 to 64.
    pub fn validate(&self) -> (valid: bool)
        ensures
            valid == (length_within(self.display_name@, 2, 128)
                && length_within(self.username@, 2, 128)
                && length_within(self.password@, 8, 64)),
    {
        char_count_within(&self.display_name, 2, 128)
            && char_count_within(&self.username, 2, 128)
            && char_count_within(&self.password, 8, 64)
    }
}

impl NewRoomSchema {
    /// A slug and title of 3 to 64 characters, and a description, if any, of at most 2048.
    pub fn validate(&self) -> (valid: bool)
        ensures
            valid == (length_within(self.slug@, 3, 64) && length_within(self.title@, 3, 64)
                && match self.description {
                Some(description) => length_within(description@, 0, 2048),
                None => true,
            }),
    {
        let description_valid = match &self.description {
            Some(description) => char_count_within(description, 0, 2048),
            None => true,
        };
        char_count_within(&self.slug, 3, 64) && char_count_within(&self.title, 3, 64) && description_valid
    }
}

impl NewStreamKeySchema {
    /// A source of 2 to 24 characters.
    pub fn validate(&self) -> (valid: bool)
        ensures
            valid == length_within(self.source@, 2, 24),
    {
        char_count_within(&self.source, 2, 24)
    }
}

impl InputSchema {
    /// Any query is accepted.
    pub fn validate(&self) -> (valid: bool)
        ensures
            valid,
    {
        true
    }
}

impl JoinWithInviteSchema {
    /// Any token is accepted.
    pub fn validate(&self) -> (valid: bool)
        ensures
            valid,
    {
        true
    }
}

} // verus!
