use vstd::prelude::*;
use crate::network::url::parse_url;
use crate::utils::render::i32_to_decimal;

verus! {

/// A user or bot account of the remote messaging service.
#[derive(Clone, Debug, PartialEq, Eq, Hash)]
pub struct User {
    /// Unique identifier for this user or bot.
    pub id: i32,

    /// `true`, if this user is a bot.
    pub is_bot: bool,

    /// First name.
    pub first_name: String,

    /// Last name.
    pub last_name: Option<String>,

    /// Username.
    pub username: Option<String>,

    /// IETF language tag of the user's language.
    pub language_code: Option<String>,
}

impl User {
    pub fn new(id: i32, is_bot: bool, first_name: String) -> (r: Self)
        ensures
            r == (User {
                id,
                is_bot,
                first_name,
                last_name: None,
                username: None,
                language_code: None,
            }),
    {
        Self { id, is_bot, first_name, last_name: None, username: None, language_code: None }
    }

    pub fn id(self, val: i32) -> (r: Self)
        ensures
            r == (User { id: val, ..self }),
    {
        Self { id: val, ..self }
    }

    pub fn is_bot(self, val: bool) -> (r: Self)
        ensures
            r == (User { is_bot: val, ..self }),
    {
        Self { is_bot: val, ..self }
    }

    pub fn first_name(self, val: String) -> (r: Self)
        ensures
            r == (User { first_name: val, ..self }),
    {
        Self { first_name: val, ..self }
    }

    pub fn last_name(self, val: String) -> (r: Self)
        ensures
            r == (User { last_name: Some(val), ..self }),
    {
        Self { last_name: Some(val), ..self }
    }

    pub fn username(self, val: String) -> (r: Self)
        ensures
            r == (User { username: Some(val), ..self }),
    {
        Self { username: Some(val), ..self }
    }

    pub fn language_code(self, val: String) -> (r: Self)
        ensures
            r == (User { language_code: Some(val), ..self }),
    {
        Self { language_code: Some(val), ..self }
    }

    /// The first name, followed by the last name when one is present,
    /// separated by a single space.
    pub fn full_name(&self) -> (r: String)
        ensures
            match self.last_name {
                Some(last) => r@ == self.first_name@ + " "@ + last@,
                None => r@ == self.first_name@,
            },
    {
        match &self.last_name {
            Some(last_name) => self.first_name.clone().concat(" ").concat(last_name.as_str()),
            None => self.first_name.clone(),
        }
    }

    /// The `@`-mention of this user, when a username is present.
    pub fn mention(&self) -> (r: Option<String>)
        ensures
            match self.username {
                Some(name) => r is Some && r->0@ == "@"@ + name@,
                None => r is None,
            },
    {
        match &self.username {
            Some(name) => Some(String::from_str("@").concat(name.as_str())),
            None => None,
        }
    }

    /// The deep link to this user, parsed by the `url` crate (through its
    /// re-export); `None` in the case that the parser rejects it.
    pub fn url(&self) -> (r: Option<reqwest::Url>) {
        let mut s = String::from_str("tg://user/?id=");
        let digits = i32_to_decimal(self.id);
        s.append(digits.as_str());
        parse_url(s.as_str())
    }
}

} // verus!
