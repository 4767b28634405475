//! Parsing of the administrator console's command line.

use vstd::prelude::*;
use crate::client_input::{UserInputError, trim, words, trim_chars, split_words, views};
use crate::text::{chars_of, chars_eq_str, chars_start_with, has_prefix, string_from_chars};

verus! {

/// One administrator command. Ban and unban targets are kept as typed: a
/// target that reads as a network address is one, any other names a user.
#[derive(Debug)]
pub enum ServerUserInput {
    Help,
    ListUsers,
    Kick(String),
    Rename { old_name: String, new_name: String },
    Ban(String),
    Unban(String),
    BanList,
    Quit,
}

pub enum ServerInputView {
    Help,
    ListUsers,
    Kick(Seq<char>),
    Rename(Seq<char>, Seq<char>),
    Ban(Seq<char>),
    Unban(Seq<char>),
    BanList,
    Quit,
}

impl View for ServerUserInput {
    type V = ServerInputView;

    open spec fn view(&self) -> ServerInputView {
        match self {
            ServerUserInput::Help => ServerInputView::Help,
            ServerUserInput::ListUsers => ServerInputView::ListUsers,
            ServerUserInput::Kick(n) => ServerInputView::Kick(n@),
            ServerUserInput::Rename { old_name, new_name } => ServerInputView::Rename(old_name@, new_name@),
            ServerUserInput::Ban(t) => ServerInputView::Ban(t@),
            ServerUserInput::Unban(t) => ServerInputView::Unban(t@),
            ServerUserInput::BanList => ServerInputView::BanList,
            ServerUserInput::Quit => ServerInputView::Quit,
        }
    }
}

/// The trimmed argument after a command word and its space.
pub open spec fn arg_after(t: Seq<char>, n: int) -> Seq<char> {
    trim(t.subrange(n, t.len() as int))
}

pub open spec fn server_parse_spec(line: Seq<char>) -> Result<ServerInputView, UserInputError> {
    let t = trim(line);
    if t == "/quit"@ || t == "/q"@ {
        Ok(ServerInputView::Quit)
    } else if t == "/list"@ {
        Ok(ServerInputView::ListUsers)
    } else if t == "/help"@ || t == "/h"@ {
        Ok(ServerInputView::Help)
    } else if has_prefix(t, "/kick "@) {
        if arg_after(t, 6).len() == 0 {
            Err(UserInputError::InvalidCommand)
        } else {
            Ok(ServerInputView::Kick(arg_after(t, 6)))
        }
    } else if has_prefix(t, "/rename "@) {
        let p = words(t.subrange(8, t.len() as int));
        if p.len() != 2 {
            Err(UserInputError::InvalidCommand)
        } else {
            Ok(ServerInputView::Rename(p[0], p[1]))
        }
    } else if has_prefix(t, "/ban "@) {
        if arg_after(t, 5).len() == 0 {
            Err(UserInputError::InvalidCommand)
        } else {
            Ok(ServerInputView::Ban(arg_after(t, 5)))
        }
    } else if has_prefix(t, "/unban "@) {
        if arg_after(t, 7).len() == 0 {
            Err(UserInputError::InvalidCommand)
        } else {
            Ok(ServerInputView::Unban(arg_after(t, 7)))
        }
    } else if t == "/banlist"@ {
        Ok(ServerInputView::BanList)
    } else {
        Err(UserInputError::InvalidCommand)
    }
}

fn tail(t: &[char], n: usize) -> (r: Vec<char>)
    requires
        n <= t@.len(),
    ensures
        r@ == t@.subrange(n as int, t@.len() as int),
{
    let mut r: Vec<char> = Vec::new();
    let mut i: usize = n;
    while i < t.len()
        invariant
            n <= i <= t@.len(),
            r@ == t@.subrange(n as int, i as int),
        decreases t@.len() - i,
    {
        r.push(t[i]);
        i = i + 1;
        assert(r@ =~= t@.subrange(n as int, i as int));
    }
    r
}

fn starts(t: &[char], p: &str) -> (r: bool)
    ensures
        r == has_prefix(t@, p@),
{
    let pc = chars_of(p);
    chars_start_with(t, pc.as_slice())
}

impl ServerUserInput {
    /// Parses one console line.
    #[verifier::rlimit(60)]
    pub fn parse(line: &str) -> (r: Result<ServerUserInput, UserInputError>)
        ensures
            match server_parse_spec(line@) {
                Ok(v) => r matches Ok(i) && i@ == v,
                Err(e) => r == Err::<ServerUserInput, UserInputError>(e),
            },
    {
        let all = chars_of(line);
        let t = trim_chars(all.as_slice());
        proof {
            reveal_strlit("/kick ");
            reveal_strlit("/rename ");
            reveal_strlit("/ban ");
            reveal_strlit("/unban ");
        }
        if chars_eq_str(t.as_slice(), "/quit") || chars_eq_str(t.as_slice(), "/q") {
            Ok(ServerUserInput::Quit)
        } else if chars_eq_str(t.as_slice(), "/list") {
            Ok(ServerUserInput::ListUsers)
        } else if chars_eq_str(t.as_slice(), "/help") || chars_eq_str(t.as_slice(), "/h") {
            Ok(ServerUserInput::Help)
        } else if starts(t.as_slice(), "/kick ") {
            let a = trim_chars(tail(t.as_slice(), 6).as_slice());
            if a.len() == 0 {
                Err(UserInputError::InvalidCommand)
            } else {
                Ok(ServerUserInput::Kick(string_from_chars(a.as_slice())))
            }
        } else if starts(t.as_slice(), "/rename ") {
            let p = split_words(tail(t.as_slice(), 8).as_slice());
            if p.len() != 2 {
                Err(UserInputError::InvalidCommand)
            } else {
                assert(views(p@)[0] == p@[0]@ && views(p@)[1] == p@[1]@);
                Ok(ServerUserInput::Rename {
                    old_name: string_from_chars(p[0].as_slice()),
                    new_name: string_from_chars(p[1].as_slice()),
                })
            }
        } else if starts(t.as_slice(), "/ban ") {
            let a = trim_chars(tail(t.as_slice(), 5).as_slice());
            if a.len() == 0 {
                Err(UserInputError::InvalidCommand)
            } else {
                Ok(ServerUserInput::Ban(string_from_chars(a.as_slice())))
            }
        } else if starts(t.as_slice(), "/unban ") {
            let a = trim_chars(tail(t.as_slice(), 7).as_slice());
            if a.len() == 0 {
                Err(UserInputError::InvalidCommand)
            } else {
                Ok(ServerUserInput::Unban(string_from_chars(a.as_slice())))
            }
        } else if chars_eq_str(t.as_slice(), "/banlist") {
            Ok(ServerUserInput::BanList)
        } else {
            Err(UserInputError::InvalidCommand)
        }
    }
}

impl<'a> TryFrom<&'a str> for ServerUserInput {
    type Error = UserInputError;

    fn try_from(value: &'a str) -> (r: Result<Self, Self::Error>) {
        ServerUserInput::parse(value)
    }
}

// The conversion states its result through `parse`; no spec-level value is
// claimed here.
impl<'a> vstd::std_specs::convert::TryFromSpecImpl<&'a str> for ServerUserInput {
    open spec fn obeys_try_from_spec() -> bool {
        false
    }

    open spec fn try_from_spec(v: &'a str) -> Result<Self, UserInputError> {
        arbitrary()
    }
}

} // verus!
