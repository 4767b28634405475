//! Parsing of the client's command line into commands.

use vstd::prelude::*;
use crate::text::{chars_of, chars_eq_str, string_from_chars, push_chars};

verus! {

#[derive(Debug, Clone, Copy, PartialEq, Eq, Structural)]
pub enum UserInputError {
    IoError,
    InvalidCommand,
    InvalidUser,
}

/// One line of user input, understood.
#[derive(Debug)]
pub enum ClientUserInput {
    Help,
    ListUsers,
    Message(String),
    DirectMessage { recipient: String, message: String },
    Reply(String),
    Rename(String),
    SendFile { recipient: String, file_path: String },
    AcceptFile { sender: String },
    RejectFile { sender: String },
    Status(Option<String>),
    Quit,
}

pub enum InputView {
    Help,
    ListUsers,
    Message(Seq<char>),
    DirectMessage(Seq<char>, Seq<char>),
    Reply(Seq<char>),
    Rename(Seq<char>),
    SendFile(Seq<char>, Seq<char>),
    AcceptFile(Seq<char>),
    RejectFile(Seq<char>),
    Status(Option<Seq<char>>),
    Quit,
}

impl View for ClientUserInput {
    type V = InputView;

    open spec fn view(&self) -> InputView {
        match self {
            ClientUserInput::Help => InputView::Help,
            ClientUserInput::ListUsers => InputView::ListUsers,
            ClientUserInput::Message(m) => InputView::Message(m@),
            ClientUserInput::DirectMessage { recipient, message } => InputView::DirectMessage(recipient@, message@),
            ClientUserInput::Reply(m) => InputView::Reply(m@),
            ClientUserInput::Rename(n) => InputView::Rename(n@),
            ClientUserInput::SendFile { recipient, file_path } => InputView::SendFile(recipient@, file_path@),
            ClientUserInput::AcceptFile { sender } => InputView::AcceptFile(sender@),
            ClientUserInput::RejectFile { sender } => InputView::RejectFile(sender@),
            ClientUserInput::Status(s) => InputView::Status(
                match s {
                    Some(t) => Some(t@),
                    None => None,
                },
            ),
            ClientUserInput::Quit => InputView::Quit,
        }
    }
}

/// Unicode White_Space, the set that `char::is_whitespace` uses.
pub open spec fn is_ws(c: char) -> bool {
    ('\u{9}' <= c <= '\u{D}') || c == ' ' || c == '\u{85}' || c == '\u{A0}' || c == '\u{1680}'
        || ('\u{2000}' <= c <= '\u{200A}') || c == '\u{2028}' || c == '\u{2029}' || c == '\u{202F}'
        || c == '\u{205F}' || c == '\u{3000}'
}

pub open spec fn trim_start(s: Seq<char>) -> Seq<char>
    decreases s.len(),
{
    if s.len() > 0 && is_ws(s[0]) {
        trim_start(s.drop_first())
    } else {
        s
    }
}

pub open spec fn trim_end(s: Seq<char>) -> Seq<char>
    decreases s.len(),
{
    if s.len() > 0 && is_ws(s.last()) {
        trim_end(s.drop_last())
    } else {
        s
    }
}

/// Whether every character of `s` is whitespace (so also when it is empty).
pub open spec fn all_ws(s: Seq<char>) -> bool {
    forall|i: int| 0 <= i < s.len() ==> is_ws(#[trigger] s[i])
}

/// `s` without leading and trailing whitespace.
pub open spec fn trim(s: Seq<char>) -> Seq<char> {
    trim_end(trim_start(s))
}

/// The words of `s[i..]`, `cur` being the word in progress and `acc` the
/// words already complete.
pub open spec fn words_from(s: Seq<char>, i: int, cur: Seq<char>, acc: Seq<Seq<char>>) -> Seq<Seq<char>>
    decreases s.len() - i,
{
    if i >= s.len() {
        if cur.len() > 0 {
            acc.push(cur)
        } else {
            acc
        }
    } else if is_ws(s[i]) {
        words_from(s, i + 1, Seq::empty(), if cur.len() > 0 {
            acc.push(cur)
        } else {
            acc
        })
    } else {
        words_from(s, i + 1, cur.push(s[i]), acc)
    }
}

/// The maximal runs of non-whitespace in `s`, in order.
pub open spec fn words(s: Seq<char>) -> Seq<Seq<char>> {
    words_from(s, 0, Seq::empty(), Seq::empty())
}

/// Words joined by single spaces.
pub open spec fn join_words(ws: Seq<Seq<char>>) -> Seq<char>
    decreases ws.len(),
{
    if ws.len() == 0 {
        Seq::empty()
    } else if ws.len() == 1 {
        ws[0]
    } else {
        join_words(ws.drop_last()) + seq![' '] + ws.last()
    }
}

/// The words from the `k`-th on, joined by single spaces.
pub open spec fn rest_from(ws: Seq<Seq<char>>, k: int) -> Seq<char> {
    join_words(ws.subrange(k, ws.len() as int))
}

/// What a line means. The first word picks the command; `/dm` and `/send`
/// need two more words, `/r`, `/rename`, `/accept` and `/reject` one; other
/// words beyond those are rejoined with single spaces. An unknown `/`
/// command is refused; any other text is a chat message.
pub open spec fn parse_spec(line: Seq<char>) -> Result<InputView, UserInputError> {
    let t = trim(line);
    let p = words(t);
    let cmd = if p.len() > 0 {
        p[0]
    } else {
        Seq::empty()
    };
    if cmd == "/quit"@ {
        Ok(InputView::Quit)
    } else if cmd == "/list"@ {
        Ok(InputView::ListUsers)
    } else if cmd == "/help"@ {
        Ok(InputView::Help)
    } else if cmd == "/dm"@ {
        if p.len() < 3 {
            Err(UserInputError::InvalidCommand)
        } else {
            Ok(InputView::DirectMessage(p[1], rest_from(p, 2)))
        }
    } else if cmd == "/r"@ {
        if p.len() < 2 {
            Err(UserInputError::InvalidCommand)
        } else {
            Ok(InputView::Reply(rest_from(p, 1)))
        }
    } else if cmd == "/rename"@ {
        if p.len() < 2 {
            Err(UserInputError::InvalidCommand)
        } else {
            Ok(InputView::Rename(p[1]))
        }
    } else if cmd == "/send"@ {
        if p.len() < 3 {
            Err(UserInputError::InvalidCommand)
        } else {
            Ok(InputView::SendFile(p[1], rest_from(p, 2)))
        }
    } else if cmd == "/accept"@ {
        if p.len() < 2 {
            Err(UserInputError::InvalidCommand)
        } else {
            Ok(InputView::AcceptFile(p[1]))
        }
    } else if cmd == "/reject"@ {
        if p.len() < 2 {
            Err(UserInputError::InvalidCommand)
        } else {
            Ok(InputView::RejectFile(p[1]))
        }
    } else if cmd == "/status"@ {
        if p.len() < 2 {
            Ok(InputView::Status(None))
        } else {
            Ok(InputView::Status(Some(rest_from(p, 1))))
        }
    } else if t.len() > 0 && t[0] == '/' {
        Err(UserInputError::InvalidCommand)
    } else {
        Ok(InputView::Message(t))
    }
}

pub fn is_ws_char(c: char) -> (r: bool)
    ensures
        r == is_ws(c),
{
    ('\u{9}' <= c && c <= '\u{D}') || c == ' ' || c == '\u{85}' || c == '\u{A0}' || c == '\u{1680}'
        || ('\u{2000}' <= c && c <= '\u{200A}') || c == '\u{2028}' || c == '\u{2029}' || c == '\u{202F}'
        || c == '\u{205F}' || c == '\u{3000}'
}

/// Whether `s` holds nothing but whitespace.
pub fn is_blank(s: &str) -> (r: bool)
    ensures
        r == all_ws(s@),
{
    let c = chars_of(s);
    let mut i: usize = 0;
    while i < c.len()
        invariant
            c@ == s@,
            i <= c@.len(),
            forall|j: int| 0 <= j < i ==> is_ws(#[trigger] c@[j]),
        decreases c@.len() - i,
    {
        if !is_ws_char(c[i]) {
            return false;
        }
        i = i + 1;
    }
    true
}

/// `s` without leading and trailing whitespace.
pub fn trim_chars(s: &[char]) -> (r: Vec<char>)
    ensures
        r@ == trim(s@),
{
    let n = s.len();
    let mut a: usize = 0;
    assert(s@.subrange(0, n as int) =~= s@);
    while a < n && is_ws_char(s[a])
        invariant
            n == s@.len(),
            a <= n,
            trim_start(s@) == trim_start(s@.subrange(a as int, n as int)),
        decreases n - a,
    {
        assert(s@.subrange(a as int, n as int).drop_first() =~= s@.subrange(a + 1, n as int));
        a = a + 1;
    }
    assert(trim_start(s@.subrange(a as int, n as int)) == s@.subrange(a as int, n as int));
    let mut b: usize = n;
    while b > a && is_ws_char(s[b - 1])
        invariant
            n == s@.len(),
            a <= b <= n,
            trim(s@) == trim_end(s@.subrange(a as int, b as int)),
        decreases b - a,
    {
        assert(s@.subrange(a as int, b as int).drop_last() =~= s@.subrange(a as int, b - 1));
        b = b - 1;
    }
    let mut r: Vec<char> = Vec::new();
    let mut i: usize = a;
    while i < b
        invariant
            a <= i <= b <= n == s@.len(),
            r@ == s@.subrange(a as int, i as int),
        decreases b - i,
    {
        r.push(s[i]);
        i = i + 1;
        assert(r@ =~= s@.subrange(a as int, i as int));
    }
    r
}

pub open spec fn views(v: Seq<Vec<char>>) -> Seq<Seq<char>> {
    v.map_values(|w: Vec<char>| w@)
}

/// The words of `s`.
pub fn split_words(s: &[char]) -> (r: Vec<Vec<char>>)
    ensures
        views(r@) == words(s@),
{
    let mut acc: Vec<Vec<char>> = Vec::new();
    let mut cur: Vec<char> = Vec::new();
    let mut i: usize = 0;
    assert(views(acc@) =~= Seq::<Seq<char>>::empty());
    while i < s.len()
        invariant
            i <= s@.len(),
            words_from(s@, i as int, cur@, views(acc@)) == words(s@),
        decreases s@.len() - i,
    {
        let ghost acc0 = views(acc@);
        let ghost cur0 = cur@;
        if is_ws_char(s[i]) {
            if cur.len() > 0 {
                acc.push(cur);
                assert(views(acc@) =~= acc0.push(cur0));
            }
            cur = Vec::new();
        } else {
            cur.push(s[i]);
        }
        i = i + 1;
    }
    if cur.len() > 0 {
        let ghost acc0 = views(acc@);
        let ghost cur0 = cur@;
        acc.push(cur);
        assert(views(acc@) =~= acc0.push(cur0));
    }
    acc
}

proof fn lemma_join_step(ws: Seq<Seq<char>>, k: int, i: int)
    requires
        0 <= k < i < ws.len(),
    ensures
        join_words(ws.subrange(k, i + 1)) == join_words(ws.subrange(k, i)) + seq![' '] + ws[i],
{
    assert(ws.subrange(k, i + 1).drop_last() =~= ws.subrange(k, i));
}

/// The words from the `k`-th on, joined by single spaces.
pub fn join_from(ws: &Vec<Vec<char>>, k: usize) -> (r: Vec<char>)
    requires
        k < ws@.len(),
    ensures
        r@ == rest_from(views(ws@), k as int),
{
    let ghost v = views(ws@);
    let n = ws.len();
    let mut out: Vec<char> = Vec::new();
    push_chars(&mut out, ws[k].as_slice());
    assert(v.subrange(k as int, k + 1).len() == 1);
    assert(out@ == join_words(v.subrange(k as int, k + 1)));
    let mut i: usize = k + 1;
    while i < ws.len()
        invariant
            v == views(ws@),
            k < i <= ws@.len(),
            out@ == join_words(v.subrange(k as int, i as int)),
        decreases ws@.len() - i,
    {
        out.push(' ');
        push_chars(&mut out, ws[i].as_slice());
        proof {
            lemma_join_step(v, k as int, i as int);
        }
        i = i + 1;
    }
    out
}

fn word(ws: &Vec<Vec<char>>, k: usize) -> (r: String)
    requires
        k < ws@.len(),
    ensures
        r@ == ws@[k as int]@,
{
    string_from_chars(ws[k].as_slice())
}

fn rest(ws: &Vec<Vec<char>>, k: usize) -> (r: String)
    requires
        k < ws@.len(),
    ensures
        r@ == rest_from(views(ws@), k as int),
{
    let j = join_from(ws, k);
    string_from_chars(j.as_slice())
}

impl ClientUserInput {
    /// Parses one line of input.
    pub fn parse(line: &str) -> (r: Result<ClientUserInput, UserInputError>)
        ensures
            match parse_spec(line@) {
                Ok(v) => r matches Ok(i) && i@ == v,
                Err(e) => r == Err::<ClientUserInput, UserInputError>(e),
            },
    {
        let all = chars_of(line);
        let t = trim_chars(all.as_slice());
        let p = split_words(t.as_slice());
        let ghost pv = views(p@);
        let empty: Vec<char> = Vec::new();
        let cmd: &[char] = if p.len() > 0 {
            p[0].as_slice()
        } else {
            empty.as_slice()
        };
        assert(cmd@ == (if pv.len() > 0 { pv[0] } else { Seq::<char>::empty() }));
        proof {
            if pv.len() > 0 {
                assert(pv[0] == p@[0]@);
            }
        }
        if chars_eq_str(cmd, "/quit") {
            Ok(ClientUserInput::Quit)
        } else if chars_eq_str(cmd, "/list") {
            Ok(ClientUserInput::ListUsers)
        } else if chars_eq_str(cmd, "/help") {
            Ok(ClientUserInput::Help)
        } else if chars_eq_str(cmd, "/dm") {
            if p.len() < 3 {
                Err(UserInputError::InvalidCommand)
            } else {
                Ok(ClientUserInput::DirectMessage { recipient: word(&p, 1), message: rest(&p, 2) })
            }
        } else if chars_eq_str(cmd, "/r") {
            if p.len() < 2 {
                Err(UserInputError::InvalidCommand)
            } else {
                Ok(ClientUserInput::Reply(rest(&p, 1)))
            }
        } else if chars_eq_str(cmd, "/rename") {
            if p.len() < 2 {
                Err(UserInputError::InvalidCommand)
            } else {
                Ok(ClientUserInput::Rename(word(&p, 1)))
            }
        } else if chars_eq_str(cmd, "/send") {
            if p.len() < 3 {
                Err(UserInputError::InvalidCommand)
            } else {
                Ok(ClientUserInput::SendFile { recipient: word(&p, 1), file_path: rest(&p, 2) })
            }
        } else if chars_eq_str(cmd, "/accept") {
            if p.len() < 2 {
                Err(UserInputError::InvalidCommand)
            } else {
                Ok(ClientUserInput::AcceptFile { sender: word(&p, 1) })
            }
        } else if chars_eq_str(cmd, "/reject") {
            if p.len() < 2 {
                Err(UserInputError::InvalidCommand)
            } else {
                Ok(ClientUserInput::RejectFile { sender: word(&p, 1) })
            }
        } else if chars_eq_str(cmd, "/status") {
            if p.len() < 2 {
                Ok(ClientUserInput::Status(None))
            } else {
                Ok(ClientUserInput::Status(Some(rest(&p, 1))))
            }
        } else if t.len() > 0 && t[0] == '/' {
            Err(UserInputError::InvalidCommand)
        } else {
            Ok(ClientUserInput::Message(string_from_chars(t.as_slice())))
        }
    }
}

impl<'a> TryFrom<&'a str> for ClientUserInput {
    type Error = UserInputError;

    fn try_from(value: &'a str) -> (r: Result<Self, Self::Error>) {
        ClientUserInput::parse(value)
    }
}

impl TryFrom<String> for ClientUserInput {
    type Error = UserInputError;

    fn try_from(value: String) -> (r: Result<Self, Self::Error>) {
        ClientUserInput::parse(value.as_str())
    }
}

// Both conversions state their result through `parse`; no spec-level value is
// claimed here.
impl<'a> vstd::std_specs::convert::TryFromSpecImpl<&'a str> for ClientUserInput {
    open spec fn obeys_try_from_spec() -> bool {
        false
    }

    open spec fn try_from_spec(v: &'a str) -> Result<Self, UserInputError> {
        arbitrary()
    }
}

impl vstd::std_specs::convert::TryFromSpecImpl<String> for ClientUserInput {
    open spec fn obeys_try_from_spec() -> bool {
        false
    }

    open spec fn try_from_spec(v: String) -> Result<Self, UserInputError> {
        arbitrary()
    }
}

} // verus!
