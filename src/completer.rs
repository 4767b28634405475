//! Tab-completion candidates for the client's and the server's consoles.

use vstd::prelude::*;
use crate::client_input::{trim_start, is_ws_char};
use crate::commands::names_spec;
use crate::text::{chars_of, chars_start_with, has_prefix, push_chars, string_from_chars};

verus! {

/// The entries of `names` that start with `p`, in order.
pub open spec fn prefixed(names: Seq<Seq<char>>, p: Seq<char>) -> Seq<Seq<char>>
    decreases names.len(),
{
    if names.len() == 0 {
        Seq::empty()
    } else {
        prefixed(names.drop_last(), p) + if has_prefix(names.last(), p) {
            seq![names.last()]
        } else {
            Seq::empty()
        }
    }
}

pub open spec fn str_views(v: Seq<&'static str>) -> Seq<Seq<char>> {
    v.map_values(|s: &'static str| s@)
}

pub open spec fn string_views(v: Seq<String>) -> Seq<Seq<char>> {
    v.map_values(|s: String| s@)
}

fn leading_trimmed(line: &str) -> (r: Vec<char>)
    ensures
        r@ == trim_start(line@),
{
    let s = chars_of(line);
    let n = s.len();
    let mut a: usize = 0;
    assert(s@.subrange(0, n as int) =~= s@);
    while a < n && is_ws_char(s[a])
        invariant
            n == s@.len(),
            a <= n,
            trim_start(s@) == trim_start(s@.subrange(a as int, n as int)),
        decreases n - a,
    {
        assert(s@.subrange(a as int, n as int).drop_first() =~= s@.subrange(a + 1, n as int));
        a = a + 1;
    }
    let mut r: Vec<char> = Vec::new();
    let mut i: usize = a;
    while i < n
        invariant
            a <= i <= n == s@.len(),
            r@ == s@.subrange(a as int, i as int),
        decreases n - i,
    {
        r.push(s[i]);
        i = i + 1;
        assert(r@ =~= s@.subrange(a as int, i as int));
    }
    r
}

/// The names among `names` that start with `p`, as strings.
fn filter_names(names: &Vec<&'static str>, p: &[char]) -> (r: Vec<String>)
    ensures
        string_views(r@) == prefixed(str_views(names@), p@),
{
    let mut out: Vec<String> = Vec::new();
    let mut i: usize = 0;
    assert(string_views(out@) =~= prefixed(str_views(names@).subrange(0, 0), p@));
    while i < names.len()
        invariant
            i <= names@.len(),
            string_views(out@) == prefixed(str_views(names@).subrange(0, i as int), p@),
        decreases names@.len() - i,
    {
        let ghost before = string_views(out@);
        let c = chars_of(names[i]);
        assert(str_views(names@).subrange(0, i + 1).drop_last() =~= str_views(names@).subrange(0, i as int));
        if chars_start_with(c.as_slice(), p) {
            out.push(string_from_chars(c.as_slice()));
            assert(string_views(out@) =~= before + seq![c@]);
        } else {
            assert(string_views(out@) =~= before + Seq::<Seq<char>>::empty());
        }
        i = i + 1;
    }
    assert(str_views(names@).subrange(0, i as int) =~= str_views(names@));
    out
}

/// Completes server console commands.
pub struct ServerCompleter {
    pub commands: Vec<&'static str>,
}

impl ServerCompleter {
    pub fn new() -> (r: ServerCompleter)
        ensures
            r.commands@ == names_spec(crate::server_commands::all_spec()),
    {
        ServerCompleter { commands: crate::server_commands::completion_names() }
    }

    /// The commands that complete `line`, once leading whitespace is dropped;
    /// none unless it starts with `/`.
    pub fn get_candidates(&self, line: &str) -> (r: Vec<String>)
        ensures
            string_views(r@) == if trim_start(line@).len() > 0 && trim_start(line@)[0] == '/' {
                prefixed(str_views(self.commands@), trim_start(line@))
            } else {
                Seq::empty()
            },
    {
        let t = leading_trimmed(line);
        if t.len() > 0 && t[0] == '/' {
            filter_names(&self.commands, t.as_slice())
        } else {
            let r: Vec<String> = Vec::new();
            assert(string_views(r@) =~= Seq::<Seq<char>>::empty());
            r
        }
    }
}

/// The number of spaces in `s`.
pub open spec fn space_count(s: Seq<char>) -> nat
    decreases s.len(),
{
    if s.len() == 0 {
        0
    } else {
        space_count(s.drop_last()) + if s.last() == ' ' {
            1nat
        } else {
            0nat
        }
    }
}

/// `<cmd> <user>` for each user that starts with `p`.
pub open spec fn user_completions(cmd: Seq<char>, users: Seq<Seq<char>>, p: Seq<char>) -> Seq<Seq<char>>
    decreases users.len(),
{
    if users.len() == 0 {
        Seq::empty()
    } else {
        user_completions(cmd, users.drop_last(), p) + if has_prefix(users.last(), p) {
            seq![cmd + seq![' '] + users.last()]
        } else {
            Seq::empty()
        }
    }
}

/// Completes client commands, and user names after `/dm ` and `/send `.
pub struct ClientCompleter {
    pub commands: Vec<&'static str>,
}

pub open spec fn client_candidates(commands: Seq<Seq<char>>, users: Seq<Seq<char>>, line: Seq<char>) -> Seq<Seq<char>> {
    let t = trim_start(line);
    let k = if has_prefix(t, "/dm "@) {
        3int
    } else {
        5int
    };
    if (has_prefix(t, "/dm "@) || has_prefix(t, "/send "@)) && space_count(t) == 1 {
        user_completions(t.subrange(0, k), users, t.subrange(k + 1, t.len() as int))
    } else if t.len() > 0 && t[0] == '/' {
        prefixed(commands, t)
    } else {
        Seq::empty()
    }
}

fn count_spaces(s: &[char]) -> (r: usize)
    ensures
        r == space_count(s@),
{
    let mut c: usize = 0;
    let mut i: usize = 0;
    while i < s.len()
        invariant
            i <= s@.len(),
            c == space_count(s@.subrange(0, i as int)),
            c <= i,
        decreases s@.len() - i,
    {
        assert(s@.subrange(0, i + 1).drop_last() =~= s@.subrange(0, i as int));
        if s[i] == ' ' {
            c = c + 1;
        }
        i = i + 1;
    }
    assert(s@.subrange(0, i as int) =~= s@);
    c
}

impl ClientCompleter {
    pub fn new() -> (r: ClientCompleter)
        ensures
            str_views(r.commands@) == seq!["/help"@, "/quit"@, "/list"@, "/dm"@, "/r"@, "/send"@, "/rename"@],
    {
        let mut v: Vec<&'static str> = Vec::new();
        v.push("/help");
        v.push("/quit");
        v.push("/list");
        v.push("/dm");
        v.push("/r");
        v.push("/send");
        v.push("/rename");
        assert(str_views(v@) =~= seq!["/help"@, "/quit"@, "/list"@, "/dm"@, "/r"@, "/send"@, "/rename"@]);
        ClientCompleter { commands: v }
    }

    /// Candidates for `line`, given the users currently online.
    pub fn get_candidates(&self, line: &str, users: &Vec<String>) -> (r: Vec<String>)
        ensures
            string_views(r@) == client_candidates(str_views(self.commands@), string_views(users@), line@),
    {
        let t = leading_trimmed(line);
        proof {
            reveal_strlit("/dm ");
            reveal_strlit("/send ");
        }
        let dm = chars_start_with(t.as_slice(), chars_of("/dm ").as_slice());
        let send = chars_start_with(t.as_slice(), chars_of("/send ").as_slice());
        if (dm || send) && count_spaces(t.as_slice()) == 1 {
            let k: usize = if dm {
                3
            } else {
                5
            };
            let mut cmd: Vec<char> = Vec::new();
            let mut i: usize = 0;
            while i < k
                invariant
                    k <= t@.len(),
                    i <= k,
                    cmd@ == t@.subrange(0, i as int),
                decreases k - i,
            {
                cmd.push(t[i]);
                i = i + 1;
                assert(cmd@ =~= t@.subrange(0, i as int));
            }
            let mut p: Vec<char> = Vec::new();
            let mut j: usize = k + 1;
            while j < t.len()
                invariant
                    k + 1 <= j <= t@.len(),
                    p@ == t@.subrange(k + 1, j as int),
                decreases t@.len() - j,
            {
                p.push(t[j]);
                j = j + 1;
                assert(p@ =~= t@.subrange(k + 1, j as int));
            }
            let ghost uv = string_views(users@);
            let mut out: Vec<String> = Vec::new();
            let mut u: usize = 0;
            assert(uv.subrange(0, 0) =~= Seq::<Seq<char>>::empty());
            assert(string_views(out@) =~= user_completions(cmd@, uv.subrange(0, 0), p@));
            while u < users.len()
                invariant
                    uv == string_views(users@),
                    u <= users@.len(),
                    string_views(out@) == user_completions(cmd@, uv.subrange(0, u as int), p@),
                decreases users@.len() - u,
            {
                let ghost before = string_views(out@);
                let name = chars_of(users[u].as_str());
                assert(uv.subrange(0, u + 1).drop_last() =~= uv.subrange(0, u as int));
                assert(uv[u as int] == name@);
                if chars_start_with(name.as_slice(), p.as_slice()) {
                    let mut line_out: Vec<char> = Vec::new();
                    push_chars(&mut line_out, cmd.as_slice());
                    line_out.push(' ');
                    push_chars(&mut line_out, name.as_slice());
                    assert(line_out@ =~= cmd@ + seq![' '] + name@);
                    out.push(string_from_chars(line_out.as_slice()));
                    assert(string_views(out@) =~= before + seq![cmd@ + seq![' '] + name@]);
                } else {
                    assert(before + Seq::<Seq<char>>::empty() =~= before);
                }
                u = u + 1;
            }
            assert(uv.subrange(0, u as int) =~= uv);
            out
        } else if t.len() > 0 && t[0] == '/' {
            filter_names(&self.commands, t.as_slice())
        } else {
            let r: Vec<String> = Vec::new();
            assert(string_views(r@) =~= Seq::<Seq<char>>::empty());
            r
        }
    }
}

} // verus!
