//! Command metadata shared by the client's and the server's consoles.

use vstd::prelude::*;
use crate::text::{push_str, str_eq, string_from_chars};

verus! {

/// A console command: its name, an optional alias, a description for help
/// text and an optional usage hint.
#[derive(Debug, Clone, Copy)]
pub struct Command {
    pub name: &'static str,
    pub alias: Option<&'static str>,
    pub description: &'static str,
    pub usage: Option<&'static str>,
}

/// The help line of a command: `<name>[ (<alias>)][ <usage>] - <description>`.
pub open spec fn help_line_spec(c: Command) -> Seq<char> {
    c.name@ + match c.alias {
        Some(a) => " ("@ + a@ + ")"@,
        None => Seq::empty(),
    } + match c.usage {
        Some(u) => " "@ + u@,
        None => Seq::empty(),
    } + " - "@ + c.description@
}

impl Command {
    pub fn new(name: &'static str) -> (r: Self)
        ensures
            r.name == name,
            r.alias is None,
            r.description@ == ""@,
            r.usage is None,
    {
        Command { name, alias: None, description: "", usage: None }
    }

    pub fn with_alias(self, alias: &'static str) -> (r: Self)
        ensures
            r == (Command { alias: Some(alias), ..self }),
    {
        Command { alias: Some(alias), ..self }
    }

    pub fn with_description(self, description: &'static str) -> (r: Self)
        ensures
            r == (Command { description, ..self }),
    {
        Command { description, ..self }
    }

    pub fn with_usage(self, usage: &'static str) -> (r: Self)
        ensures
            r == (Command { usage: Some(usage), ..self }),
    {
        Command { usage: Some(usage), ..self }
    }

    /// The name, then the alias if there is one.
    pub fn all_names(&self) -> (r: Vec<&'static str>)
        ensures
            r@ == match self.alias {
                Some(a) => seq![self.name, a],
                None => seq![self.name],
            },
    {
        let mut names: Vec<&'static str> = Vec::new();
        names.push(self.name);
        if let Some(alias) = self.alias {
            names.push(alias);
        }
        names
    }

    /// Whether `cmd` is this command's name or alias.
    pub fn matches(&self, cmd: &str) -> (r: bool)
        ensures
            r == (cmd@ == self.name@ || (self.alias matches Some(a) && cmd@ == a@)),
    {
        if str_eq(cmd, self.name) {
            return true;
        }
        match self.alias {
            Some(a) => str_eq(cmd, a),
            None => false,
        }
    }

    pub fn help_line(&self) -> (r: String)
        ensures
            r@ == help_line_spec(*self),
    {
        let mut line: Vec<char> = Vec::new();
        push_str(&mut line, self.name);
        if let Some(alias) = self.alias {
            push_str(&mut line, " (");
            push_str(&mut line, alias);
            push_str(&mut line, ")");
        }
        if let Some(usage) = self.usage {
            push_str(&mut line, " ");
            push_str(&mut line, usage);
        }
        push_str(&mut line, " - ");
        push_str(&mut line, self.description);
        let r = string_from_chars(line.as_slice());
        assert(r@ =~= help_line_spec(*self));
        r
    }
}

/// Two spaces, then the command's help line.
pub open spec fn help_entry_spec(c: Command) -> Seq<char> {
    "  "@ + help_line_spec(c)
}

/// A heading followed by one indented help line per command.
pub fn help_lines(heading: &str, cmds: &[Command]) -> (r: Vec<String>)
    ensures
        r@.len() == cmds@.len() + 1,
        r@[0]@ == heading@,
        forall|i: int| 0 <= i < cmds@.len() ==> (#[trigger] r@[i + 1])@ == help_entry_spec(cmds@[i]),
{
    let mut h: Vec<char> = Vec::new();
    push_str(&mut h, heading);
    let mut lines: Vec<String> = Vec::new();
    lines.push(string_from_chars(h.as_slice()));
    let mut i: usize = 0;
    while i < cmds.len()
        invariant
            i <= cmds@.len(),
            lines@.len() == i + 1,
            lines@[0]@ == heading@,
            forall|j: int| 0 <= j < i ==> (#[trigger] lines@[j + 1])@ == help_entry_spec(cmds@[j]),
        decreases cmds@.len() - i,
    {
        let mut v: Vec<char> = Vec::new();
        push_str(&mut v, "  ");
        push_str(&mut v, cmds[i].help_line().as_str());
        lines.push(string_from_chars(v.as_slice()));
        i = i + 1;
    }
    lines
}

/// Every name and alias of `cmds`, in order.
pub fn names_of(cmds: &[Command]) -> (r: Vec<&'static str>)
    ensures
        r@ == names_spec(cmds@),
{
    let mut out: Vec<&'static str> = Vec::new();
    let mut i: usize = 0;
    while i < cmds.len()
        invariant
            i <= cmds@.len(),
            out@ == names_spec(cmds@.subrange(0, i as int)),
        decreases cmds@.len() - i,
    {
        let names = cmds[i].all_names();
        out.push(names[0]);
        if names.len() > 1 {
            out.push(names[1]);
        }
        assert(cmds@.subrange(0, i + 1).drop_last() =~= cmds@.subrange(0, i as int));
        i = i + 1;
    }
    assert(cmds@.subrange(0, i as int) =~= cmds@);
    out
}

/// Every name and alias of `cmds`, in order.
pub open spec fn names_spec(cmds: Seq<Command>) -> Seq<&'static str>
    decreases cmds.len(),
{
    if cmds.len() == 0 {
        Seq::empty()
    } else {
        names_spec(cmds.drop_last()) + match cmds.last().alias {
            Some(a) => seq![cmds.last().name, a],
            None => seq![cmds.last().name],
        }
    }
}

} // verus!
