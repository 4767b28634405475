//! Commands of the server's administrator console.

use vstd::prelude::*;
use crate::commands::{Command, names_of, names_spec, help_lines, help_entry_spec};

verus! {

pub open spec fn help_spec() -> Command {
    Command { name: "/help", alias: Some("/h"), description: "Show this help message", usage: None }
}

pub fn help() -> (r: Command)
    ensures
        r == help_spec(),
{
    Command { name: "/help", alias: Some("/h"), description: "Show this help message", usage: None }
}

pub open spec fn quit_spec() -> Command {
    Command { name: "/quit", alias: Some("/q"), description: "Shutdown the server", usage: None }
}

pub fn quit() -> (r: Command)
    ensures
        r == quit_spec(),
{
    Command { name: "/quit", alias: Some("/q"), description: "Shutdown the server", usage: None }
}

pub open spec fn list_spec() -> Command {
    Command { name: "/list", alias: None, description: "List all connected users", usage: None }
}

pub fn list() -> (r: Command)
    ensures
        r == list_spec(),
{
    Command { name: "/list", alias: None, description: "List all connected users", usage: None }
}

pub open spec fn kick_spec() -> Command {
    Command { name: "/kick", alias: None, description: "Kick a user from the server", usage: Some("<user>") }
}

pub fn kick() -> (r: Command)
    ensures
        r == kick_spec(),
{
    Command { name: "/kick", alias: None, description: "Kick a user from the server", usage: Some("<user>") }
}

pub open spec fn rename_spec() -> Command {
    Command { name: "/rename", alias: None, description: "Rename a user", usage: Some("<user> <newname>") }
}

pub fn rename() -> (r: Command)
    ensures
        r == rename_spec(),
{
    Command { name: "/rename", alias: None, description: "Rename a user", usage: Some("<user> <newname>") }
}

pub open spec fn ban_spec() -> Command {
    Command { name: "/ban", alias: None, description: "Ban a user by name or IP address", usage: Some("<user|ip>") }
}

pub fn ban() -> (r: Command)
    ensures
        r == ban_spec(),
{
    Command { name: "/ban", alias: None, description: "Ban a user by name or IP address", usage: Some("<user|ip>") }
}

pub open spec fn unban_spec() -> Command {
    Command { name: "/unban", alias: None, description: "Unban an IP address", usage: Some("<ip>") }
}

pub fn unban() -> (r: Command)
    ensures
        r == unban_spec(),
{
    Command { name: "/unban", alias: None, description: "Unban an IP address", usage: Some("<ip>") }
}

pub open spec fn banlist_spec() -> Command {
    Command { name: "/banlist", alias: None, description: "List all banned IPs", usage: None }
}

pub fn banlist() -> (r: Command)
    ensures
        r == banlist_spec(),
{
    Command { name: "/banlist", alias: None, description: "List all banned IPs", usage: None }
}

/// The commands offered for completion.
pub open spec fn all_spec() -> Seq<Command> {
    seq![list_spec(), kick_spec(), rename_spec(), ban_spec(), unban_spec(), banlist_spec(), help_spec(), quit_spec()]
}

pub fn all() -> (r: Vec<Command>)
    ensures
        r@ == all_spec(),
{
    let mut v: Vec<Command> = Vec::new();
    v.push(list());
    v.push(kick());
    v.push(rename());
    v.push(ban());
    v.push(unban());
    v.push(banlist());
    v.push(help());
    v.push(quit());
    assert(v@ =~= all_spec());
    v
}

/// Every name and alias, for completion.
pub fn completion_names() -> (r: Vec<&'static str>)
    ensures
        r@ == names_spec(all_spec()),
{
    let cmds = all();
    names_of(cmds.as_slice())
}

/// The heading, then one indented line per command.
pub fn help_text() -> (r: Vec<String>)
    ensures
        r@.len() == all_spec().len() + 1,
        r@[0]@ == "Available server commands:"@,
        forall|i: int| 0 <= i < all_spec().len() ==> (#[trigger] r@[i + 1])@ == help_entry_spec(all_spec()[i]),
{
    let cmds = all();
    help_lines("Available server commands:", cmds.as_slice())
}

} // verus!
