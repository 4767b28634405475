//! Commands of the chat client's console.

use vstd::prelude::*;
use crate::commands::{Command, names_of, names_spec, help_lines, help_entry_spec};

verus! {

pub open spec fn help_spec() -> Command {
    Command { name: "/help", alias: None, description: "Show this help message", usage: None }
}

pub fn help() -> (r: Command)
    ensures
        r == help_spec(),
{
    Command { name: "/help", alias: None, description: "Show this help message", usage: None }
}

pub open spec fn quit_spec() -> Command {
    Command { name: "/quit", alias: None, description: "Exit the chat", usage: None }
}

pub fn quit() -> (r: Command)
    ensures
        r == quit_spec(),
{
    Command { name: "/quit", alias: None, description: "Exit the chat", usage: None }
}

pub open spec fn list_spec() -> Command {
    Command { name: "/list", alias: None, description: "List all users (with statuses)", usage: None }
}

pub fn list() -> (r: Command)
    ensures
        r == list_spec(),
{
    Command { name: "/list", alias: None, description: "List all users (with statuses)", usage: None }
}

pub open spec fn dm_spec() -> Command {
    Command { name: "/dm", alias: None, description: "Send direct message", usage: Some("<username> <message>") }
}

pub fn dm() -> (r: Command)
    ensures
        r == dm_spec(),
{
    Command { name: "/dm", alias: None, description: "Send direct message", usage: Some("<username> <message>") }
}

pub open spec fn reply_spec() -> Command {
    Command { name: "/r", alias: None, description: "Reply to last direct message", usage: Some("<message>") }
}

pub fn reply() -> (r: Command)
    ensures
        r == reply_spec(),
{
    Command { name: "/r", alias: None, description: "Reply to last direct message", usage: Some("<message>") }
}

pub open spec fn send_spec() -> Command {
    Command { name: "/send", alias: None, description: "Send a file (max 10MB)", usage: Some("<username> <filepath>") }
}

pub fn send() -> (r: Command)
    ensures
        r == send_spec(),
{
    Command { name: "/send", alias: None, description: "Send a file (max 10MB)", usage: Some("<username> <filepath>") }
}

pub open spec fn accept_spec() -> Command {
    Command { name: "/accept", alias: None, description: "Accept a pending file transfer", usage: Some("<username>") }
}

pub fn accept() -> (r: Command)
    ensures
        r == accept_spec(),
{
    Command { name: "/accept", alias: None, description: "Accept a pending file transfer", usage: Some("<username>") }
}

pub open spec fn reject_spec() -> Command {
    Command { name: "/reject", alias: None, description: "Reject a pending file transfer", usage: Some("<username>") }
}

pub fn reject() -> (r: Command)
    ensures
        r == reject_spec(),
{
    Command { name: "/reject", alias: None, description: "Reject a pending file transfer", usage: Some("<username>") }
}

pub open spec fn rename_spec() -> Command {
    Command { name: "/rename", alias: None, description: "Change your username", usage: Some("<new_name>") }
}

pub fn rename() -> (r: Command)
    ensures
        r == rename_spec(),
{
    Command { name: "/rename", alias: None, description: "Change your username", usage: Some("<new_name>") }
}

pub open spec fn status_spec() -> Command {
    Command { name: "/status", alias: None, description: "Set your status (visible in /list)", usage: Some("<message>") }
}

pub fn status() -> (r: Command)
    ensures
        r == status_spec(),
{
    Command { name: "/status", alias: None, description: "Set your status (visible in /list)", usage: Some("<message>") }
}

pub open spec fn status_clear_spec() -> Command {
    Command { name: "/status", alias: None, description: "Clear your status", usage: None }
}

pub fn status_clear() -> (r: Command)
    ensures
        r == status_clear_spec(),
{
    Command { name: "/status", alias: None, description: "Clear your status", usage: None }
}

/// The commands offered for completion.
pub open spec fn all_spec() -> Seq<Command> {
    seq![help_spec(), list_spec(), dm_spec(), reply_spec(), send_spec(), rename_spec(), status_spec(), quit_spec()]
}

pub fn all() -> (r: Vec<Command>)
    ensures
        r@ == all_spec(),
{
    let mut v: Vec<Command> = Vec::new();
    v.push(help());
    v.push(list());
    v.push(dm());
    v.push(reply());
    v.push(send());
    v.push(rename());
    v.push(status());
    v.push(quit());
    assert(v@ =~= all_spec());
    v
}

/// The commands listed in the help text.
pub open spec fn help_entries_spec() -> Seq<Command> {
    seq![help_spec(), list_spec(), dm_spec(), reply_spec(), send_spec(), accept_spec(), reject_spec(), rename_spec(), status_spec(), status_clear_spec(), quit_spec()]
}

pub fn help_entries() -> (r: Vec<Command>)
    ensures
        r@ == help_entries_spec(),
{
    let mut v: Vec<Command> = Vec::new();
    v.push(help());
    v.push(list());
    v.push(dm());
    v.push(reply());
    v.push(send());
    v.push(accept());
    v.push(reject());
    v.push(rename());
    v.push(status());
    v.push(status_clear());
    v.push(quit());
    assert(v@ =~= help_entries_spec());
    v
}

/// Every name and alias, for completion.
pub fn completion_names() -> (r: Vec<&'static str>)
    ensures
        r@ == names_spec(all_spec()),
{
    let cmds = all();
    names_of(cmds.as_slice())
}

/// The heading, then one indented line per command.
pub fn help_text() -> (r: Vec<String>)
    ensures
        r@.len() == help_entries_spec().len() + 1,
        r@[0]@ == "Available commands:"@,
        forall|i: int| 0 <= i < help_entries_spec().len() ==> (#[trigger] r@[i + 1])@ == help_entry_spec(help_entries_spec()[i]),
{
    let cmds = help_entries();
    help_lines("Available commands:", cmds.as_slice())
}

} // verus!
