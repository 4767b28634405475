//! The server's shared registries, the effects a connection handler asks the
//! runtime to perform, the control plane, and teardown.

use vstd::prelude::*;
use vstd::string::StringSliceAdditionalSpecFns;
use crate::bytes::concat;
use crate::message::{ChatMessage, MessageView};
use crate::names::{NameSet, NameMap, valid_username, is_valid_username};

verus! {

/// Longest name a connection can hold: a valid name with a random suffix.
pub const MAX_HELD_NAME: usize = 64;

/// A peer's network address without its port.
#[derive(Debug, Clone, Copy, PartialEq, Eq, Structural, Hash)]
pub struct PeerIp {
    pub is_v6: bool,
    pub bits: u128,
}

impl View for PeerIp {
    type V = PeerIp;

    open spec fn view(&self) -> PeerIp {
        *self
    }
}

/// Administrator commands carried on the control channel.
#[derive(Debug, Clone)]
pub enum ServerCommand {
    Kick(Vec<u8>),
    Rename { old_name: Vec<u8>, new_name: Vec<u8> },
    Ban(PeerIp),
    /// The name is reclaimed by connection `.1`; any other holder leaves.
    SessionTakeover(Vec<u8>, u64),
}

pub enum CommandView {
    Kick(Seq<u8>),
    Rename(Seq<u8>, Seq<u8>),
    Ban(PeerIp),
    SessionTakeover(Seq<u8>, u64),
}

impl View for ServerCommand {
    type V = CommandView;

    open spec fn view(&self) -> CommandView {
        match self {
            ServerCommand::Kick(n) => CommandView::Kick(n@),
            ServerCommand::Rename { old_name, new_name } => CommandView::Rename(old_name@, new_name@),
            ServerCommand::Ban(ip) => CommandView::Ban(*ip),
            ServerCommand::SessionTakeover(n, by) => CommandView::SessionTakeover(n@, *by),
        }
    }
}

/// Something a handler asks the runtime to do, in order.
#[derive(Debug, Clone)]
pub enum Effect {
    /// Write a message to this connection's peer.
    Reply(ChatMessage),
    /// Enqueue a message on the broadcast channel.
    Broadcast(ChatMessage),
    /// Emit a command on the control channel.
    Control(ServerCommand),
}

pub enum EffectView {
    Reply(MessageView),
    Broadcast(MessageView),
    Control(CommandView),
}

impl View for Effect {
    type V = EffectView;

    open spec fn view(&self) -> EffectView {
        match self {
            Effect::Reply(m) => EffectView::Reply(m@),
            Effect::Broadcast(m) => EffectView::Broadcast(m@),
            Effect::Control(c) => EffectView::Control(c@),
        }
    }
}

pub open spec fn effects_view(s: Seq<Effect>) -> Seq<EffectView> {
    s.map_values(|e: Effect| e@)
}

#[derive(Debug, Clone, Copy, PartialEq, Eq, Structural)]
pub enum UserConnectionError {
    IoError,
    BroadcastError,
    JoinError,
    InvalidMessage,
    ExplicitQuit,
    VersionMismatch,
}

impl UserConnectionError {
    /// Errors after which the handler leaves its loop.
    pub open spec fn is_fatal(self) -> bool {
        !(self is InvalidMessage)
    }

    pub fn ends_connection(&self) -> (r: bool)
        ensures
            r == self.is_fatal(),
    {
        !matches!(self, UserConnectionError::InvalidMessage)
    }
}

/// What handling one frame produced: effects to perform, then a verdict.
pub struct Outcome {
    pub effects: Vec<Effect>,
    pub result: Result<(), UserConnectionError>,
}

/// The process-wide registries.
pub struct Registry {
    pub users: NameSet,
    pub user_ips: NameMap<PeerIp>,
    pub user_statuses: NameMap<Vec<u8>>,
    pub user_sessions: NameMap<Vec<u8>>,
    pub banned_ips: Vec<PeerIp>,
}

pub struct RegistryView {
    pub users: Set<Seq<u8>>,
    pub ips: Map<Seq<u8>, PeerIp>,
    pub statuses: Map<Seq<u8>, Seq<u8>>,
    pub sessions: Map<Seq<u8>, Seq<u8>>,
    pub banned: Set<PeerIp>,
}

impl View for Registry {
    type V = RegistryView;

    open spec fn view(&self) -> RegistryView {
        RegistryView {
            users: self.users@,
            ips: self.user_ips@,
            statuses: self.user_statuses@,
            sessions: self.user_sessions@,
            banned: self.banned_ips@.to_set(),
        }
    }
}

/// Whether the connection asked to be admitted is refused, and why.
#[derive(Debug, Clone, Copy, PartialEq, Eq, Structural)]
pub enum Admission {
    Accept,
    Banned,
    Full,
}

#[derive(Debug, Clone, Copy, PartialEq, Eq, Structural)]
pub enum AdminError {
    UserNotFound,
    NameTaken,
    InvalidName,
    AlreadyBanned,
    NotBanned,
}

impl Registry {
    /// Each container keeps its keys unique, the claimed names are exactly
    /// the names with a recorded address, and none is longer than a
    /// connection can hold.
    pub open spec fn wf(&self) -> bool {
        &&& self.users.wf()
        &&& self.user_ips.wf()
        &&& self.user_statuses.wf()
        &&& self.user_sessions.wf()
        &&& self.users@ == self.user_ips@.dom()
        &&& forall|n: Seq<u8>| #[trigger] self.users@.contains(n) ==> n.len() <= MAX_HELD_NAME
    }

    pub fn new() -> (r: Registry)
        ensures
            r.wf(),
            r@.users.is_empty(),
            r@.ips.is_empty(),
            r@.statuses.is_empty(),
            r@.sessions.is_empty(),
            r@.banned.is_empty(),
    {
        let r = Registry {
            users: NameSet::new(),
            user_ips: NameMap::new(),
            user_statuses: NameMap::new(),
            user_sessions: NameMap::new(),
            banned_ips: Vec::new(),
        };
        assert(r.user_ips@.dom() =~= Set::<Seq<u8>>::empty());
        assert(r@.banned =~= Set::<PeerIp>::empty());
        r
    }

    pub fn is_banned(&self, ip: PeerIp) -> (r: bool)
        ensures
            r == self@.banned.contains(ip),
    {
        let mut i: usize = 0;
        while i < self.banned_ips.len()
            invariant
                i <= self.banned_ips@.len(),
                forall|j: int| 0 <= j < i ==> self.banned_ips@[j] != ip,
            decreases self.banned_ips@.len() - i,
        {
            if self.banned_ips[i] == ip {
                assert(self.banned_ips@.contains(ip));
                return true;
            }
            i = i + 1;
        }
        false
    }

    /// Decides on a new connection from `ip` while `current` are open: banned
    /// addresses are refused first, then any beyond the cap.
    pub fn admission(&self, ip: PeerIp, current: usize, max_clients: usize) -> (r: Admission)
        ensures
            r == (if self@.banned.contains(ip) {
                Admission::Banned
            } else if current >= max_clients {
                Admission::Full
            } else {
                Admission::Accept
            }),
    {
        if self.is_banned(ip) {
            Admission::Banned
        } else if current >= max_clients {
            Admission::Full
        } else {
            Admission::Accept
        }
    }

    /// Bans `ip`; the command that disconnects its holders is handed back.
    pub fn ban_ip(&mut self, ip: PeerIp) -> (r: Result<ServerCommand, AdminError>)
        requires
            old(self).wf(),
        ensures
            final(self).wf(),
            final(self)@.banned == old(self)@.banned.insert(ip),
            final(self)@.users == old(self)@.users,
            final(self)@.ips == old(self)@.ips,
            final(self)@.statuses == old(self)@.statuses,
            final(self)@.sessions == old(self)@.sessions,
            r is Err <==> old(self)@.banned.contains(ip),
            r matches Err(e) ==> e == AdminError::AlreadyBanned,
            r matches Ok(c) ==> c@ == CommandView::Ban(ip),
    {
        if self.is_banned(ip) {
            assert(self@.banned =~= old(self)@.banned.insert(ip));
            return Err(AdminError::AlreadyBanned);
        }
        self.banned_ips.push(ip);
        assert(self.banned_ips@ == old(self).banned_ips@.push(ip));
        assert(self@.banned =~= old(self)@.banned.insert(ip)) by {
            assert forall|x: PeerIp| self@.banned.contains(x) == old(self)@.banned.insert(ip).contains(x) by {
                if old(self).banned_ips@.contains(x) {
                    let j = choose|j: int| 0 <= j < old(self).banned_ips@.len() && old(self).banned_ips@[j] == x;
                    assert(self.banned_ips@[j] == x);
                }
                if self.banned_ips@.contains(x) && x != ip {
                    let j = choose|j: int| 0 <= j < self.banned_ips@.len() && self.banned_ips@[j] == x;
                    assert(old(self).banned_ips@[j] == x);
                }
                if x == ip {
                    assert(self.banned_ips@[self.banned_ips@.len() - 1] == x);
                }
            }
        }
        Ok(ServerCommand::Ban(ip))
    }

    /// Bans the address recorded for `name`.
    pub fn ban_user(&mut self, name: &[u8]) -> (r: Result<ServerCommand, AdminError>)
        requires
            old(self).wf(),
        ensures
            final(self).wf(),
            !old(self)@.ips.contains_key(name@) ==> r == Err::<ServerCommand, AdminError>(
                AdminError::UserNotFound,
            ) && final(self)@ == old(self)@,
            old(self)@.ips.contains_key(name@) ==> {
                let ip = old(self)@.ips[name@];
                &&& final(self)@.banned == old(self)@.banned.insert(ip)
                &&& (r is Err <==> old(self)@.banned.contains(ip))
                &&& (r matches Ok(c) ==> c@ == CommandView::Ban(ip))
            },
            final(self)@.users == old(self)@.users,
            final(self)@.ips == old(self)@.ips,
            final(self)@.statuses == old(self)@.statuses,
            final(self)@.sessions == old(self)@.sessions,
    {
        let ip = match self.user_ips.get(name) {
            Some(ip) => *ip,
            None => return Err(AdminError::UserNotFound),
        };
        self.ban_ip(ip)
    }

    /// Lifts the ban on `ip`.
    pub fn unban_ip(&mut self, ip: PeerIp) -> (r: Result<(), AdminError>)
        requires
            old(self).wf(),
        ensures
            final(self).wf(),
            final(self)@.banned == old(self)@.banned.remove(ip),
            final(self)@.users == old(self)@.users,
            final(self)@.ips == old(self)@.ips,
            final(self)@.statuses == old(self)@.statuses,
            final(self)@.sessions == old(self)@.sessions,
            r is Err <==> !old(self)@.banned.contains(ip),
            r matches Err(e) ==> e == AdminError::NotBanned,
    {
        let mut kept: Vec<PeerIp> = Vec::new();
        let mut found = false;
        let mut i: usize = 0;
        while i < self.banned_ips.len()
            invariant
                i <= self.banned_ips@.len(),
                found == self.banned_ips@.subrange(0, i as int).contains(ip),
                forall|x: PeerIp| kept@.contains(x) <==> (x != ip
                    && self.banned_ips@.subrange(0, i as int).contains(x)),
            decreases self.banned_ips@.len() - i,
        {
            let x = self.banned_ips[i];
            let ghost pre = self.banned_ips@.subrange(0, i as int);
            let ghost kept_before = kept@;
            assert(self.banned_ips@.subrange(0, i + 1) =~= pre.push(x));
            if x == ip {
                found = true;
            } else {
                kept.push(x);
            }
            i = i + 1;
            assert forall|y: PeerIp| kept@.contains(y) <==> (y != ip
                && self.banned_ips@.subrange(0, i as int).contains(y)) by {
                lemma_push_contains(pre, x, y);
                lemma_push_contains(kept_before, x, y);
            }
            proof {
                lemma_push_contains(pre, x, ip);
            }
        }
        assert(self.banned_ips@.subrange(0, i as int) =~= self.banned_ips@);
        self.banned_ips = kept;
        assert(self@.banned =~= old(self)@.banned.remove(ip));
        if found {
            Ok(())
        } else {
            Err(AdminError::NotBanned)
        }
    }

    /// Moves a claimed name to a new one: the name itself, its address and its
    /// status move together.
    pub fn move_name(&mut self, old_name: &[u8], new_name: Vec<u8>)
        requires
            old(self).wf(),
            old(self)@.users.contains(old_name@),
            !old(self)@.users.contains(new_name@),
            new_name@.len() <= MAX_HELD_NAME,
        ensures
            final(self).wf(),
            final(self)@ == move_spec(old(self)@, old_name@, new_name@),
    {
        let ghost nn = new_name@;
        self.users.remove(old_name);
        let k2 = concat(new_name.as_slice(), &[]);
        assert(k2@ =~= nn);
        self.users.insert(k2);
        let ip = self.user_ips.remove(old_name);
        match ip {
            Some(ip) => {
                let k3 = concat(new_name.as_slice(), &[]);
                assert(k3@ =~= nn);
                self.user_ips.insert(k3, ip);
            },
            None => {},
        }
        let st = self.user_statuses.remove(old_name);
        match st {
            Some(st) => {
                self.user_statuses.insert(new_name, st);
            },
            None => {},
        }
        assert(self.user_ips@.dom() =~= self.users@);
        assert(self@.users =~= move_spec(old(self)@, old_name@, nn).users);
        assert(self@.ips =~= move_spec(old(self)@, old_name@, nn).ips);
        assert(self@.statuses =~= move_spec(old(self)@, old_name@, nn).statuses);
    }

    /// The administrator's rename: checks the names, then moves the name; the
    /// command that tells the owning handler is handed back.
    pub fn admin_rename(&mut self, old_name: &[u8], new_name: &[u8]) -> (r: Result<
        ServerCommand,
        AdminError,
    >)
        requires
            old(self).wf(),
        ensures
            final(self).wf(),
            r is Ok <==> admin_rename_error(old(self)@, old_name@, new_name@) is None,
            r matches Err(e) ==> admin_rename_error(old(self)@, old_name@, new_name@) == Some(e),
            r is Ok ==> final(self)@ == move_spec(old(self)@, old_name@, new_name@),
            r is Err ==> final(self)@ == old(self)@,
            r matches Ok(c) ==> c@ == CommandView::Rename(old_name@, new_name@),
    {
        if !self.users.contains(old_name) {
            return Err(AdminError::UserNotFound);
        }
        if self.users.contains(new_name) {
            return Err(AdminError::NameTaken);
        }
        if !is_valid_username(new_name) {
            return Err(AdminError::InvalidName);
        }
        let n = concat(new_name, &[]);
        assert(n@ =~= new_name@);
        self.move_name(old_name, n);
        let o2 = concat(old_name, &[]);
        let n2 = concat(new_name, &[]);
        assert(o2@ =~= old_name@);
        assert(n2@ =~= new_name@);
        Ok(ServerCommand::Rename { old_name: o2, new_name: n2 })
    }

    /// The command that kicks `name`, if it is claimed.
    pub fn kick(&self, name: &[u8]) -> (r: Result<ServerCommand, AdminError>)
        requires
            self.wf(),
        ensures
            r is Ok <==> self@.users.contains(name@),
            r matches Ok(c) ==> c@ == CommandView::Kick(name@),
            r matches Err(e) ==> e == AdminError::UserNotFound,
    {
        if self.users.contains(name) {
            let n = concat(name, &[]);
            assert(n@ =~= name@);
            Ok(ServerCommand::Kick(n))
        } else {
            Err(AdminError::UserNotFound)
        }
    }
}

proof fn lemma_push_contains<T>(s: Seq<T>, x: T, y: T)
    ensures
        s.push(x).contains(y) <==> (s.contains(y) || y == x),
{
    if s.push(x).contains(y) {
        let j = choose|j: int| 0 <= j < s.push(x).len() && s.push(x)[j] == y;
        if j < s.len() {
            assert(s[j] == y);
        }
    }
    if s.contains(y) {
        let j = choose|j: int| 0 <= j < s.len() && s[j] == y;
        assert(s.push(x)[j] == y);
    }
    if y == x {
        assert(s.push(x)[s.len() as int] == y);
    }
}

/// The registries after `o` is renamed to `n`.
pub open spec fn move_spec(r: RegistryView, o: Seq<u8>, n: Seq<u8>) -> RegistryView {
    RegistryView {
        users: r.users.remove(o).insert(n),
        ips: if r.ips.contains_key(o) {
            r.ips.remove(o).insert(n, r.ips[o])
        } else {
            r.ips.remove(o)
        },
        statuses: if r.statuses.contains_key(o) {
            r.statuses.remove(o).insert(n, r.statuses[o])
        } else {
            r.statuses.remove(o)
        },
        sessions: r.sessions,
        banned: r.banned,
    }
}

/// Why an administrator's rename of `o` to `n` is refused, if it is.
pub open spec fn admin_rename_error(r: RegistryView, o: Seq<u8>, n: Seq<u8>) -> Option<AdminError> {
    if !r.users.contains(o) {
        Some(AdminError::UserNotFound)
    } else if r.users.contains(n) {
        Some(AdminError::NameTaken)
    } else if !valid_username(n) {
        Some(AdminError::InvalidName)
    } else {
        None
    }
}

} // verus!
