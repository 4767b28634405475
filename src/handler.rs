//! The per-connection state machine of the server. Each function takes the
//! registries and the connection's own state, applies one event to them, and
//! hands back the effects the runtime performs, in order, and a verdict.
//! A Join is accepted with or without a VersionCheck before it.

use vstd::prelude::*;
use vstd::string::StringSliceAdditionalSpecFns;
use vstd::utf8::valid_utf8;
use crate::bytes::{lit, concat, copy_range, bytes_eq, find_byte, first_index_of, is_utf8};
use crate::frame::MAX_FRAME_SIZE;
use crate::message::{ChatMessage, MessageTypes, msg_of};
use crate::names::{valid_username, is_valid_username, name_length_ok, name_chars_ok, username_length_ok, username_chars_ok, message_length_ok, is_valid_message_length, MAX_STATUS_LENGTH};
use crate::rate_limit::{RateLimiter, RateView, consume_spec, RATE_LIMIT_MESSAGES, RATE_LIMIT_WINDOW_MS};
use crate::version::VERSION;
use crate::version::GITHUB_README_URL;
use crate::server::{PeerIp, Registry, RegistryView, Effect, EffectView, CommandView, ServerCommand, Outcome, UserConnectionError, effects_view, move_spec, MAX_HELD_NAME};

verus! {

/// One connection's own state. `id` tells connections apart, so that a
/// takeover issued by one of them ends only the others.
pub struct UserConnection {
    pub id: u64,
    pub peer_ip: PeerIp,
    pub chat_name: Option<Vec<u8>>,
    pub rate_limiter: RateLimiter,
    pub last_activity_ms: u64,
    pub clear_status_on_disconnect: bool,
    pub session_taken_over: bool,
}

pub open spec fn opt_view(o: Option<Vec<u8>>) -> Option<Seq<u8>> {
    match o {
        Some(v) => Some(v@),
        None => None,
    }
}

impl UserConnection {
    pub open spec fn name(&self) -> Option<Seq<u8>> {
        opt_view(self.chat_name)
    }

    pub open spec fn wf(&self) -> bool {
        &&& self.rate_limiter.wf()
        &&& (self.chat_name matches Some(n) ==> n@.len() <= MAX_HELD_NAME)
    }

    /// Connection `id` from `peer_ip`, accepted at `now_ms`, with a full bucket.
    pub fn new(id: u64, peer_ip: PeerIp, now_ms: u64) -> (r: UserConnection)
        ensures
            r.wf(),
            r.id == id,
            r.peer_ip == peer_ip,
            r.chat_name is None,
            r.rate_limiter@ == (RATE_LIMIT_MESSAGES, RATE_LIMIT_MESSAGES, now_ms, RATE_LIMIT_WINDOW_MS),
            r.last_activity_ms == now_ms,
            !r.clear_status_on_disconnect,
            !r.session_taken_over,
    {
        UserConnection {
            id,
            peer_ip,
            chat_name: None,
            rate_limiter: RateLimiter::new_at(RATE_LIMIT_MESSAGES, RATE_LIMIT_WINDOW_MS, now_ms),
            last_activity_ms: now_ms,
            clear_status_on_disconnect: false,
            session_taken_over: false,
        }
    }
}

/// The result of one event: registries, the connection's name, effects, verdict.
pub type Step = (RegistryView, Option<Seq<u8>>, Seq<EffectView>, Result<(), UserConnectionError>);

/// Content that is present and valid UTF-8.
pub open spec fn text_of(c: Option<Seq<u8>>) -> Option<Seq<u8>> {
    match c {
        Some(t) => if valid_utf8(t) {
            Some(t)
        } else {
            None
        },
        None => None,
    }
}

pub open spec fn reply(t: MessageTypes, c: Seq<u8>) -> EffectView {
    EffectView::Reply(msg_of(t, c))
}

pub open spec fn bcast(t: MessageTypes, c: Seq<u8>) -> EffectView {
    EffectView::Broadcast(msg_of(t, c))
}

pub open spec fn not_found_text(r: Seq<u8>) -> Seq<u8> {
    "User '".spec_bytes() + r + "' not found".spec_bytes()
}

pub open spec fn rate_limit_text() -> Seq<u8> {
    "Rate limit exceeded. Please slow down.".spec_bytes()
}

/// Splits `t` at its first `|`: the part before, and the part after if there is one.
pub open spec fn split_bar(t: Seq<u8>) -> (Seq<u8>, Option<Seq<u8>>) {
    match first_index_of(t, 124u8) {
        Some(i) => (t.subrange(0, i as int), Some(t.subrange(i + 1, t.len() as int))),
        None => (t, None),
    }
}

/// The four decimal digits of `n`.
pub open spec fn four_digits(n: u32) -> Seq<u8> {
    seq![
        (48 + n / 1000) as u8,
        (48 + (n / 100) % 10) as u8,
        (48 + (n / 10) % 10) as u8,
        (48 + n % 10) as u8,
    ]
}

/// The name offered when `name` is taken: `<name>_<four digits>`.
pub open spec fn suffixed(name: Seq<u8>, suffix: u32) -> Seq<u8> {
    name + seq![95u8] + four_digits(suffix)
}

/// Whether a Join for `name` with `token`, from `ip`, reclaims a ghost session.
pub open spec fn can_reclaim(r: RegistryView, name: Seq<u8>, token: Option<Seq<u8>>, ip: PeerIp) -> bool {
    &&& token is Some
    &&& r.sessions.contains_key(name)
    &&& r.sessions[name] == token->0
    &&& r.ips.contains_key(name)
    &&& r.ips[name] == ip
}

/// The registries after `name` is claimed from `ip`, with its token if any.
pub open spec fn claim_spec(r: RegistryView, name: Seq<u8>, token: Option<Seq<u8>>, ip: PeerIp) -> RegistryView {
    RegistryView {
        users: r.users.insert(name),
        ips: r.ips.insert(name, ip),
        sessions: match token {
            Some(t) => r.sessions.insert(name, t),
            None => r.sessions,
        },
        ..r
    }
}

/// Join: reclaim a ghost session whose token and address match, telling the
/// old handler to leave and announcing nothing; otherwise a valid name is
/// claimed when free, or taken with a random four-digit suffix.
pub open spec fn join_spec(r: RegistryView, cur: Option<Seq<u8>>, ip: PeerIp, id: u64, c: Option<Seq<u8>>, suffix: u32) -> Step {
    match text_of(c) {
        None => (r, cur, seq![], Err(UserConnectionError::InvalidMessage)),
        Some(t) => {
            let (name, token) = split_bar(t);
            if r.users.contains(name) && can_reclaim(r, name, token, ip) {
                (r, Some(name), seq![EffectView::Control(CommandView::SessionTakeover(name, id))], Ok(()))
            } else if !valid_username(name) {
                (r, cur, seq![], Err(UserConnectionError::InvalidMessage))
            } else if !r.users.contains(name) {
                (claim_spec(r, name, token, ip), Some(name), seq![bcast(MessageTypes::Join, name)], Ok(()))
            } else if r.users.contains(suffixed(name, suffix)) {
                (r, cur, seq![], Err(UserConnectionError::JoinError))
            } else {
                let n = suffixed(name, suffix);
                (
                    claim_spec(r, n, token, ip),
                    Some(n),
                    seq![reply(MessageTypes::UserRename, n), bcast(MessageTypes::Join, n)],
                    Ok(()),
                )
            }
        },
    }
}

/// Chat: `<name>: <text>` for everyone, from a joined connection, with text
/// of 1 to 1024 bytes.
pub open spec fn chat_spec(r: RegistryView, cur: Option<Seq<u8>>, c: Option<Seq<u8>>) -> Step {
    match text_of(c) {
        None => (r, cur, seq![], Err(UserConnectionError::InvalidMessage)),
        Some(t) => if !message_length_ok(t) || cur is None {
            (r, cur, seq![], Err(UserConnectionError::InvalidMessage))
        } else {
            (r, cur, seq![bcast(MessageTypes::ChatMessage, cur->0 + ": ".spec_bytes() + t)], Ok(()))
        },
    }
}

/// Direct message `<recipient>|<text>`: an error back when the recipient is
/// unknown, else `<sender>|<recipient>|<text>` for everyone to filter.
pub open spec fn dm_spec(r: RegistryView, cur: Option<Seq<u8>>, c: Option<Seq<u8>>) -> Step {
    match text_of(c) {
        None => (r, cur, seq![], Err(UserConnectionError::InvalidMessage)),
        Some(t) => {
            let (to, rest) = split_bar(t);
            match rest {
                None => (r, cur, seq![], Err(UserConnectionError::InvalidMessage)),
                Some(m) => if !message_length_ok(m) || cur is None {
                    (r, cur, seq![], Err(UserConnectionError::InvalidMessage))
                } else if !r.users.contains(to) {
                    (r, cur, seq![reply(MessageTypes::Error, not_found_text(to))], Ok(()))
                } else {
                    (
                        r,
                        cur,
                        seq![bcast(MessageTypes::DirectMessage, cur->0 + seq![124u8] + to + seq![124u8] + m)],
                        Ok(()),
                    )
                },
            }
        },
    }
}

/// The content of `m` when it is text.
fn text_content(m: &ChatMessage) -> (r: Option<&[u8]>)
    ensures
        r is Some <==> text_of(m@.2) is Some,
        r matches Some(s) ==> text_of(m@.2) == Some(s@),
{
    match &m.content {
        Some(v) => if is_utf8(v.as_slice()) {
            Some(v.as_slice())
        } else {
            None
        },
        None => None,
    }
}

pub(crate) fn split_at_bar(t: &[u8]) -> (r: (Vec<u8>, Option<Vec<u8>>))
    ensures
        (r.0@, opt_view(r.1)) == split_bar(t@),
        r.0@.len() <= t@.len(),
        r.1 matches Some(m) ==> m@.len() <= t@.len(),
{
    match find_byte(t, 124u8) {
        Some(i) => {
            let n = t.len();
            assert(i < n);
            let a = copy_range(t, 0, i);
            let b = copy_range(t, i + 1, n);
            (a, Some(b))
        },
        None => {
            let all = copy_range(t, 0, t.len());
            assert(all@ =~= t@);
            (all, None)
        },
    }
}

fn digits4(n: u32) -> (r: Vec<u8>)
    requires
        1000 <= n <= 9999,
    ensures
        r@ == four_digits(n),
{
    let mut r: Vec<u8> = Vec::new();
    r.push((48 + n / 1000) as u8);
    r.push((48 + (n / 100) % 10) as u8);
    r.push((48 + (n / 10) % 10) as u8);
    r.push((48 + n % 10) as u8);
    assert(r@ =~= four_digits(n));
    r
}

/// `name` with the suffix `_<four digits of n>`.
pub fn suffixed_name(name: &[u8], suffix: u32) -> (r: Vec<u8>)
    requires
        1000 <= suffix <= 9999,
    ensures
        r@ == suffixed(name@, suffix),
{
    let head = concat(name, &[95u8]);
    let d = digits4(suffix);
    let r = concat(head.as_slice(), d.as_slice());
    assert(r@ =~= suffixed(name@, suffix));
    r
}

/// Relies on rand's `Rng::gen_range` over `thread_rng`: a value of the
/// half-open range `1000..9999`.
#[verifier::external_body]
fn draw_suffix() -> (r: u32)
    ensures
        1000 <= r < 9999,
{
    rand::Rng::gen_range(&mut rand::thread_rng(), 1000u32..9999u32)
}

/// `name` with a random four-digit suffix.
pub fn randomize_username(name: &[u8]) -> (r: Vec<u8>)
    ensures
        exists|s: u32| 1000 <= s < 9999 && r@ == suffixed(name@, s),
{
    let s = draw_suffix();
    suffixed_name(name, s)
}

fn copy_of(v: &[u8]) -> (r: Vec<u8>)
    ensures
        r@ == v@,
{
    let r = copy_range(v, 0, v.len());
    assert(r@ =~= v@);
    r
}

fn none() -> (r: Outcome)
    ensures
        effects_view(r.effects@) == Seq::<EffectView>::empty(),
        r.result == Ok::<(), UserConnectionError>(()),
{
    let r = Outcome { effects: Vec::new(), result: Ok(()) };
    assert(effects_view(r.effects@) =~= Seq::<EffectView>::empty());
    r
}

fn fail(e: UserConnectionError) -> (r: Outcome)
    ensures
        effects_view(r.effects@) == Seq::<EffectView>::empty(),
        r.result == Err::<(), UserConnectionError>(e),
{
    let r = Outcome { effects: Vec::new(), result: Err(e) };
    assert(effects_view(r.effects@) =~= Seq::<EffectView>::empty());
    r
}

fn one(e: Effect) -> (r: Outcome)
    ensures
        effects_view(r.effects@) == seq![e@],
        r.result == Ok::<(), UserConnectionError>(()),
{
    let mut v: Vec<Effect> = Vec::new();
    v.push(e);
    let r = Outcome { effects: v, result: Ok(()) };
    assert(effects_view(r.effects@) =~= seq![e@]);
    r
}

fn two(e1: Effect, e2: Effect) -> (r: Outcome)
    ensures
        effects_view(r.effects@) == seq![e1@, e2@],
        r.result == Ok::<(), UserConnectionError>(()),
{
    let mut v: Vec<Effect> = Vec::new();
    v.push(e1);
    v.push(e2);
    let r = Outcome { effects: v, result: Ok(()) };
    assert(effects_view(r.effects@) =~= seq![e1@, e2@]);
    r
}

fn claim(reg: &mut Registry, name: &[u8], token: Option<Vec<u8>>, ip: PeerIp)
    requires
        old(reg).wf(),
        name@.len() <= MAX_HELD_NAME,
    ensures
        final(reg).wf(),
        final(reg)@ == claim_spec(old(reg)@, name@, opt_view(token), ip),
{
    reg.users.insert(copy_of(name));
    match token {
        Some(t) => reg.user_sessions.insert(copy_of(name), t),
        None => {},
    }
    reg.user_ips.insert(copy_of(name), ip);
    assert(reg.users@ =~= reg.user_ips@.dom());
    assert(reg@ == claim_spec(old(reg)@, name@, opt_view(token), ip));
}

/// Handles a Join with the suffix `suffix` ready in case the name is taken.
#[verifier::rlimit(40)]
pub fn process_join(reg: &mut Registry, conn: &mut UserConnection, msg: &ChatMessage, suffix: u32) -> (r: Outcome)
    requires
        old(reg).wf(),
        old(conn).wf(),
        1000 <= suffix <= 9999,
    ensures
        final(reg).wf(),
        final(conn).wf(),
        (final(reg)@, final(conn).name(), effects_view(r.effects@), r.result) == join_spec(
            old(reg)@,
            old(conn).name(),
            old(conn).peer_ip,
            old(conn).id,
            msg@.2,
            suffix,
        ),
        final(conn).peer_ip == old(conn).peer_ip,
        final(conn).id == old(conn).id,
        final(conn).rate_limiter == old(conn).rate_limiter,
        final(conn).last_activity_ms == old(conn).last_activity_ms,
        final(conn).clear_status_on_disconnect == old(conn).clear_status_on_disconnect,
        final(conn).session_taken_over == old(conn).session_taken_over,
{
    let t = match text_content(msg) {
        Some(t) => t,
        None => return fail(UserConnectionError::InvalidMessage),
    };
    let (name, token) = split_at_bar(t);
    let registered = reg.users.contains(name.as_slice());
    let reclaim = registered && match &token {
        Some(tok) => {
            let same_token = match reg.user_sessions.get(name.as_slice()) {
                Some(s) => bytes_eq(s.as_slice(), tok.as_slice()),
                None => false,
            };
            let same_ip = match reg.user_ips.get(name.as_slice()) {
                Some(ip) => *ip == conn.peer_ip,
                None => false,
            };
            same_token && same_ip
        },
        None => false,
    };
    if reclaim {
        conn.chat_name = Some(copy_of(name.as_slice()));
        return one(Effect::Control(ServerCommand::SessionTakeover(name, conn.id)));
    }
    if !is_valid_username(name.as_slice()) {
        return fail(UserConnectionError::InvalidMessage);
    }
    if !registered {
        claim(reg, name.as_slice(), token, conn.peer_ip);
        conn.chat_name = Some(copy_of(name.as_slice()));
        return one(Effect::Broadcast(ChatMessage::with_bytes(MessageTypes::Join, name)));
    }
    let new_name = suffixed_name(name.as_slice(), suffix);
    if reg.users.contains(new_name.as_slice()) {
        return fail(UserConnectionError::JoinError);
    }
    claim(reg, new_name.as_slice(), token, conn.peer_ip);
    conn.chat_name = Some(copy_of(new_name.as_slice()));
    let m1 = ChatMessage::with_bytes(MessageTypes::UserRename, copy_of(new_name.as_slice()));
    let m2 = ChatMessage::with_bytes(MessageTypes::Join, new_name);
    two(Effect::Reply(m1), Effect::Broadcast(m2))
}

/// Handles a chat message.
pub fn process_chat_message(reg: &Registry, conn: &UserConnection, msg: &ChatMessage) -> (r: Outcome)
    requires
        conn.wf(),
        msg@.2 matches Some(c) ==> c.len() <= MAX_FRAME_SIZE,
    ensures
        (reg@, conn.name(), effects_view(r.effects@), r.result) == chat_spec(reg@, conn.name(), msg@.2),
{
    let t = match text_content(msg) {
        Some(t) => t,
        None => return fail(UserConnectionError::InvalidMessage),
    };
    if !is_valid_message_length(t) {
        return fail(UserConnectionError::InvalidMessage);
    }
    match &conn.chat_name {
        None => fail(UserConnectionError::InvalidMessage),
        Some(n) => {
            proof {
                reveal_strlit(": ");
                assert(vstd::string::is_ascii(": "));
            }
            let a = concat(n.as_slice(), lit(": ").as_slice());
            let full = concat(a.as_slice(), t);
            one(Effect::Broadcast(ChatMessage::with_bytes(MessageTypes::ChatMessage, full)))
        },
    }
}

/// Handles a direct message.
pub fn process_direct_message(reg: &Registry, conn: &UserConnection, msg: &ChatMessage) -> (r: Outcome)
    requires
        reg.wf(),
        conn.wf(),
        msg@.2 matches Some(c) ==> c.len() <= MAX_FRAME_SIZE,
    ensures
        (reg@, conn.name(), effects_view(r.effects@), r.result) == dm_spec(reg@, conn.name(), msg@.2),
{
    let t = match text_content(msg) {
        Some(t) => t,
        None => return fail(UserConnectionError::InvalidMessage),
    };
    let (to, rest) = split_at_bar(t);
    let m = match rest {
        None => return fail(UserConnectionError::InvalidMessage),
        Some(m) => m,
    };
    if !is_valid_message_length(m.as_slice()) {
        return fail(UserConnectionError::InvalidMessage);
    }
    let sender = match &conn.chat_name {
        None => return fail(UserConnectionError::InvalidMessage),
        Some(n) => n,
    };
    if !reg.users.contains(to.as_slice()) {
        proof {
            reveal_strlit("User '");
            reveal_strlit("' not found");
            assert(vstd::string::is_ascii("User '"));
            assert(vstd::string::is_ascii("' not found"));
        }
        let a = concat(lit("User '").as_slice(), to.as_slice());
        let e = concat(a.as_slice(), lit("' not found").as_slice());
        return one(Effect::Reply(ChatMessage::with_bytes(MessageTypes::Error, e)));
    }
    let a = concat(sender.as_slice(), &[124u8]);
    let b = concat(a.as_slice(), to.as_slice());
    let c = concat(b.as_slice(), &[124u8]);
    let d = concat(c.as_slice(), m.as_slice());
    assert(d@ =~= sender@ + seq![124u8] + to@ + seq![124u8] + m@);
    one(Effect::Broadcast(ChatMessage::with_bytes(MessageTypes::DirectMessage, d)))
}


/// Rename request: the new name must be valid and free; the name, its
/// address and its status move together, the requester is told, and everyone
/// sees `<old> is now known as <new>`. A connection whose name is no longer
/// claimed is treated as not joined.
pub open spec fn rename_spec(r: RegistryView, cur: Option<Seq<u8>>, c: Option<Seq<u8>>) -> Step {
    match text_of(c) {
        None => (r, cur, seq![], Err(UserConnectionError::InvalidMessage)),
        Some(t) => if !name_length_ok(t) {
            (r, cur, seq![reply(MessageTypes::Error, "Invalid username length (1-32 characters)".spec_bytes())], Ok(()))
        } else if !name_chars_ok(t) {
            (
                r,
                cur,
                seq![reply(MessageTypes::Error, "Invalid characters (only alphanumeric, underscore, hyphen allowed)".spec_bytes())],
                Ok(()),
            )
        } else if cur is None || !r.users.contains(cur->0) {
            (r, cur, seq![], Err(UserConnectionError::InvalidMessage))
        } else if r.users.contains(t) {
            (
                r,
                cur,
                seq![reply(MessageTypes::Error, "Username '".spec_bytes() + t + "' is already taken".spec_bytes())],
                Ok(()),
            )
        } else {
            (
                move_spec(r, cur->0, t),
                Some(t),
                seq![
                    reply(MessageTypes::UserRename, t),
                    bcast(MessageTypes::ChatMessage, cur->0 + " is now known as ".spec_bytes() + t),
                ],
                Ok(()),
            )
        },
    }
}

/// Status: up to 128 bytes; empty (or absent, or not text) clears it.
pub open spec fn status_spec(r: RegistryView, cur: Option<Seq<u8>>, c: Option<Seq<u8>>) -> Step {
    let s = match text_of(c) {
        Some(t) => t,
        None => Seq::<u8>::empty(),
    };
    if cur is None {
        (r, cur, seq![], Err(UserConnectionError::InvalidMessage))
    } else if s.len() > MAX_STATUS_LENGTH {
        (r, cur, seq![reply(MessageTypes::Error, "Status too long (max 128 characters)".spec_bytes())], Ok(()))
    } else if s.len() == 0 {
        (
            RegistryView { statuses: r.statuses.remove(cur->0), ..r },
            cur,
            seq![reply(MessageTypes::SetStatus, "Status cleared".spec_bytes())],
            Ok(()),
        )
    } else {
        (
            RegistryView { statuses: r.statuses.insert(cur->0, s), ..r },
            cur,
            seq![reply(MessageTypes::SetStatus, "Status set to: ".spec_bytes() + s)],
            Ok(()),
        )
    }
}

/// Version check: a different version gets `<client>|<server>|<url>` and
/// ends the connection.
pub open spec fn version_spec(r: RegistryView, cur: Option<Seq<u8>>, c: Option<Seq<u8>>) -> Step {
    match text_of(c) {
        None => (r, cur, seq![], Err(UserConnectionError::InvalidMessage)),
        Some(t) => if t == VERSION.spec_bytes() {
            (r, cur, seq![], Ok(()))
        } else {
            (
                r,
                cur,
                seq![reply(MessageTypes::VersionMismatch, t + seq![124u8] + VERSION.spec_bytes() + seq![124u8] + GITHUB_README_URL.spec_bytes())],
                Err(UserConnectionError::VersionMismatch),
            )
        },
    }
}

/// One line of the user list.
pub open spec fn user_line(n: Seq<u8>, st: Map<Seq<u8>, Seq<u8>>) -> Seq<u8> {
    if st.contains_key(n) {
        n + " - ".spec_bytes() + st[n]
    } else {
        n
    }
}

/// The user list: one line per name, in order, joined by newlines.
pub open spec fn user_list(names: Seq<Seq<u8>>, st: Map<Seq<u8>, Seq<u8>>) -> Seq<u8>
    decreases names.len(),
{
    if names.len() == 0 {
        Seq::empty()
    } else if names.len() == 1 {
        user_line(names[0], st)
    } else {
        user_list(names.drop_last(), st) + seq![10u8] + user_line(names.last(), st)
    }
}

pub open spec fn names_view(s: Seq<Vec<u8>>) -> Seq<Seq<u8>> {
    s.map_values(|v: Vec<u8>| v@)
}

/// List request: the list goes back to the requester only.
pub open spec fn list_spec(r: RegistryView, cur: Option<Seq<u8>>, names: Seq<Seq<u8>>) -> Step {
    let l = user_list(names, r.statuses);
    if l.len() + 5 > u32::MAX {
        (r, cur, seq![], Err(UserConnectionError::InvalidMessage))
    } else {
        (r, cur, seq![reply(MessageTypes::ListUsers, l)], Ok(()))
    }
}

/// The field of `b` whose length byte stands at `at`.
pub open spec fn field(b: Seq<u8>, at: int) -> Seq<u8> {
    b.subrange(at + 1, at + 1 + b[at] as int)
}

/// File request `[r_len][r][f_len][f][size: 8]`: forwarded to everyone as
/// `[r_len][r][s_len][s][f_len][f][size]`.
pub open spec fn file_request_spec(r: RegistryView, cur: Option<Seq<u8>>, c: Option<Seq<u8>>) -> Step {
    if c is None || cur is None {
        (r, cur, seq![], Err(UserConnectionError::InvalidMessage))
    } else {
        let b = c->0;
        let n = cur->0;
        if b.len() < 2 || b.len() < b[0] + 2 {
            (r, cur, seq![], Err(UserConnectionError::InvalidMessage))
        } else {
            let to = field(b, 0);
            let fs = 2 + b[0];
            if !valid_utf8(to) || b.len() < fs + b[fs - 1] + 8 {
                (r, cur, seq![], Err(UserConnectionError::InvalidMessage))
            } else {
                let f = field(b, fs - 1);
                let size = b.subrange(fs + b[fs - 1], fs + b[fs - 1] + 8);
                if !valid_utf8(f) {
                    (r, cur, seq![], Err(UserConnectionError::InvalidMessage))
                } else if !r.users.contains(to) {
                    (r, cur, seq![reply(MessageTypes::Error, not_found_text(to))], Ok(()))
                } else {
                    (
                        r,
                        cur,
                        seq![bcast(MessageTypes::FileTransferRequest, seq![b[0]] + to + seq![n.len() as u8] + n + seq![b[fs - 1]] + f + size)],
                        Ok(()),
                    )
                }
            }
        }
    }
}

/// File response `[s_len][s][accepted]`: forwarded to everyone as
/// `[s_len][s][r_len][r][accepted ∈ {0,1}]`, addressed to the original sender.
pub open spec fn file_response_spec(r: RegistryView, cur: Option<Seq<u8>>, c: Option<Seq<u8>>) -> Step {
    if c is None || cur is None {
        (r, cur, seq![], Err(UserConnectionError::InvalidMessage))
    } else {
        let b = c->0;
        let n = cur->0;
        if b.len() < 3 || b.len() < b[0] + 2 {
            (r, cur, seq![], Err(UserConnectionError::InvalidMessage))
        } else {
            let to = field(b, 0);
            let accepted: u8 = if b[1 + b[0]] == 1 {
                1
            } else {
                0
            };
            if !valid_utf8(to) {
                (r, cur, seq![], Err(UserConnectionError::InvalidMessage))
            } else if !r.users.contains(to) {
                (r, cur, seq![reply(MessageTypes::Error, not_found_text(to))], Ok(()))
            } else {
                (
                    r,
                    cur,
                    seq![bcast(MessageTypes::FileTransferResponse, seq![b[0]] + to + seq![n.len() as u8] + n + seq![accepted])],
                    Ok(()),
                )
            }
        }
    }
}

/// File data `[r_len][r][f_len][f][data]`: forwarded to everyone as
/// `[r_len][r][s_len][s][f_len][f][data]`.
pub open spec fn file_transfer_spec(r: RegistryView, cur: Option<Seq<u8>>, c: Option<Seq<u8>>) -> Step {
    if c is None || cur is None {
        (r, cur, seq![], Err(UserConnectionError::InvalidMessage))
    } else {
        let b = c->0;
        let n = cur->0;
        if b.len() < 2 || b.len() < b[0] + 2 {
            (r, cur, seq![], Err(UserConnectionError::InvalidMessage))
        } else {
            let to = field(b, 0);
            let fs = 2 + b[0];
            if !valid_utf8(to) || b.len() < fs + b[fs - 1] {
                (r, cur, seq![], Err(UserConnectionError::InvalidMessage))
            } else {
                let f = field(b, fs - 1);
                let data = b.subrange(fs + b[fs - 1], b.len() as int);
                if !valid_utf8(f) {
                    (r, cur, seq![], Err(UserConnectionError::InvalidMessage))
                } else if !r.users.contains(to) {
                    (r, cur, seq![reply(MessageTypes::Error, not_found_text(to))], Ok(()))
                } else {
                    (
                        r,
                        cur,
                        seq![bcast(MessageTypes::FileTransfer, seq![b[0]] + to + seq![n.len() as u8] + n + seq![b[fs - 1]] + f + data)],
                        Ok(()),
                    )
                }
            }
        }
    }
}

/// Handles a rename request.
#[verifier::rlimit(40)]
pub fn process_rename_request(reg: &mut Registry, conn: &mut UserConnection, msg: &ChatMessage) -> (r: Outcome)
    requires
        old(reg).wf(),
        old(conn).wf(),
        msg@.2 matches Some(c) ==> c.len() <= MAX_FRAME_SIZE,
    ensures
        final(reg).wf(),
        final(conn).wf(),
        (final(reg)@, final(conn).name(), effects_view(r.effects@), r.result) == rename_spec(old(reg)@, old(conn).name(), msg@.2),
        final(conn).peer_ip == old(conn).peer_ip,
        final(conn).id == old(conn).id,
        final(conn).rate_limiter == old(conn).rate_limiter,
        final(conn).last_activity_ms == old(conn).last_activity_ms,
        final(conn).clear_status_on_disconnect == old(conn).clear_status_on_disconnect,
        final(conn).session_taken_over == old(conn).session_taken_over,
{
    let t = match text_content(msg) {
        Some(t) => t,
        None => return fail(UserConnectionError::InvalidMessage),
    };
    if !username_length_ok(t) {
        proof {
            reveal_strlit("Invalid username length (1-32 characters)");
            assert(vstd::string::is_ascii("Invalid username length (1-32 characters)"));
        }
        let e = lit("Invalid username length (1-32 characters)");
        return one(Effect::Reply(ChatMessage::with_bytes(MessageTypes::Error, e)));
    }
    if !username_chars_ok(t) {
        proof {
            reveal_strlit("Invalid characters (only alphanumeric, underscore, hyphen allowed)");
            assert(vstd::string::is_ascii("Invalid characters (only alphanumeric, underscore, hyphen allowed)"));
        }
        let e = lit("Invalid characters (only alphanumeric, underscore, hyphen allowed)");
        return one(Effect::Reply(ChatMessage::with_bytes(MessageTypes::Error, e)));
    }
    let old_name = match &conn.chat_name {
        None => return fail(UserConnectionError::InvalidMessage),
        Some(n) => copy_of(n.as_slice()),
    };
    if !reg.users.contains(old_name.as_slice()) {
        return fail(UserConnectionError::InvalidMessage);
    }
    if reg.users.contains(t) {
        proof {
            reveal_strlit("Username '");
            reveal_strlit("' is already taken");
            assert(vstd::string::is_ascii("Username '"));
            assert(vstd::string::is_ascii("' is already taken"));
        }
        let a = concat(lit("Username '").as_slice(), t);
        let e = concat(a.as_slice(), lit("' is already taken").as_slice());
        return one(Effect::Reply(ChatMessage::with_bytes(MessageTypes::Error, e)));
    }
    reg.move_name(old_name.as_slice(), copy_of(t));
    conn.chat_name = Some(copy_of(t));
    proof {
        reveal_strlit(" is now known as ");
        assert(vstd::string::is_ascii(" is now known as "));
    }
    let a = concat(old_name.as_slice(), lit(" is now known as ").as_slice());
    let announce = concat(a.as_slice(), t);
    let m1 = ChatMessage::with_bytes(MessageTypes::UserRename, copy_of(t));
    let m2 = ChatMessage::with_bytes(MessageTypes::ChatMessage, announce);
    two(Effect::Reply(m1), Effect::Broadcast(m2))
}

/// Handles a status update.
pub fn process_set_status(reg: &mut Registry, conn: &UserConnection, msg: &ChatMessage) -> (r: Outcome)
    requires
        old(reg).wf(),
        conn.wf(),
        msg@.2 matches Some(c) ==> c.len() <= MAX_FRAME_SIZE,
    ensures
        final(reg).wf(),
        (final(reg)@, conn.name(), effects_view(r.effects@), r.result) == status_spec(old(reg)@, conn.name(), msg@.2),
{
    let name = match &conn.chat_name {
        None => return fail(UserConnectionError::InvalidMessage),
        Some(n) => n,
    };
    let s: Vec<u8> = match text_content(msg) {
        Some(t) => copy_of(t),
        None => Vec::new(),
    };
    if s.len() > MAX_STATUS_LENGTH {
        proof {
            reveal_strlit("Status too long (max 128 characters)");
            assert(vstd::string::is_ascii("Status too long (max 128 characters)"));
        }
        let e = lit("Status too long (max 128 characters)");
        return one(Effect::Reply(ChatMessage::with_bytes(MessageTypes::Error, e)));
    }
    if s.len() == 0 {
        let _ = reg.user_statuses.remove(name.as_slice());
        proof {
            reveal_strlit("Status cleared");
            assert(vstd::string::is_ascii("Status cleared"));
        }
        let e = lit("Status cleared");
        return one(Effect::Reply(ChatMessage::with_bytes(MessageTypes::SetStatus, e)));
    }
    proof {
        reveal_strlit("Status set to: ");
        assert(vstd::string::is_ascii("Status set to: "));
    }
    let confirm = concat(lit("Status set to: ").as_slice(), s.as_slice());
    reg.user_statuses.insert(copy_of(name.as_slice()), s);
    one(Effect::Reply(ChatMessage::with_bytes(MessageTypes::SetStatus, confirm)))
}

/// Handles a version check.
pub fn process_version_check(reg: &Registry, conn: &UserConnection, msg: &ChatMessage) -> (r: Outcome)
    requires
        msg@.2 matches Some(c) ==> c.len() <= MAX_FRAME_SIZE,
    ensures
        (reg@, conn.name(), effects_view(r.effects@), r.result) == version_spec(reg@, conn.name(), msg@.2),
{
    let t = match text_content(msg) {
        Some(t) => t,
        None => return fail(UserConnectionError::InvalidMessage),
    };
    let mine = VERSION.as_bytes();
    if bytes_eq(t, mine) {
        return none();
    }
    proof {
        reveal_strlit("0.1.8");
        reveal_strlit("https://github.com/mikemiles-dev/rust_chat#readme");
        assert(vstd::string::is_ascii(VERSION));
        assert(vstd::string::is_ascii(GITHUB_README_URL));
        vstd::string::is_ascii_spec_bytes(VERSION);
        vstd::string::is_ascii_spec_bytes(GITHUB_README_URL);
    }
    let a = concat(t, &[124u8]);
    let b = concat(a.as_slice(), mine);
    let c = concat(b.as_slice(), &[124u8]);
    let d = concat(c.as_slice(), GITHUB_README_URL.as_bytes());
    assert(d@ =~= t@ + seq![124u8] + VERSION.spec_bytes() + seq![124u8] + GITHUB_README_URL.spec_bytes());
    let mut v: Vec<Effect> = Vec::new();
    v.push(Effect::Reply(ChatMessage::with_bytes(MessageTypes::VersionMismatch, d)));
    let r = Outcome { effects: v, result: Err(UserConnectionError::VersionMismatch) };
    assert(effects_view(r.effects@) =~= version_spec(reg@, conn.name(), msg@.2).2);
    r
}


proof fn lemma_user_list_step(names: Seq<Seq<u8>>, st: Map<Seq<u8>, Seq<u8>>, i: int)
    requires
        1 <= i < names.len(),
    ensures
        user_list(names.subrange(0, i + 1), st) == user_list(names.subrange(0, i), st) + seq![10u8]
            + user_line(names[i], st),
{
    assert(names.subrange(0, i + 1).drop_last() =~= names.subrange(0, i));
}

fn line_for(reg: &Registry, n: &[u8]) -> (r: Vec<u8>)
    requires
        reg.wf(),
    ensures
        r@ == user_line(n@, reg@.statuses),
{
    match reg.user_statuses.get(n) {
        Some(st) => {
            let a = concat(n, lit(" - ").as_slice());
            concat(a.as_slice(), st.as_slice())
        },
        None => copy_of(n),
    }
}

/// Handles a request for the user list.
pub fn process_list_users(reg: &Registry, conn: &UserConnection) -> (r: Outcome)
    requires
        reg.wf(),
    ensures
        (reg@, conn.name(), effects_view(r.effects@), r.result) == list_spec(
            reg@,
            conn.name(),
            names_view(reg.users.names@),
        ),
{
    let ghost names = names_view(reg.users.names@);
    let mut out: Vec<u8> = Vec::new();
    let mut i: usize = 0;
    while i < reg.users.names.len()
        invariant
            reg.wf(),
            names == names_view(reg.users.names@),
            i <= reg.users.names@.len(),
            out@ == user_list(names.subrange(0, i as int), reg@.statuses),
        decreases reg.users.names@.len() - i,
    {
        let line = line_for(reg, reg.users.names[i].as_slice());
        if i == 0 {
            out = line;
            assert(names.subrange(0, 1).len() == 1);
        } else {
            out.push(10u8);
            out = concat(out.as_slice(), line.as_slice());
            proof {
                lemma_user_list_step(names, reg@.statuses, i as int);
            }
        }
        i = i + 1;
    }
    assert(names.subrange(0, i as int) =~= names);
    match ChatMessage::try_new(MessageTypes::ListUsers, Some(out)) {
        Ok(m) => one(Effect::Reply(m)),
        Err(_) => fail(UserConnectionError::InvalidMessage),
    }
}

/// Handles a file-transfer request.
pub fn process_file_transfer_request(reg: &Registry, conn: &UserConnection, msg: &ChatMessage) -> (r: Outcome)
    requires
        reg.wf(),
        conn.wf(),
        msg@.2 matches Some(c) ==> c.len() <= MAX_FRAME_SIZE,
    ensures
        (reg@, conn.name(), effects_view(r.effects@), r.result) == file_request_spec(reg@, conn.name(), msg@.2),
{
    let b = match &msg.content {
        None => return fail(UserConnectionError::InvalidMessage),
        Some(b) => b.as_slice(),
    };
    let sender = match &conn.chat_name {
        None => return fail(UserConnectionError::InvalidMessage),
        Some(n) => n,
    };
    if b.len() < 2 {
        return fail(UserConnectionError::InvalidMessage);
    }
    let rl = b[0] as usize;
    if b.len() < rl + 2 {
        return fail(UserConnectionError::InvalidMessage);
    }
    let to = copy_range(b, 1, 1 + rl);
    if !is_utf8(to.as_slice()) {
        return fail(UserConnectionError::InvalidMessage);
    }
    let fl = b[1 + rl] as usize;
    let fs = rl + 2;
    if b.len() < fs + fl + 8 {
        return fail(UserConnectionError::InvalidMessage);
    }
    let f = copy_range(b, fs, fs + fl);
    if !is_utf8(f.as_slice()) {
        return fail(UserConnectionError::InvalidMessage);
    }
    if !reg.users.contains(to.as_slice()) {
        return one(Effect::Reply(not_found(to.as_slice())));
    }
    let mut out: Vec<u8> = Vec::new();
    out.push(b[0]);
    let out = concat(out.as_slice(), to.as_slice());
    let mut out = out;
    out.push(sender.len() as u8);
    let out = concat(out.as_slice(), sender.as_slice());
    let mut out = out;
    out.push(b[1 + rl]);
    let out = concat(out.as_slice(), f.as_slice());
    let size = copy_range(b, fs + fl, fs + fl + 8);
    let out = concat(out.as_slice(), size.as_slice());
    assert(out@ =~= seq![b@[0]] + to@ + seq![sender@.len() as u8] + sender@ + seq![b@[1 + rl]] + f@ + size@);
    one(Effect::Broadcast(ChatMessage::with_bytes(MessageTypes::FileTransferRequest, out)))
}

/// Handles a reply to a file-transfer request.
pub fn process_file_transfer_response(reg: &Registry, conn: &UserConnection, msg: &ChatMessage) -> (r: Outcome)
    requires
        reg.wf(),
        conn.wf(),
        msg@.2 matches Some(c) ==> c.len() <= MAX_FRAME_SIZE,
    ensures
        (reg@, conn.name(), effects_view(r.effects@), r.result) == file_response_spec(reg@, conn.name(), msg@.2),
{
    let b = match &msg.content {
        None => return fail(UserConnectionError::InvalidMessage),
        Some(b) => b.as_slice(),
    };
    let responder = match &conn.chat_name {
        None => return fail(UserConnectionError::InvalidMessage),
        Some(n) => n,
    };
    if b.len() < 3 {
        return fail(UserConnectionError::InvalidMessage);
    }
    let sl = b[0] as usize;
    if b.len() < sl + 2 {
        return fail(UserConnectionError::InvalidMessage);
    }
    let to = copy_range(b, 1, 1 + sl);
    let accepted: u8 = if b[1 + sl] == 1u8 {
        1
    } else {
        0
    };
    if !is_utf8(to.as_slice()) {
        return fail(UserConnectionError::InvalidMessage);
    }
    if !reg.users.contains(to.as_slice()) {
        return one(Effect::Reply(not_found(to.as_slice())));
    }
    let mut out: Vec<u8> = Vec::new();
    out.push(b[0]);
    let out = concat(out.as_slice(), to.as_slice());
    let mut out = out;
    out.push(responder.len() as u8);
    let out = concat(out.as_slice(), responder.as_slice());
    let mut out = out;
    out.push(accepted);
    assert(out@ =~= seq![b@[0]] + to@ + seq![responder@.len() as u8] + responder@ + seq![accepted]);
    one(Effect::Broadcast(ChatMessage::with_bytes(MessageTypes::FileTransferResponse, out)))
}

/// Handles file data.
pub fn process_file_transfer(reg: &Registry, conn: &UserConnection, msg: &ChatMessage) -> (r: Outcome)
    requires
        reg.wf(),
        conn.wf(),
        msg@.2 matches Some(c) ==> c.len() <= MAX_FRAME_SIZE,
    ensures
        (reg@, conn.name(), effects_view(r.effects@), r.result) == file_transfer_spec(reg@, conn.name(), msg@.2),
{
    let b = match &msg.content {
        None => return fail(UserConnectionError::InvalidMessage),
        Some(b) => b.as_slice(),
    };
    let sender = match &conn.chat_name {
        None => return fail(UserConnectionError::InvalidMessage),
        Some(n) => n,
    };
    if b.len() < 2 {
        return fail(UserConnectionError::InvalidMessage);
    }
    let rl = b[0] as usize;
    if b.len() < rl + 2 {
        return fail(UserConnectionError::InvalidMessage);
    }
    let to = copy_range(b, 1, 1 + rl);
    if !is_utf8(to.as_slice()) {
        return fail(UserConnectionError::InvalidMessage);
    }
    let fl = b[1 + rl] as usize;
    let fs = rl + 2;
    if b.len() < fs + fl {
        return fail(UserConnectionError::InvalidMessage);
    }
    let f = copy_range(b, fs, fs + fl);
    if !is_utf8(f.as_slice()) {
        return fail(UserConnectionError::InvalidMessage);
    }
    if !reg.users.contains(to.as_slice()) {
        return one(Effect::Reply(not_found(to.as_slice())));
    }
    let mut out: Vec<u8> = Vec::new();
    out.push(b[0]);
    let out = concat(out.as_slice(), to.as_slice());
    let mut out = out;
    out.push(sender.len() as u8);
    let out = concat(out.as_slice(), sender.as_slice());
    let mut out = out;
    out.push(b[1 + rl]);
    let out = concat(out.as_slice(), f.as_slice());
    let data = copy_range(b, fs + fl, b.len());
    let out = concat(out.as_slice(), data.as_slice());
    assert(out@ =~= seq![b@[0]] + to@ + seq![sender@.len() as u8] + sender@ + seq![b@[1 + rl]] + f@ + data@);
    one(Effect::Broadcast(ChatMessage::with_bytes(MessageTypes::FileTransfer, out)))
}

/// The error telling a sender that `to` is not connected.
fn not_found(to: &[u8]) -> (r: ChatMessage)
    requires
        to@.len() <= MAX_FRAME_SIZE,
    ensures
        r@ == msg_of(MessageTypes::Error, not_found_text(to@)),
{
    proof {
        reveal_strlit("User '");
        reveal_strlit("' not found");
        assert(vstd::string::is_ascii("User '"));
        assert(vstd::string::is_ascii("' not found"));
    }
    let a = concat(lit("User '").as_slice(), to);
    let e = concat(a.as_slice(), lit("' not found").as_slice());
    ChatMessage::with_bytes(MessageTypes::Error, e)
}


/// Where each kind of message goes once it has passed the rate limit.
pub open spec fn route_spec(
    r: RegistryView,
    names: Seq<Seq<u8>>,
    cur: Option<Seq<u8>>,
    ip: PeerIp,
    id: u64,
    m: (u32, MessageTypes, Option<Seq<u8>>),
    suffix: u32,
) -> Step {
    match m.1 {
        MessageTypes::VersionCheck => version_spec(r, cur, m.2),
        MessageTypes::Join => join_spec(r, cur, ip, id, m.2, suffix),
        MessageTypes::ChatMessage => chat_spec(r, cur, m.2),
        MessageTypes::ListUsers => list_spec(r, cur, names),
        MessageTypes::DirectMessage => dm_spec(r, cur, m.2),
        MessageTypes::RenameRequest => rename_spec(r, cur, m.2),
        MessageTypes::FileTransfer => file_transfer_spec(r, cur, m.2),
        MessageTypes::FileTransferRequest => file_request_spec(r, cur, m.2),
        MessageTypes::FileTransferResponse => file_response_spec(r, cur, m.2),
        MessageTypes::SetStatus => status_spec(r, cur, m.2),
        MessageTypes::Leave => (r, cur, seq![], Err(UserConnectionError::ExplicitQuit)),
        _ => (r, cur, seq![], Ok(())),
    }
}

pub open spec fn invalid_text() -> Seq<u8> {
    "Invalid message".spec_bytes()
}

/// A message the handler could not use is answered with an error and the
/// connection goes on; a malformed Join before the connection has a name
/// ends it instead, as no identity can be established.
pub open spec fn answer_invalid(s: Step, join_without_name: bool) -> Step {
    if s.3 == Err::<(), UserConnectionError>(UserConnectionError::InvalidMessage) {
        (
            s.0,
            s.1,
            s.2 + seq![reply(MessageTypes::Error, invalid_text())],
            if join_without_name {
                Err(UserConnectionError::JoinError)
            } else {
                Err(UserConnectionError::InvalidMessage)
            },
        )
    } else {
        s
    }
}

/// One inbound message at `now`: every kind but Join takes a token first;
/// without one the message is dropped with an error back.
pub open spec fn message_step(
    r: RegistryView,
    names: Seq<Seq<u8>>,
    cur: Option<Seq<u8>>,
    ip: PeerIp,
    id: u64,
    lim: RateView,
    m: (u32, MessageTypes, Option<Seq<u8>>),
    now: u64,
    suffix: u32,
) -> (Step, RateView) {
    let routed = answer_invalid(route_spec(r, names, cur, ip, id, m, suffix), m.1 is Join && cur is None);
    if m.1 is Join {
        (routed, lim)
    } else {
        let (lim2, ok) = consume_spec(lim, now);
        if ok {
            (routed, lim2)
        } else {
            ((r, cur, seq![reply(MessageTypes::Error, rate_limit_text())], Ok(())), lim2)
        }
    }
}

/// One inbound frame: a Pong only counts as activity.
pub open spec fn frame_step(
    r: RegistryView,
    names: Seq<Seq<u8>>,
    cur: Option<Seq<u8>>,
    ip: PeerIp,
    id: u64,
    lim: RateView,
    m: (u32, MessageTypes, Option<Seq<u8>>),
    now: u64,
    suffix: u32,
) -> (Step, RateView) {
    if m.1 is Pong {
        ((r, cur, seq![], Ok(())), lim)
    } else {
        message_step(r, names, cur, ip, id, lim, m, now, suffix)
    }
}

/// Handles one message: the rate limit, then the message's own handler.
pub fn process_message(reg: &mut Registry, conn: &mut UserConnection, msg: &ChatMessage, now_ms: u64, suffix: u32) -> (r: Outcome)
    requires
        old(reg).wf(),
        old(conn).wf(),
        msg@.2 matches Some(c) ==> c.len() <= MAX_FRAME_SIZE,
        1000 <= suffix <= 9999,
    ensures
        final(reg).wf(),
        final(conn).wf(),
        ((final(reg)@, final(conn).name(), effects_view(r.effects@), r.result), final(conn).rate_limiter@)
            == message_step(
            old(reg)@,
            names_view(old(reg).users.names@),
            old(conn).name(),
            old(conn).peer_ip,
            old(conn).id,
            old(conn).rate_limiter@,
            msg@,
            now_ms,
            suffix,
        ),
        final(conn).peer_ip == old(conn).peer_ip,
        final(conn).id == old(conn).id,
        final(conn).last_activity_ms == old(conn).last_activity_ms,
        final(conn).clear_status_on_disconnect == (old(conn).clear_status_on_disconnect || r.result
            == Err::<(), UserConnectionError>(UserConnectionError::ExplicitQuit)),
        final(conn).session_taken_over == old(conn).session_taken_over,
{
    let is_join = matches!(msg.msg_type, MessageTypes::Join);
    if !is_join && !conn.rate_limiter.check_and_consume_at(now_ms) {
        proof {
            reveal_strlit("Rate limit exceeded. Please slow down.");
            assert(vstd::string::is_ascii("Rate limit exceeded. Please slow down."));
        }
        let e = lit("Rate limit exceeded. Please slow down.");
        return one(Effect::Reply(ChatMessage::with_bytes(MessageTypes::Error, e)));
    }
    let join_without_name = is_join && conn.chat_name.is_none();
    let mut out = route(reg, conn, msg, suffix);
    if matches!(out.result, Err(UserConnectionError::InvalidMessage)) {
        proof {
            reveal_strlit("Invalid message");
            assert(vstd::string::is_ascii("Invalid message"));
        }
        let ghost before = effects_view(out.effects@);
        out.effects.push(Effect::Reply(ChatMessage::with_bytes(MessageTypes::Error, lit("Invalid message"))));
        assert(effects_view(out.effects@) =~= before + seq![reply(MessageTypes::Error, invalid_text())]);
        if join_without_name {
            out.result = Err(UserConnectionError::JoinError);
        }
    }
    if matches!(out.result, Err(UserConnectionError::ExplicitQuit)) {
        conn.clear_status_on_disconnect = true;
    }
    out
}

/// Hands a message that passed the rate limit to its own handler.
fn route(reg: &mut Registry, conn: &mut UserConnection, msg: &ChatMessage, suffix: u32) -> (r: Outcome)
    requires
        old(reg).wf(),
        old(conn).wf(),
        msg@.2 matches Some(c) ==> c.len() <= MAX_FRAME_SIZE,
        1000 <= suffix <= 9999,
    ensures
        final(reg).wf(),
        final(conn).wf(),
        (final(reg)@, final(conn).name(), effects_view(r.effects@), r.result) == route_spec(
            old(reg)@,
            names_view(old(reg).users.names@),
            old(conn).name(),
            old(conn).peer_ip,
            old(conn).id,
            msg@,
            suffix,
        ),
        final(conn).peer_ip == old(conn).peer_ip,
        final(conn).id == old(conn).id,
        final(conn).rate_limiter == old(conn).rate_limiter,
        final(conn).last_activity_ms == old(conn).last_activity_ms,
        final(conn).clear_status_on_disconnect == old(conn).clear_status_on_disconnect,
        final(conn).session_taken_over == old(conn).session_taken_over,
{
    match msg.msg_type {
        MessageTypes::VersionCheck => process_version_check(reg, conn, msg),
        MessageTypes::Join => process_join(reg, conn, msg, suffix),
        MessageTypes::ChatMessage => process_chat_message(reg, conn, msg),
        MessageTypes::ListUsers => process_list_users(reg, conn),
        MessageTypes::DirectMessage => process_direct_message(reg, conn, msg),
        MessageTypes::RenameRequest => process_rename_request(reg, conn, msg),
        MessageTypes::FileTransfer => process_file_transfer(reg, conn, msg),
        MessageTypes::FileTransferRequest => process_file_transfer_request(reg, conn, msg),
        MessageTypes::FileTransferResponse => process_file_transfer_response(reg, conn, msg),
        MessageTypes::SetStatus => process_set_status(reg, conn, msg),
        MessageTypes::Leave => fail(UserConnectionError::ExplicitQuit),
        _ => none(),
    }
}

/// Handles one inbound frame arriving at `now_ms`: it counts as activity,
/// and anything but a Pong is processed.
pub fn handle_frame(reg: &mut Registry, conn: &mut UserConnection, msg: &ChatMessage, now_ms: u64, suffix: u32) -> (r: Outcome)
    requires
        old(reg).wf(),
        old(conn).wf(),
        msg@.2 matches Some(c) ==> c.len() <= MAX_FRAME_SIZE,
        1000 <= suffix <= 9999,
    ensures
        final(reg).wf(),
        final(conn).wf(),
        ((final(reg)@, final(conn).name(), effects_view(r.effects@), r.result), final(conn).rate_limiter@)
            == frame_step(
            old(reg)@,
            names_view(old(reg).users.names@),
            old(conn).name(),
            old(conn).peer_ip,
            old(conn).id,
            old(conn).rate_limiter@,
            msg@,
            now_ms,
            suffix,
        ),
        final(conn).last_activity_ms == now_ms,
        final(conn).peer_ip == old(conn).peer_ip,
        final(conn).id == old(conn).id,
        final(conn).clear_status_on_disconnect == (old(conn).clear_status_on_disconnect || r.result
            == Err::<(), UserConnectionError>(UserConnectionError::ExplicitQuit)),
        final(conn).session_taken_over == old(conn).session_taken_over,
{
    conn.last_activity_ms = now_ms;
    if matches!(msg.msg_type, MessageTypes::Pong) {
        return none();
    }
    process_message(reg, conn, msg, now_ms, suffix)
}

/// Handles one inbound frame, drawing the random suffix a taken name would get.
pub fn handle_frame_now(reg: &mut Registry, conn: &mut UserConnection, msg: &ChatMessage, now_ms: u64) -> (r: Outcome)
    requires
        old(reg).wf(),
        old(conn).wf(),
        msg@.2 matches Some(c) ==> c.len() <= MAX_FRAME_SIZE,
    ensures
        final(reg).wf(),
        final(conn).wf(),
        exists|s: u32|
            1000 <= s < 9999 && ((final(reg)@, final(conn).name(), effects_view(r.effects@), r.result),
                final(conn).rate_limiter@) == frame_step(
                old(reg)@,
                names_view(old(reg).users.names@),
                old(conn).name(),
                old(conn).peer_ip,
                old(conn).id,
                old(conn).rate_limiter@,
                msg@,
                now_ms,
                s,
            ),
        final(conn).last_activity_ms == now_ms,
        final(conn).peer_ip == old(conn).peer_ip,
        final(conn).id == old(conn).id,
        final(conn).clear_status_on_disconnect == (old(conn).clear_status_on_disconnect || r.result
            == Err::<(), UserConnectionError>(UserConnectionError::ExplicitQuit)),
        final(conn).session_taken_over == old(conn).session_taken_over,
{
    let s = draw_suffix();
    handle_frame(reg, conn, msg, now_ms, s)
}

/// Teardown: unless the session was taken over, the name and its address
/// leave the registries, its status and token too after a quit, kick or ban,
/// and one Leave is announced.
pub open spec fn cleanup_spec(r: RegistryView, cur: Option<Seq<u8>>, taken_over: bool, clear: bool) -> (RegistryView, Seq<EffectView>) {
    match cur {
        None => (r, seq![]),
        Some(n) => if taken_over {
            (r, seq![])
        } else {
            (
                RegistryView {
                    users: r.users.remove(n),
                    ips: r.ips.remove(n),
                    statuses: if clear {
                        r.statuses.remove(n)
                    } else {
                        r.statuses
                    },
                    sessions: if clear {
                        r.sessions.remove(n)
                    } else {
                        r.sessions
                    },
                    banned: r.banned,
                },
                seq![bcast(MessageTypes::Leave, n)],
            )
        },
    }
}

/// Tears a connection down once its loop has ended.
pub fn cleanup(reg: &mut Registry, conn: &UserConnection) -> (r: Vec<Effect>)
    requires
        old(reg).wf(),
        conn.wf(),
    ensures
        final(reg).wf(),
        (final(reg)@, effects_view(r@)) == cleanup_spec(
            old(reg)@,
            conn.name(),
            conn.session_taken_over,
            conn.clear_status_on_disconnect,
        ),
{
    let n = match &conn.chat_name {
        None => return none().effects,
        Some(n) => n,
    };
    if conn.session_taken_over {
        return none().effects;
    }
    reg.users.remove(n.as_slice());
    let _ = reg.user_ips.remove(n.as_slice());
    if conn.clear_status_on_disconnect {
        let _ = reg.user_statuses.remove(n.as_slice());
        let _ = reg.user_sessions.remove(n.as_slice());
    }
    assert(reg.users@ =~= reg.user_ips@.dom());
    let r = one(Effect::Broadcast(ChatMessage::with_bytes(MessageTypes::Leave, copy_of(n.as_slice())))).effects;
    r
}

/// A connection's reaction to a control command.
pub struct Reaction {
    pub effects: Vec<Effect>,
    pub exit: bool,
}

pub open spec fn kicked_text() -> Seq<u8> {
    "You have been kicked by the server".spec_bytes()
}

pub open spec fn banned_text() -> Seq<u8> {
    "You have been banned from the server".spec_bytes()
}

/// Reaction to a control command: its name, effects, whether it leaves,
/// whether its status is to be cleared, whether its session was taken over.
pub open spec fn control_spec(cur: Option<Seq<u8>>, ip: PeerIp, id: u64, cmd: CommandView) -> (Option<Seq<u8>>, Seq<EffectView>, bool, bool, bool) {
    match cmd {
        CommandView::Kick(n) => if cur == Some(n) {
            (cur, seq![reply(MessageTypes::Error, kicked_text())], true, true, false)
        } else {
            (cur, seq![], false, false, false)
        },
        CommandView::Ban(b) => if ip == b {
            (cur, seq![reply(MessageTypes::Error, banned_text())], true, true, false)
        } else {
            (cur, seq![], false, false, false)
        },
        CommandView::Rename(o, n) => if cur == Some(o) {
            (
                Some(n),
                seq![
                    reply(MessageTypes::UserRename, n),
                    bcast(MessageTypes::ChatMessage, o + " is now known as ".spec_bytes() + n + " (renamed by server)".spec_bytes()),
                ],
                false,
                false,
                false,
            )
        } else {
            (cur, seq![], false, false, false)
        },
        CommandView::SessionTakeover(n, by) => if cur == Some(n) && by != id {
            (cur, seq![], true, false, true)
        } else {
            (cur, seq![], false, false, false)
        },
    }
}

fn same_name(cur: &Option<Vec<u8>>, n: &[u8]) -> (r: bool)
    ensures
        r == (opt_view(*cur) == Some(n@)),
{
    match cur {
        Some(c) => bytes_eq(c.as_slice(), n),
        None => false,
    }
}

/// Reacts to a control command; the registries were already updated by the
/// administrator's side.
pub fn on_control(conn: &mut UserConnection, cmd: &ServerCommand) -> (r: Reaction)
    requires
        old(conn).wf(),
        cmd matches ServerCommand::Rename { old_name, new_name } ==> new_name@.len() <= MAX_HELD_NAME
            && old_name@.len() <= MAX_HELD_NAME,
    ensures
        final(conn).wf(),
        ({
            let (name, eff, exit, clear, taken) = control_spec(old(conn).name(), old(conn).peer_ip, old(conn).id, cmd@);
            &&& final(conn).name() == name
            &&& effects_view(r.effects@) == eff
            &&& r.exit == exit
            &&& final(conn).clear_status_on_disconnect == (old(conn).clear_status_on_disconnect || clear)
            &&& final(conn).session_taken_over == (old(conn).session_taken_over || taken)
        }),
        final(conn).peer_ip == old(conn).peer_ip,
        final(conn).id == old(conn).id,
        final(conn).rate_limiter == old(conn).rate_limiter,
        final(conn).last_activity_ms == old(conn).last_activity_ms,
{
    match cmd {
        ServerCommand::Kick(n) => {
            if same_name(&conn.chat_name, n.as_slice()) {
                proof {
                    reveal_strlit("You have been kicked by the server");
                    assert(vstd::string::is_ascii("You have been kicked by the server"));
                }
                conn.clear_status_on_disconnect = true;
                let e = lit("You have been kicked by the server");
                let o = one(Effect::Reply(ChatMessage::with_bytes(MessageTypes::Error, e)));
                return Reaction { effects: o.effects, exit: true };
            }
        },
        ServerCommand::Ban(ip) => {
            if *ip == conn.peer_ip {
                proof {
                    reveal_strlit("You have been banned from the server");
                    assert(vstd::string::is_ascii("You have been banned from the server"));
                }
                conn.clear_status_on_disconnect = true;
                let e = lit("You have been banned from the server");
                let o = one(Effect::Reply(ChatMessage::with_bytes(MessageTypes::Error, e)));
                return Reaction { effects: o.effects, exit: true };
            }
        },
        ServerCommand::Rename { old_name, new_name } => {
            if same_name(&conn.chat_name, old_name.as_slice()) {
                proof {
                    reveal_strlit(" is now known as ");
                    reveal_strlit(" (renamed by server)");
                    assert(vstd::string::is_ascii(" is now known as "));
                    assert(vstd::string::is_ascii(" (renamed by server)"));
                }
                conn.chat_name = Some(copy_of(new_name.as_slice()));
                let a = concat(old_name.as_slice(), lit(" is now known as ").as_slice());
                let b = concat(a.as_slice(), new_name.as_slice());
                let c = concat(b.as_slice(), lit(" (renamed by server)").as_slice());
                let m1 = ChatMessage::with_bytes(MessageTypes::UserRename, copy_of(new_name.as_slice()));
                let m2 = ChatMessage::with_bytes(MessageTypes::ChatMessage, c);
                let o = two(Effect::Reply(m1), Effect::Broadcast(m2));
                return Reaction { effects: o.effects, exit: false };
            }
        },
        ServerCommand::SessionTakeover(n, by) => {
            if *by != conn.id && same_name(&conn.chat_name, n.as_slice()) {
                conn.session_taken_over = true;
                return Reaction { effects: none().effects, exit: true };
            }
        },
    }
    Reaction { effects: none().effects, exit: false }
}

/// A Join that succeeds without reclaiming a session leaves the connection
/// holding a name that the registry already contains, and the last effect is
/// the Join broadcast of that name: the name is registered before the
/// announcement goes out.
pub proof fn lemma_join_announced(r: RegistryView, cur: Option<Seq<u8>>, ip: PeerIp, id: u64, c: Option<Seq<u8>>, suffix: u32)
    requires
        join_spec(r, cur, ip, id, c, suffix).3 is Ok,
        !(join_spec(r, cur, ip, id, c, suffix).2.last() is Control),
    ensures
        ({
            let (r2, name, eff, res) = join_spec(r, cur, ip, id, c, suffix);
            &&& name is Some
            &&& r2.users.contains(name->0)
            &&& r2.ips.contains_key(name->0) && r2.ips[name->0] == ip
            &&& eff.len() >= 1
            &&& eff.last() == bcast(MessageTypes::Join, name->0)
        }),
{
}

/// A Join whose name is claimed and whose token and address match the
/// record reclaims the name without announcing a Join: the only effect is
/// the takeover command to the old handler, and the registries are unchanged.
pub proof fn lemma_reclaim_silent(r: RegistryView, cur: Option<Seq<u8>>, ip: PeerIp, id: u64, t: Seq<u8>, suffix: u32)
    requires
        valid_utf8(t),
        r.users.contains(split_bar(t).0),
        can_reclaim(r, split_bar(t).0, split_bar(t).1, ip),
    ensures
        join_spec(r, cur, ip, id, Some(t), suffix) == (
            r,
            Some(split_bar(t).0),
            seq![EffectView::Control(CommandView::SessionTakeover(split_bar(t).0, id))],
            Ok::<(), UserConnectionError>(()),
        ),
{
}

/// Teardown after a disconnect that was not a takeover announces exactly one
/// Leave, for a name already gone from the registry.
pub proof fn lemma_single_leave(r: RegistryView, n: Seq<u8>, clear: bool)
    ensures
        ({
            let (r2, eff) = cleanup_spec(r, Some(n), false, clear);
            &&& eff.len() == 1
            &&& eff[0] == bcast(MessageTypes::Leave, n)
            &&& !r2.users.contains(n)
            &&& !r2.ips.contains_key(n)
        }),
{
}

/// A message refused by the rate limiter reaches nobody: the only effect is
/// the error back to the sender, and the registries are untouched.
pub proof fn lemma_refused_not_broadcast(
    r: RegistryView,
    names: Seq<Seq<u8>>,
    cur: Option<Seq<u8>>,
    ip: PeerIp,
    id: u64,
    lim: RateView,
    m: (u32, MessageTypes, Option<Seq<u8>>),
    now: u64,
    suffix: u32,
)
    requires
        !(m.1 is Join),
        !consume_spec(lim, now).1,
    ensures
        message_step(r, names, cur, ip, id, lim, m, now, suffix).0 == (
            r,
            cur,
            seq![reply(MessageTypes::Error, rate_limit_text())],
            Ok::<(), UserConnectionError>(()),
        ),
{
}


/// The effects of the messages `ms`, arriving one after another at `times`.
pub open spec fn burst(
    r: RegistryView,
    names: Seq<Seq<u8>>,
    cur: Option<Seq<u8>>,
    ip: PeerIp,
    id: u64,
    lim: RateView,
    ms: Seq<(u32, MessageTypes, Option<Seq<u8>>)>,
    times: Seq<u64>,
    suffix: u32,
) -> Seq<Seq<EffectView>>
    decreases ms.len(),
{
    if ms.len() == 0 || times.len() == 0 {
        Seq::empty()
    } else {
        let (step, lim2) = message_step(r, names, cur, ip, id, lim, ms[0], times[0], suffix);
        seq![step.2] + burst(step.0, names, step.1, ip, id, lim2, ms.drop_first(), times.drop_first(), suffix)
    }
}

/// A burst of chat lines within one window, from a joined connection whose
/// bucket holds `k` tokens: the first `k` lines go to everyone as
/// `<name>: <text>`, and every later one gets only the rate-limit error
/// back and reaches no one.
pub proof fn lemma_chat_burst(
    r: RegistryView,
    names: Seq<Seq<u8>>,
    n: Seq<u8>,
    ip: PeerIp,
    id: u64,
    lim: RateView,
    texts: Seq<Seq<u8>>,
    ms: Seq<(u32, MessageTypes, Option<Seq<u8>>)>,
    times: Seq<u64>,
    suffix: u32,
)
    requires
        lim.0 <= lim.1,
        ms.len() == times.len() == texts.len(),
        forall|i: int| 0 <= i < ms.len() ==> (#[trigger] ms[i]).1 == MessageTypes::ChatMessage && ms[i].2 == Some(texts[i])
            && valid_utf8(texts[i]) && message_length_ok(texts[i]),
        forall|i: int| 0 <= i < times.len() ==> lim.2 <= #[trigger] times[i] && times[i] - lim.2 < lim.3,
    ensures
        burst(r, names, Some(n), ip, id, lim, ms, times, suffix).len() == ms.len(),
        forall|i: int| 0 <= i < ms.len() ==> #[trigger] burst(r, names, Some(n), ip, id, lim, ms, times, suffix)[i] == if i < lim.0 {
            seq![bcast(MessageTypes::ChatMessage, n + ": ".spec_bytes() + texts[i])]
        } else {
            seq![reply(MessageTypes::Error, rate_limit_text())]
        },
    decreases ms.len(),
{
    if ms.len() > 0 {
        let (step, lim2) = message_step(r, names, Some(n), ip, id, lim, ms[0], times[0], suffix);
        assert(ms[0].1 == MessageTypes::ChatMessage);
        assert(times[0] - lim.2 < lim.3);
        assert(step.0 == r && step.1 == Some(n));
        assert(lim2.1 == lim.1 && lim2.2 == lim.2 && lim2.3 == lim.3);
        assert(lim2.0 == if lim.0 > 0 { lim.0 - 1 } else { 0 });
        let rest_ms = ms.drop_first();
        let rest_t = times.drop_first();
        let rest_x = texts.drop_first();
        assert forall|i: int| 0 <= i < rest_ms.len() implies (#[trigger] rest_ms[i]).1 == MessageTypes::ChatMessage
            && rest_ms[i].2 == Some(rest_x[i]) && valid_utf8(rest_x[i]) && message_length_ok(rest_x[i]) by {
            assert(rest_ms[i] == ms[i + 1]);
        }
        assert forall|i: int| 0 <= i < rest_t.len() implies lim2.2 <= #[trigger] rest_t[i] && rest_t[i] - lim2.2 < lim2.3 by {
            assert(rest_t[i] == times[i + 1]);
        }
        lemma_chat_burst(r, names, n, ip, id, lim2, rest_x, rest_ms, rest_t, suffix);
        let all = burst(r, names, Some(n), ip, id, lim, ms, times, suffix);
        assert(all == seq![step.2] + burst(r, names, Some(n), ip, id, lim2, rest_ms, rest_t, suffix));
        assert forall|i: int| 0 <= i < ms.len() implies #[trigger] all[i] == if i < lim.0 {
            seq![bcast(MessageTypes::ChatMessage, n + ": ".spec_bytes() + texts[i])]
        } else {
            seq![reply(MessageTypes::Error, rate_limit_text())]
        } by {
            if i > 0 {
                assert(all[i] == burst(r, names, Some(n), ip, id, lim2, rest_ms, rest_t, suffix)[i - 1]);
                assert(rest_x[i - 1] == texts[i]);
            }
        }
    }
}


/// The server forwards each piece of a file from a joined sender `snd` to a
/// connected recipient `r` unchanged, adding only the sender's name: the
/// record `[r_len][r][f_len][f][d]` goes to everyone as
/// `[r_len][r][s_len][s][f_len][f][d]`.
pub proof fn lemma_forwards_file_data(reg: RegistryView, snd: Seq<u8>, r: Seq<u8>, f: Seq<u8>, d: Seq<u8>)
    requires
        r.len() <= 255,
        f.len() <= 255,
        valid_utf8(r),
        valid_utf8(f),
        reg.users.contains(r),
    ensures
        file_transfer_spec(reg, Some(snd), Some(crate::client::data_content(r, f, d))) == (
            reg,
            Some(snd),
            seq![bcast(MessageTypes::FileTransfer, crate::client::forwarded(r, snd, f, d))],
            Ok::<(), UserConnectionError>(()),
        ),
{
    let b = crate::client::data_content(r, f, d);
    let fs: int = 2 + r.len() as int;
    assert(b[0] == r.len() as u8);
    assert(field(b, 0) =~= r);
    assert(b[fs - 1] == f.len() as u8);
    assert(field(b, fs - 1) =~= f);
    assert(b.subrange(fs + f.len(), b.len() as int) =~= d);
    assert(seq![b[0]] + r + seq![snd.len() as u8] + snd + seq![b[fs - 1]] + f + d =~= crate::client::forwarded(r, snd, f, d));
}


/// A takeover ends every other connection that holds the name, marking it
/// taken over so that it skips cleanup, and never the connection that
/// issued it, which keeps the name.
pub proof fn lemma_takeover_spares_issuer(n: Seq<u8>, ip: PeerIp, other_ip: PeerIp, id: u64, other: u64)
    requires
        other != id,
    ensures
        control_spec(Some(n), ip, id, CommandView::SessionTakeover(n, id)) == (
            Some(n),
            Seq::<EffectView>::empty(),
            false,
            false,
            false,
        ),
        control_spec(Some(n), other_ip, other, CommandView::SessionTakeover(n, id)) == (
            Some(n),
            Seq::<EffectView>::empty(),
            true,
            false,
            true,
        ),
{
}


/// A Join for a name nobody holds succeeds exactly when the name is valid;
/// an invalid one changes no registry and no name, and announces nothing.
pub proof fn lemma_join_validates(r: RegistryView, cur: Option<Seq<u8>>, ip: PeerIp, id: u64, t: Seq<u8>, suffix: u32)
    requires
        valid_utf8(t),
        !r.users.contains(split_bar(t).0),
    ensures
        join_spec(r, cur, ip, id, Some(t), suffix).3 is Ok <==> valid_username(split_bar(t).0),
        !valid_username(split_bar(t).0) ==> join_spec(r, cur, ip, id, Some(t), suffix) == (
            r,
            cur,
            Seq::<EffectView>::empty(),
            Err::<(), UserConnectionError>(UserConnectionError::InvalidMessage),
        ),
{
}

} // verus!
