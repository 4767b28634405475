//! The client's session logic: what to do with each message from the server,
//! what each command sends, the pending file transfers, and reconnection.

use vstd::prelude::*;
use vstd::string::StringSliceAdditionalSpecFns;
use vstd::utf8::valid_utf8;
use crate::bytes::{lit, concat, copy_range, bytes_eq, is_utf8, be_u64, u64_be};
use crate::handler::{split_bar, text_of, opt_view};
use crate::message::{ChatMessage, MessageTypes, MessageView, msg_of, bare_of};
use crate::names::NameMap;
use crate::text::{chars_of, chars_eq_str, string_from_chars};
use crate::client_input::{ClientUserInput, InputView, all_ws, is_blank};
use crate::version::VERSION;
use vstd::utf8::encode_utf8;

verus! {

#[derive(Debug, Clone, Copy, PartialEq, Eq, Structural)]
pub enum ChatClientError {
    InvalidAddress,
    IoError,
    ChatMessageError,
}

/// A file this client offered to send, waiting for the recipient's answer.
#[derive(Debug, Clone)]
pub struct PendingOutgoingTransfer {
    pub recipient: Vec<u8>,
    pub file_path: Vec<u8>,
    pub file_name: Vec<u8>,
    pub file_size: u64,
}

impl View for PendingOutgoingTransfer {
    type V = (Seq<u8>, Seq<u8>, Seq<u8>, u64);

    open spec fn view(&self) -> (Seq<u8>, Seq<u8>, Seq<u8>, u64) {
        (self.recipient@, self.file_path@, self.file_name@, self.file_size)
    }
}

/// A file offered to this client, waiting for `/accept` or `/reject`.
#[derive(Debug, Clone)]
pub struct PendingIncomingTransfer {
    pub sender: Vec<u8>,
    pub file_name: Vec<u8>,
    pub file_size: u64,
}

impl View for PendingIncomingTransfer {
    type V = (Seq<u8>, Seq<u8>, u64);

    open spec fn view(&self) -> (Seq<u8>, Seq<u8>, u64) {
        (self.sender@, self.file_name@, self.file_size)
    }
}

/// Something the client runtime does in answer to a message.
#[derive(Debug)]
pub enum ClientAction {
    /// Write a message to the server.
    Send(ChatMessage),
    Joined(Vec<u8>),
    Left(Vec<u8>),
    Renamed(Vec<u8>),
    /// Show a chat line that another user wrote.
    ShowChat(Vec<u8>),
    /// The users now online, one entry per line of the list.
    ShowUsers(Vec<Vec<u8>>),
    ShowDirect { sender: Vec<u8>, text: Vec<u8> },
    ShowError(Vec<u8>),
    ShowInfo(Vec<u8>),
    /// Ask the user to accept or reject a file.
    FileOffered { sender: Vec<u8>, file_name: Vec<u8>, file_size: u64 },
    /// Write received file data to `path`, after what it holds when
    /// `append`, else in place of it.
    SaveFile { path: Vec<u8>, data: Vec<u8>, append: bool },
    /// Read the file at `file_path` and send it to `recipient`.
    SendFileData { recipient: Vec<u8>, file_path: Vec<u8> },
    FileDeclined { responder: Vec<u8> },
    NoPendingTransfer { responder: Vec<u8> },
    VersionMismatch(Vec<u8>),
    /// Show our own chat line at once, before the server echoes it.
    EchoChat(Vec<u8>),
    /// Show our own direct message at once.
    EchoDirect { recipient: Vec<u8>, text: Vec<u8> },
    NoReplyTarget,
    /// Refuse to send a message with no text.
    EmptyMessage,
    ShowHelp,
    /// Look up the file at `file_path` and offer it to `recipient`.
    OfferFile { recipient: Vec<u8>, file_path: Vec<u8> },
    Quit,
}

pub enum ActionView {
    Send(MessageView),
    Joined(Seq<u8>),
    Left(Seq<u8>),
    Renamed(Seq<u8>),
    ShowChat(Seq<u8>),
    ShowUsers(Seq<Seq<u8>>),
    ShowDirect(Seq<u8>, Seq<u8>),
    ShowError(Seq<u8>),
    ShowInfo(Seq<u8>),
    FileOffered(Seq<u8>, Seq<u8>, u64),
    SaveFile(Seq<u8>, Seq<u8>, bool),
    SendFileData(Seq<u8>, Seq<u8>),
    FileDeclined(Seq<u8>),
    NoPendingTransfer(Seq<u8>),
    VersionMismatch(Seq<u8>),
    EchoChat(Seq<u8>),
    EchoDirect(Seq<u8>, Seq<u8>),
    NoReplyTarget,
    EmptyMessage,
    ShowHelp,
    OfferFile(Seq<u8>, Seq<u8>),
    Quit,
}

impl View for ClientAction {
    type V = ActionView;

    open spec fn view(&self) -> ActionView {
        match self {
            ClientAction::Send(m) => ActionView::Send(m@),
            ClientAction::Joined(n) => ActionView::Joined(n@),
            ClientAction::Left(n) => ActionView::Left(n@),
            ClientAction::Renamed(n) => ActionView::Renamed(n@),
            ClientAction::ShowChat(t) => ActionView::ShowChat(t@),
            ClientAction::ShowUsers(u) => ActionView::ShowUsers(u@.map_values(|v: Vec<u8>| v@)),
            ClientAction::ShowDirect { sender, text } => ActionView::ShowDirect(sender@, text@),
            ClientAction::ShowError(t) => ActionView::ShowError(t@),
            ClientAction::ShowInfo(t) => ActionView::ShowInfo(t@),
            ClientAction::FileOffered { sender, file_name, file_size } => ActionView::FileOffered(sender@, file_name@, *file_size),
            ClientAction::SaveFile { path, data, append } => ActionView::SaveFile(path@, data@, *append),
            ClientAction::SendFileData { recipient, file_path } => ActionView::SendFileData(recipient@, file_path@),
            ClientAction::FileDeclined { responder } => ActionView::FileDeclined(responder@),
            ClientAction::NoPendingTransfer { responder } => ActionView::NoPendingTransfer(responder@),
            ClientAction::VersionMismatch(t) => ActionView::VersionMismatch(t@),
            ClientAction::EchoChat(t) => ActionView::EchoChat(t@),
            ClientAction::EchoDirect { recipient, text } => ActionView::EchoDirect(recipient@, text@),
            ClientAction::NoReplyTarget => ActionView::NoReplyTarget,
            ClientAction::EmptyMessage => ActionView::EmptyMessage,
            ClientAction::ShowHelp => ActionView::ShowHelp,
            ClientAction::OfferFile { recipient, file_path } => ActionView::OfferFile(recipient@, file_path@),
            ClientAction::Quit => ActionView::Quit,
        }
    }
}

pub open spec fn actions_view(s: Seq<ClientAction>) -> Seq<ActionView> {
    s.map_values(|a: ClientAction| a@)
}

/// A file this client accepted, arriving in pieces.
#[derive(Debug, Clone)]
pub struct Download {
    pub file_name: Vec<u8>,
    pub file_size: u64,
    pub received: u64,
}

impl View for Download {
    type V = (Seq<u8>, u64, u64);

    open spec fn view(&self) -> (Seq<u8>, u64, u64) {
        (self.file_name@, self.file_size, self.received)
    }
}

/// The client's session state.
pub struct ChatClient {
    pub chat_name: Vec<u8>,
    pub session_token: Vec<u8>,
    pub current_status: Option<Vec<u8>>,
    pub last_dm_sender: Option<Vec<u8>>,
    pub was_kicked: bool,
    pub pending_outgoing: NameMap<PendingOutgoingTransfer>,
    pub pending_incoming: NameMap<PendingIncomingTransfer>,
    pub downloads: NameMap<Download>,
}

/// The model of a session: name, last direct-message sender, kicked flag,
/// pending outgoing and incoming transfers.
pub struct SessionView {
    pub name: Seq<u8>,
    pub last_dm: Option<Seq<u8>>,
    pub kicked: bool,
    pub outgoing: Map<Seq<u8>, (Seq<u8>, Seq<u8>, Seq<u8>, u64)>,
    pub incoming: Map<Seq<u8>, (Seq<u8>, Seq<u8>, u64)>,
    pub downloads: Map<Seq<u8>, (Seq<u8>, u64, u64)>,
}

impl View for ChatClient {
    type V = SessionView;

    open spec fn view(&self) -> SessionView {
        SessionView {
            name: self.chat_name@,
            last_dm: opt_view(self.last_dm_sender),
            kicked: self.was_kicked,
            outgoing: self.pending_outgoing@,
            incoming: self.pending_incoming@,
            downloads: self.downloads@,
        }
    }
}

/// The first index at which `a` is directly followed by `b`.
pub open spec fn first_pair_index(s: Seq<u8>, a: u8, b: u8) -> Option<int> {
    if exists|i: int| 0 <= i < s.len() - 1 && #[trigger] s[i] == a && s[i + 1] == b {
        Some(choose|i: int|
            0 <= i < s.len() - 1 && #[trigger] s[i] == a && s[i + 1] == b && forall|j: int|
                0 <= j < i ==> !(#[trigger] s[j] == a && s[j + 1] == b))
    } else {
        None
    }
}

/// A chat line is shown unless the part before its first `": "` is our own
/// name: our own lines were already shown when typed.
pub open spec fn shows_chat(t: Seq<u8>, name: Seq<u8>) -> bool {
    match first_pair_index(t, 58u8, 32u8) {
        Some(i) => t.subrange(0, i) != name,
        None => true,
    }
}

/// Whether `t` contains `p`.
pub open spec fn contains_seq(t: Seq<u8>, p: Seq<u8>) -> bool {
    exists|i: int| 0 <= i <= t.len() - p.len() && #[trigger] t.subrange(i, i + p.len()) == p
}

/// The lines of `t`, split at each line feed.
pub open spec fn lines_of(t: Seq<u8>) -> Seq<Seq<u8>>
    decreases t.len(),
{
    match crate::bytes::first_index_of(t, 10u8) {
        Some(i) => if i < t.len() {
            seq![t.subrange(0, i as int)] + lines_of(t.subrange(i + 1, t.len() as int))
        } else {
            seq![t]
        },
        None => if t.len() == 0 {
            Seq::empty()
        } else {
            seq![t]
        },
    }
}

/// The parts of a forwarded file message `[r_len][r][s_len][s]...`: the
/// recipient, the sender and where the rest starts, when the header is
/// complete and both names are text.
pub open spec fn file_header(c: Seq<u8>) -> Option<(Seq<u8>, Seq<u8>, int)> {
    if c.len() < 2 || c.len() < c[0] + 2 {
        None
    } else {
        let r = c.subrange(1, 1 + c[0] as int);
        let ss = 1 + c[0] as int;
        if !valid_utf8(r) || c.len() < ss + 1 + c[ss] + 1 {
            None
        } else {
            let s = c.subrange(ss + 1, ss + 1 + c[ss] as int);
            if !valid_utf8(s) {
                None
            } else {
                Some((r, s, ss + 1 + c[ss]))
            }
        }
    }
}

/// The downloads after `n` more bytes arrived from `s`: the record goes
/// once the announced size is reached.
pub open spec fn download_after(d: Map<Seq<u8>, (Seq<u8>, u64, u64)>, s: Seq<u8>, n: int) -> Map<Seq<u8>, (Seq<u8>, u64, u64)> {
    let (name, size, got) = d[s];
    if got + n >= size {
        d.remove(s)
    } else {
        d.insert(s, (name, size, (got + n) as u64))
    }
}

/// The downloads path of a received file.
pub open spec fn save_path(f: Seq<u8>) -> Seq<u8> {
    "downloads/".spec_bytes() + f
}

/// The next state and actions for a message from the server, and whether the
/// session goes on.
pub open spec fn client_step(st: SessionView, m: MessageView) -> (SessionView, Seq<ActionView>, bool) {
    let none = (st, Seq::<ActionView>::empty(), true);
    match m.1 {
        MessageTypes::Ping => (st, seq![ActionView::Send(bare_of(MessageTypes::Pong))], true),
        MessageTypes::Join => match text_of(m.2) {
            Some(t) => (st, seq![ActionView::Joined(t)], true),
            None => none,
        },
        MessageTypes::Leave => match text_of(m.2) {
            Some(t) => (st, seq![ActionView::Left(t)], true),
            None => none,
        },
        MessageTypes::UserRename => match text_of(m.2) {
            Some(t) => (SessionView { name: t, ..st }, seq![ActionView::Renamed(t)], true),
            None => none,
        },
        MessageTypes::ChatMessage => match text_of(m.2) {
            Some(t) => if shows_chat(t, st.name) {
                (st, seq![ActionView::ShowChat(t)], true)
            } else {
                none
            },
            None => none,
        },
        MessageTypes::ListUsers => match text_of(m.2) {
            Some(t) => (st, seq![ActionView::ShowUsers(lines_of(t))], true),
            None => none,
        },
        MessageTypes::DirectMessage => match text_of(m.2) {
            Some(t) => {
                let (sender, rest) = split_bar(t);
                match rest {
                    Some(rest) => {
                        let (to, body) = split_bar(rest);
                        match body {
                            Some(body) => if to == st.name {
                                (SessionView { last_dm: Some(sender), ..st }, seq![ActionView::ShowDirect(sender, body)], true)
                            } else {
                                none
                            },
                            None => none,
                        }
                    },
                    None => none,
                }
            },
            None => none,
        },
        MessageTypes::Error => match text_of(m.2) {
            Some(t) => (
                SessionView {
                    kicked: st.kicked || contains_seq(t, "kicked".spec_bytes()) || contains_seq(t, "banned".spec_bytes()),
                    ..st
                },
                seq![ActionView::ShowError(t)],
                true,
            ),
            None => none,
        },
        MessageTypes::FileTransfer => match m.2 {
            Some(c) => match file_header(c) {
                Some((r, s, fp)) => if r != st.name || c.len() < fp + 1 + c[fp] {
                    none
                } else {
                    let f = c.subrange(fp + 1, fp + 1 + c[fp] as int);
                    let data = c.subrange(fp + 1 + c[fp], c.len() as int);
                    if !valid_utf8(f) {
                        none
                    } else if st.downloads.contains_key(s) {
                        let (name, size, got) = st.downloads[s];
                        (
                            SessionView { downloads: download_after(st.downloads, s, data.len() as int), ..st },
                            seq![ActionView::SaveFile(save_path(f), data, got > 0)],
                            true,
                        )
                    } else {
                        (st, seq![ActionView::SaveFile(save_path(f), data, false)], true)
                    }
                },
                None => none,
            },
            None => none,
        },
        MessageTypes::FileTransferRequest => match m.2 {
            Some(c) => match file_header(c) {
                Some((r, s, fp)) => if r != st.name || c.len() < fp + 1 + c[fp] + 8 {
                    none
                } else {
                    let f = c.subrange(fp + 1, fp + 1 + c[fp] as int);
                    let size = be_u64(c.subrange(fp + 1 + c[fp], c.len() as int));
                    if !valid_utf8(f) {
                        none
                    } else {
                        (
                            SessionView { incoming: st.incoming.insert(s, (s, f, size)), ..st },
                            seq![ActionView::FileOffered(s, f, size)],
                            true,
                        )
                    }
                },
                None => none,
            },
            None => none,
        },
        MessageTypes::FileTransferResponse => match m.2 {
            Some(c) => match file_header(c) {
                Some((r, s, fp)) => if r != st.name {
                    none
                } else {
                    let st2 = SessionView { outgoing: st.outgoing.remove(s), ..st };
                    if !st.outgoing.contains_key(s) {
                        (st2, seq![ActionView::NoPendingTransfer(s)], true)
                    } else if c[fp] == 1 {
                        (st2, seq![ActionView::SendFileData(st.outgoing[s].0, st.outgoing[s].1)], true)
                    } else {
                        (st2, seq![ActionView::FileDeclined(s)], true)
                    }
                },
                None => none,
            },
            None => none,
        },
        MessageTypes::FileTransferAck => match text_of(m.2) {
            Some(t) => (st, seq![ActionView::ShowInfo(t)], true),
            None => none,
        },
        MessageTypes::SetStatus => match text_of(m.2) {
            Some(t) => (st, seq![ActionView::ShowInfo(t)], true),
            None => none,
        },
        MessageTypes::VersionMismatch => match text_of(m.2) {
            Some(t) => (SessionView { kicked: true, ..st }, seq![ActionView::VersionMismatch(t)], false),
            None => (SessionView { kicked: true, ..st }, seq![ActionView::VersionMismatch(Seq::empty())], false),
        },
        _ => none,
    }
}


/// The first index at which `a` is directly followed by `b`.
pub fn find_pair(s: &[u8], a: u8, b: u8) -> (r: Option<usize>)
    ensures
        r is None <==> first_pair_index(s@, a, b) is None,
        r matches Some(i) ==> first_pair_index(s@, a, b) == Some(i as int) && i + 1 < s@.len(),
{
    let n = s.len();
    if n < 2 {
        return None;
    }
    let mut i: usize = 0;
    while i + 1 < n
        invariant
            n == s@.len(),
            n >= 2,
            i + 1 <= n,
            forall|j: int| 0 <= j < i ==> !(#[trigger] s@[j] == a && s@[j + 1] == b),
        decreases n - i,
    {
        if s[i] == a && s[i + 1] == b {
            proof {
                let k = choose|k: int|
                    0 <= k < s@.len() - 1 && #[trigger] s@[k] == a && s@[k + 1] == b && forall|j: int|
                        0 <= j < k ==> !(#[trigger] s@[j] == a && s@[j + 1] == b);
                if k < i {
                } else if k > i {
                    assert(!(s@[i as int] == a && s@[i + 1] == b));
                }
            }
            return Some(i);
        }
        i = i + 1;
    }
    None
}

/// Whether `t` contains `p`.
pub fn contains_bytes(t: &[u8], p: &[u8]) -> (r: bool)
    ensures
        r == contains_seq(t@, p@),
{
    let n = t.len();
    let k = p.len();
    if k > n {
        return false;
    }
    if k == 0 {
        assert(t@.subrange(0, 0 + p@.len() as int) =~= p@);
        return true;
    }
    let mut i: usize = 0;
    while i <= n - k
        invariant
            n == t@.len(),
            k == p@.len(),
            1 <= k <= n,
            i <= n - k + 1,
            forall|j: int| 0 <= j < i ==> #[trigger] t@.subrange(j, j + k) != p@,
        decreases n - k + 1 - i,
    {
        let w = copy_range(t, i, i + k);
        if bytes_eq(w.as_slice(), p) {
            assert(t@.subrange(i as int, i + p@.len()) == p@);
            return true;
        }
        i = i + 1;
    }
    assert forall|j: int| 0 <= j <= t@.len() - p@.len() implies #[trigger] t@.subrange(j, j + p@.len()) != p@ by {
        assert(j < i);
    }
    false
}

proof fn lemma_lines_step(rest: Seq<u8>, i: usize)
    requires
        i < rest.len(),
        crate::bytes::first_index_of(rest, 10u8) == Some(i),
    ensures
        lines_of(rest) == seq![rest.subrange(0, i as int)] + lines_of(rest.subrange(i + 1, rest.len() as int)),
{
}

/// The lines of `t`.
#[verifier::rlimit(100)]
pub fn split_lines(t: &[u8]) -> (r: Vec<Vec<u8>>)
    ensures
        r@.map_values(|v: Vec<u8>| v@) == lines_of(t@),
{
    let mut acc: Vec<Vec<u8>> = Vec::new();
    let mut rest = copy_range(t, 0, t.len());
    assert(rest@ =~= t@);
    assert(acc@.map_values(|v: Vec<u8>| v@) =~= Seq::<Seq<u8>>::empty());
    loop
        invariant
            acc@.map_values(|v: Vec<u8>| v@) + lines_of(rest@) == lines_of(t@),
        decreases rest@.len(),
    {
        let ghost acc0 = acc@.map_values(|v: Vec<u8>| v@);
        let ghost rest0 = rest@;
        match crate::bytes::find_byte(rest.as_slice(), 10u8) {
            Some(i) => {
                let n = rest.len();
                let line = copy_range(rest.as_slice(), 0, i);
                let next = copy_range(rest.as_slice(), i + 1, n);
                acc.push(line);
                assert(acc@.map_values(|v: Vec<u8>| v@) =~= acc0.push(rest0.subrange(0, i as int)));
                proof {
                    lemma_lines_step(rest0, i);
                }
                assert(acc0.push(rest0.subrange(0, i as int)) + lines_of(next@) =~= acc0 + (seq![rest0.subrange(0, i as int)] + lines_of(next@)));
                rest = next;
            },
            None => {
                if rest.len() > 0 {
                    acc.push(rest);
                    assert(acc@.map_values(|v: Vec<u8>| v@) =~= acc0 + seq![rest0]);
                } else {
                    assert(acc0 + lines_of(rest0) =~= acc0);
                }
                return acc;
            },
        }
    }
}

/// The `u64` read from the first eight big-endian bytes of `b`.
pub fn u64_from_be(b: &[u8]) -> (r: u64)
    requires
        b@.len() >= 8,
    ensures
        r == be_u64(b@),
{
    ((b[0] as u64) << 56u64) | ((b[1] as u64) << 48u64) | ((b[2] as u64) << 40u64) | ((b[3] as u64)
        << 32u64) | ((b[4] as u64) << 24u64) | ((b[5] as u64) << 16u64) | ((b[6] as u64) << 8u64)
        | (b[7] as u64)
}

/// What a session did with one message, and whether it goes on.
pub struct ClientReaction {
    pub actions: Vec<ClientAction>,
    pub keep_running: bool,
}

fn react(a: ClientAction) -> (r: ClientReaction)
    ensures
        actions_view(r.actions@) == seq![a@],
        r.keep_running,
{
    let mut v: Vec<ClientAction> = Vec::new();
    v.push(a);
    let r = ClientReaction { actions: v, keep_running: true };
    assert(actions_view(r.actions@) =~= seq![a@]);
    r
}

fn quiet() -> (r: ClientReaction)
    ensures
        actions_view(r.actions@) == Seq::<ActionView>::empty(),
        r.keep_running,
{
    let r = ClientReaction { actions: Vec::new(), keep_running: true };
    assert(actions_view(r.actions@) =~= Seq::<ActionView>::empty());
    r
}

fn text_bytes(m: &ChatMessage) -> (r: Option<Vec<u8>>)
    ensures
        opt_view(r) == text_of(m@.2),
{
    match &m.content {
        Some(v) => if is_utf8(v.as_slice()) {
            Some(copy_range(v.as_slice(), 0, v.len()))
        } else {
            None
        },
        None => None,
    }
}

/// Reads the header of a forwarded file message.
fn read_file_header(c: &[u8]) -> (r: Option<(Vec<u8>, Vec<u8>, usize)>)
    ensures
        match file_header(c@) {
            None => r is None,
            Some((rv, sv, fp)) => r matches Some((a, b, k)) && a@ == rv && b@ == sv && k == fp && fp < c@.len(),
        },
{
    let n = c.len();
    if n < 2 {
        return None;
    }
    let rl = c[0] as usize;
    if n < rl + 2 {
        return None;
    }
    let r = copy_range(c, 1, 1 + rl);
    let ss = 1 + rl;
    if !is_utf8(r.as_slice()) {
        return None;
    }
    let sl = c[ss] as usize;
    if n < ss + 1 + sl + 1 {
        return None;
    }
    let s = copy_range(c, ss + 1, ss + 1 + sl);
    if !is_utf8(s.as_slice()) {
        return None;
    }
    Some((r, s, ss + 1 + sl))
}

impl ChatClient {
    /// Maps keep their keys unique, every offer came with a sender whose
    /// length fits one byte, and a status kept for reconnecting fits a message.
    pub open spec fn wf(&self) -> bool {
        &&& self.pending_outgoing.wf()
        &&& self.pending_incoming.wf()
        &&& self.downloads.wf()
        &&& (self.current_status matches Some(st) ==> fits(st@))
        &&& forall|k: Seq<u8>| #[trigger] self@.incoming.contains_key(k) ==> k.len() <= 255
    }

    /// A session for `chat_name` that will present `session_token`.
    pub fn new(chat_name: Vec<u8>, session_token: Vec<u8>) -> (r: ChatClient)
        ensures
            r.wf(),
            r@.name == chat_name@,
            r.session_token@ == session_token@,
            r.current_status is None,
            r@.last_dm is None,
            !r@.kicked,
            r@.outgoing.is_empty(),
            r@.incoming.is_empty(),
            r@.downloads.is_empty(),
    {
        ChatClient {
            chat_name,
            session_token,
            current_status: None,
            last_dm_sender: None,
            was_kicked: false,
            pending_outgoing: NameMap::new(),
            pending_incoming: NameMap::new(),
            downloads: NameMap::new(),
        }
    }

    /// Reacts to one message from the server.
    #[verifier::spinoff_prover]
    #[verifier::rlimit(100)]
    pub fn handle_message(&mut self, msg: &ChatMessage) -> (r: ClientReaction)
        requires
            old(self).wf(),
        ensures
            final(self).wf(),
            (final(self)@, actions_view(r.actions@), r.keep_running) == client_step(old(self)@, msg@),
            final(self).session_token == old(self).session_token,
            final(self).current_status == old(self).current_status,
    {
        match msg.msg_type {
            MessageTypes::Ping => react(ClientAction::Send(ChatMessage::bare(MessageTypes::Pong))),
            MessageTypes::Join => match text_bytes(msg) {
                Some(t) => react(ClientAction::Joined(t)),
                None => quiet(),
            },
            MessageTypes::Leave => match text_bytes(msg) {
                Some(t) => react(ClientAction::Left(t)),
                None => quiet(),
            },
            MessageTypes::UserRename => match text_bytes(msg) {
                Some(t) => {
                    self.chat_name = copy_range(t.as_slice(), 0, t.len());
                    assert(self.chat_name@ =~= t@);
                    react(ClientAction::Renamed(t))
                },
                None => quiet(),
            },
            MessageTypes::ChatMessage => match text_bytes(msg) {
                Some(t) => {
                    let show = match find_pair(t.as_slice(), 58u8, 32u8) {
                        Some(i) => {
                            let prefix = copy_range(t.as_slice(), 0, i);
                            !bytes_eq(prefix.as_slice(), self.chat_name.as_slice())
                        },
                        None => true,
                    };
                    if show {
                        react(ClientAction::ShowChat(t))
                    } else {
                        quiet()
                    }
                },
                None => quiet(),
            },
            MessageTypes::ListUsers => match text_bytes(msg) {
                Some(t) => {
                    let lines = split_lines(t.as_slice());
                    react(ClientAction::ShowUsers(lines))
                },
                None => quiet(),
            },
            MessageTypes::DirectMessage => match text_bytes(msg) {
                Some(t) => {
                    let (sender, rest) = crate::handler::split_at_bar(t.as_slice());
                    match rest {
                        Some(rest) => {
                            let (to, body) = crate::handler::split_at_bar(rest.as_slice());
                            match body {
                                Some(body) => if bytes_eq(to.as_slice(), self.chat_name.as_slice()) {
                                    self.last_dm_sender = Some(copy_range(sender.as_slice(), 0, sender.len()));
                                    assert(opt_view(self.last_dm_sender) == Some(sender@)) by {
                                        assert(sender@.subrange(0, sender@.len() as int) =~= sender@);
                                    }
                                    react(ClientAction::ShowDirect { sender, text: body })
                                } else {
                                    quiet()
                                },
                                None => quiet(),
                            }
                        },
                        None => quiet(),
                    }
                },
                None => quiet(),
            },
            MessageTypes::Error => match text_bytes(msg) {
                Some(t) => {
                    let k = lit("kicked");
                    let b = lit("banned");
                    if contains_bytes(t.as_slice(), k.as_slice()) || contains_bytes(t.as_slice(), b.as_slice()) {
                        self.was_kicked = true;
                    }
                    react(ClientAction::ShowError(t))
                },
                None => quiet(),
            },
            MessageTypes::FileTransfer => self.on_file_data(msg),
            MessageTypes::FileTransferRequest => self.on_file_request(msg),
            MessageTypes::FileTransferResponse => self.on_file_response(msg),
            MessageTypes::FileTransferAck => match text_bytes(msg) {
                Some(t) => react(ClientAction::ShowInfo(t)),
                None => quiet(),
            },
            MessageTypes::SetStatus => match text_bytes(msg) {
                Some(t) => react(ClientAction::ShowInfo(t)),
                None => quiet(),
            },
            MessageTypes::VersionMismatch => match text_bytes(msg) {
                Some(t) => {
                    self.was_kicked = true;
                    let r = react(ClientAction::VersionMismatch(t));
                    ClientReaction { actions: r.actions, keep_running: false }
                },
                None => {
                    self.was_kicked = true;
                    let none: Vec<u8> = Vec::new();
                    let r = react(ClientAction::VersionMismatch(none));
                    ClientReaction { actions: r.actions, keep_running: false }
                },
            },
            _ => quiet(),
        }
    }

    fn on_file_data(&mut self, msg: &ChatMessage) -> (r: ClientReaction)
        requires
            old(self).wf(),
            msg@.1 is FileTransfer,
        ensures
            final(self).wf(),
            (final(self)@, actions_view(r.actions@), r.keep_running) == client_step(old(self)@, msg@),
            final(self).session_token == old(self).session_token,
            final(self).current_status == old(self).current_status,
    {
        let c = match &msg.content {
            Some(c) => c.as_slice(),
            None => return quiet(),
        };
        let (to, _sender, fp) = match read_file_header(c) {
            Some(h) => h,
            None => return quiet(),
        };
        if !bytes_eq(to.as_slice(), self.chat_name.as_slice()) {
            return quiet();
        }
        let fl = c[fp] as usize;
        if c.len() < fp + 1 + fl {
            return quiet();
        }
        let f = copy_range(c, fp + 1, fp + 1 + fl);
        if !is_utf8(f.as_slice()) {
            return quiet();
        }
        let data = copy_range(c, fp + 1 + fl, c.len());
        let path = concat(lit("downloads/").as_slice(), f.as_slice());
        let n = data.len();
        let progress = match self.downloads.get(_sender.as_slice()) {
            Some(d) => Some((copy_range(d.file_name.as_slice(), 0, d.file_name.len()), d.file_size, d.received)),
            None => None,
        };
        match progress {
            None => react(ClientAction::SaveFile { path, data, append: false }),
            Some((name, size, got)) => {
                assert(name@ =~= self@.downloads[_sender@].0);
                if n as u64 >= size || got >= size - n as u64 {
                    let _ = self.downloads.remove(_sender.as_slice());
                } else {
                    let key = copy_range(_sender.as_slice(), 0, _sender.len());
                    assert(key@ =~= _sender@);
                    self.downloads.insert(key, Download { file_name: name, file_size: size, received: got + n as u64 });
                }
                assert(self@.downloads =~= download_after(old(self)@.downloads, _sender@, n as int));
                react(ClientAction::SaveFile { path, data, append: got > 0 })
            },
        }
    }

    fn on_file_request(&mut self, msg: &ChatMessage) -> (r: ClientReaction)
        requires
            old(self).wf(),
            msg@.1 is FileTransferRequest,
        ensures
            final(self).wf(),
            (final(self)@, actions_view(r.actions@), r.keep_running) == client_step(old(self)@, msg@),
            final(self).session_token == old(self).session_token,
            final(self).current_status == old(self).current_status,
    {
        let c = match &msg.content {
            Some(c) => c.as_slice(),
            None => return quiet(),
        };
        let (to, sender, fp) = match read_file_header(c) {
            Some(h) => h,
            None => return quiet(),
        };
        if !bytes_eq(to.as_slice(), self.chat_name.as_slice()) {
            return quiet();
        }
        let fl = c[fp] as usize;
        if c.len() < fp + 1 + fl + 8 {
            return quiet();
        }
        let f = copy_range(c, fp + 1, fp + 1 + fl);
        if !is_utf8(f.as_slice()) {
            return quiet();
        }
        let size_bytes = copy_range(c, fp + 1 + fl, c.len());
        let size = u64_from_be(size_bytes.as_slice());
        let key = copy_range(sender.as_slice(), 0, sender.len());
        let s2 = copy_range(sender.as_slice(), 0, sender.len());
        let f2 = copy_range(f.as_slice(), 0, f.len());
        assert(key@ =~= sender@);
        assert(s2@ =~= sender@);
        assert(f2@ =~= f@);
        self.pending_incoming.insert(key, PendingIncomingTransfer { sender: s2, file_name: f2, file_size: size });
        react(ClientAction::FileOffered { sender, file_name: f, file_size: size })
    }

    fn on_file_response(&mut self, msg: &ChatMessage) -> (r: ClientReaction)
        requires
            old(self).wf(),
            msg@.1 is FileTransferResponse,
        ensures
            final(self).wf(),
            (final(self)@, actions_view(r.actions@), r.keep_running) == client_step(old(self)@, msg@),
            final(self).session_token == old(self).session_token,
            final(self).current_status == old(self).current_status,
    {
        let c = match &msg.content {
            Some(c) => c.as_slice(),
            None => return quiet(),
        };
        let (to, responder, fp) = match read_file_header(c) {
            Some(h) => h,
            None => return quiet(),
        };
        if !bytes_eq(to.as_slice(), self.chat_name.as_slice()) {
            return quiet();
        }
        let accepted = c[fp] == 1u8;
        match self.pending_outgoing.remove(responder.as_slice()) {
            None => react(ClientAction::NoPendingTransfer { responder }),
            Some(t) => if accepted {
                react(ClientAction::SendFileData { recipient: t.recipient, file_path: t.file_path })
            } else {
                react(ClientAction::FileDeclined { responder })
            },
        }
    }
}

/// Every file delivered for saving was addressed to this client under its
/// current name, and is saved under `downloads/<file name>`.
pub proof fn lemma_saved_files_are_ours(st: SessionView, c: Seq<u8>, fmsg: MessageView)
    requires
        fmsg.1 is FileTransfer,
        fmsg.2 == Some(c),
        client_step(st, fmsg).1.len() > 0,
    ensures
        ({
            let (r, s, fp) = file_header(c)->0;
            &&& file_header(c) is Some
            &&& r == st.name
            &&& client_step(st, fmsg).1 == seq![
                ActionView::SaveFile(
                    save_path(c.subrange(fp + 1, fp + 1 + c[fp] as int)),
                    c.subrange(fp + 1 + c[fp], c.len() as int),
                    st.downloads.contains_key(s) && st.downloads[s].2 > 0,
                ),
            ]
        }),
{
}


/// Join content: `<name>|<token>`.
pub open spec fn join_content(name: Seq<u8>, token: Seq<u8>) -> Seq<u8> {
    name + seq![124u8] + token
}

/// Whether a message with content `c` fits the 32-bit length field.
pub open spec fn fits(c: Seq<u8>) -> bool {
    c.len() + 5 <= u32::MAX
}

/// A message of kind `t` with content `c`, or the error the client reports
/// when it does not fit.
fn build(t: MessageTypes, c: Vec<u8>) -> (r: Result<ChatMessage, ChatClientError>)
    ensures
        r is Ok <==> fits(c@),
        r matches Ok(m) ==> m@ == msg_of(t, c@),
        r matches Err(e) ==> e == ChatClientError::ChatMessageError,
{
    if c.len() > 4294967290usize {
        Err(ChatClientError::ChatMessageError)
    } else {
        Ok(ChatMessage::with_bytes(t, c))
    }
}

/// The answer to a file offer from `s`: `[s_len][s][accepted]`.
pub open spec fn response_content(s: Seq<u8>, accepted: bool) -> Seq<u8> {
    seq![s.len() as u8] + s + seq![if accepted { 1u8 } else { 0u8 }]
}

/// What a command line sends and shows, and how the session changes: the
/// new session, the status to restore on reconnect, and the actions.
pub open spec fn outbound_spec(st: SessionView, status: Option<Seq<u8>>, i: InputView) -> Result<
    (SessionView, Option<Seq<u8>>, Seq<ActionView>),
    ChatClientError,
> {
    let err = Err(ChatClientError::ChatMessageError);
    match i {
        InputView::Message(m) => {
            let b = encode_utf8(m);
            if all_ws(m) {
                Ok((st, status, seq![ActionView::EmptyMessage]))
            } else if !fits(b) {
                err
            } else {
                Ok((st, status, seq![ActionView::EchoChat(st.name + ": ".spec_bytes() + b), ActionView::Send(msg_of(MessageTypes::ChatMessage, b))]))
            }
        },
        InputView::DirectMessage(r, m) => {
            let (rb, b) = (encode_utf8(r), encode_utf8(m));
            let c = rb + seq![124u8] + b;
            if all_ws(m) {
                Ok((st, status, seq![ActionView::EmptyMessage]))
            } else if !fits(c) {
                err
            } else {
                Ok((st, status, seq![ActionView::EchoDirect(rb, b), ActionView::Send(msg_of(MessageTypes::DirectMessage, c))]))
            }
        },
        InputView::Reply(m) => {
            let b = encode_utf8(m);
            if all_ws(m) {
                Ok((st, status, seq![ActionView::EmptyMessage]))
            } else {
                match st.last_dm {
                    None => Ok((st, status, seq![ActionView::NoReplyTarget])),
                    Some(rb) => {
                        let c = rb + seq![124u8] + b;
                        if !fits(c) {
                            err
                        } else {
                            Ok((st, status, seq![ActionView::EchoDirect(rb, b), ActionView::Send(msg_of(MessageTypes::DirectMessage, c))]))
                        }
                    },
                }
            }
        },
        InputView::Help => Ok((st, status, seq![ActionView::ShowHelp])),
        InputView::ListUsers => Ok((st, status, seq![ActionView::Send(bare_of(MessageTypes::ListUsers))])),
        InputView::Rename(n) => if !fits(encode_utf8(n)) {
            err
        } else {
            Ok((st, status, seq![ActionView::Send(msg_of(MessageTypes::RenameRequest, encode_utf8(n)))]))
        },
        InputView::SendFile(r, p) => Ok((st, status, seq![ActionView::OfferFile(encode_utf8(r), encode_utf8(p))])),
        InputView::AcceptFile(sn) => {
            let sb = encode_utf8(sn);
            if st.incoming.contains_key(sb) {
                Ok((SessionView {
                    incoming: st.incoming.remove(sb),
                    downloads: st.downloads.insert(sb, (st.incoming[sb].1, st.incoming[sb].2, 0u64)),
                    ..st
                }, status,
                    seq![ActionView::Send(msg_of(MessageTypes::FileTransferResponse, response_content(sb, true)))]))
            } else {
                Ok((st, status, seq![ActionView::NoPendingTransfer(sb)]))
            }
        },
        InputView::RejectFile(sn) => {
            let sb = encode_utf8(sn);
            if st.incoming.contains_key(sb) {
                Ok((SessionView { incoming: st.incoming.remove(sb), ..st }, status,
                    seq![ActionView::Send(msg_of(MessageTypes::FileTransferResponse, response_content(sb, false)))]))
            } else {
                Ok((st, status, seq![ActionView::NoPendingTransfer(sb)]))
            }
        },
        InputView::Status(s) => match s {
            None => Ok((st, None, seq![ActionView::Send(bare_of(MessageTypes::SetStatus))])),
            Some(t) => if !fits(encode_utf8(t)) {
                err
            } else {
                Ok((st, Some(encode_utf8(t)), seq![ActionView::Send(msg_of(MessageTypes::SetStatus, encode_utf8(t)))]))
            },
        },
        InputView::Quit => Ok((st, status, seq![ActionView::Send(bare_of(MessageTypes::Leave)), ActionView::Quit])),
    }
}

fn str_bytes(s: &String) -> (r: Vec<u8>)
    ensures
        r@ == encode_utf8(s@),
{
    let b = s.as_str().as_bytes();
    copy_range(b, 0, b.len())
}

fn actions1(a: ClientAction) -> (r: Vec<ClientAction>)
    ensures
        actions_view(r@) == seq![a@],
{
    let mut v: Vec<ClientAction> = Vec::new();
    v.push(a);
    assert(actions_view(v@) =~= seq![a@]);
    v
}

fn actions2(a: ClientAction, b: ClientAction) -> (r: Vec<ClientAction>)
    ensures
        actions_view(r@) == seq![a@, b@],
{
    let mut v: Vec<ClientAction> = Vec::new();
    v.push(a);
    v.push(b);
    assert(actions_view(v@) =~= seq![a@, b@]);
    v
}

pub open spec fn is_lower_hex(c: char) -> bool {
    ('0' <= c <= '9') || ('a' <= c <= 'f')
}

/// A random UUID in hyphenated form: 36 lowercase hex digits and dashes,
/// the dashes at 8, 13, 18 and 23, version `4` at 14 and the variant digit
/// at 19 one of `8`, `9`, `a`, `b`.
pub open spec fn uuid_v4_text(s: Seq<char>) -> bool {
    &&& s.len() == 36
    &&& forall|i: int|
        0 <= i < 36 ==> if i == 8 || i == 13 || i == 18 || i == 23 {
            #[trigger] s[i] == '-'
        } else {
            is_lower_hex(s[i])
        }
    &&& s[14] == '4'
    &&& (s[19] == '8' || s[19] == '9' || s[19] == 'a' || s[19] == 'b')
}

/// Relies on uuid's `Uuid::new_v4` and its `Display`: a random version-4
/// UUID, written hyphenated in lowercase hex.
#[verifier::external_body]
fn random_uuid() -> (r: String)
    ensures
        uuid_v4_text(r@),
{
    uuid::Uuid::new_v4().to_string()
}

/// A fresh session token: a random UUID in hyphenated form.
pub fn new_session_token() -> (r: String)
    ensures
        uuid_v4_text(r@),
{
    random_uuid()
}

/// Reconnect waits start at one second and double up to a minute.
pub const INITIAL_BACKOFF_MS: u64 = 1000;

pub const MAX_BACKOFF_MS: u64 = 60000;

/// The wait after one that lasted `cur_ms`: doubled, at most a minute.
pub fn next_backoff_ms(cur_ms: u64) -> (r: u64)
    ensures
        r == if 2 * cur_ms <= MAX_BACKOFF_MS { 2 * cur_ms } else { MAX_BACKOFF_MS as int },
{
    if cur_ms <= MAX_BACKOFF_MS / 2 {
        cur_ms * 2
    } else {
        MAX_BACKOFF_MS
    }
}

/// Waits grow from the initial one and never pass the cap.
pub proof fn lemma_backoff_bounded(cur_ms: u64)
    requires
        INITIAL_BACKOFF_MS <= cur_ms <= MAX_BACKOFF_MS,
    ensures
        ({
            let n = if 2 * cur_ms <= MAX_BACKOFF_MS { 2 * cur_ms } else { MAX_BACKOFF_MS as int };
            cur_ms <= n <= MAX_BACKOFF_MS
        }),
{
}

impl ChatClient {
    /// After a lost connection the client reconnects unless it was kicked,
    /// banned or refused for its version.
    pub fn should_reconnect(&self) -> (r: bool)
        ensures
            r == !self.was_kicked,
    {
        !self.was_kicked
    }

    /// The messages that open a session: the version check, the join with
    /// our token and, when reconnecting, the status to restore.
    pub fn handshake(&self, reconnecting: bool) -> (r: Result<Vec<ChatMessage>, ChatClientError>)
        requires
            self.wf(),
        ensures
            r is Ok <==> fits(join_content(self.chat_name@, self.session_token@)),
            r matches Ok(v) ==> v@.map_values(|m: ChatMessage| m@) == seq![
                msg_of(MessageTypes::VersionCheck, VERSION.spec_bytes()),
                msg_of(MessageTypes::Join, join_content(self.chat_name@, self.session_token@)),
            ] + if reconnecting && self.current_status is Some {
                seq![msg_of(MessageTypes::SetStatus, self.current_status->0@)]
            } else {
                Seq::empty()
            },
            r matches Err(e) ==> e == ChatClientError::ChatMessageError,
    {
        proof {
            reveal_strlit("0.1.8");
            assert(vstd::string::is_ascii(VERSION));
        }
        let vb = VERSION.as_bytes();
        let v = ChatMessage::with_bytes(MessageTypes::VersionCheck, copy_range(vb, 0, vb.len()));
        let a = concat(self.chat_name.as_slice(), &[124u8]);
        let jc = concat(a.as_slice(), self.session_token.as_slice());
        assert(jc@ =~= join_content(self.chat_name@, self.session_token@));
        let j = build(MessageTypes::Join, jc)?;
        proof {
            assert(vb@.subrange(0, vb@.len() as int) =~= vb@);
        }
        let mut out: Vec<ChatMessage> = Vec::new();
        out.push(v);
        out.push(j);
        let ghost head = seq![
            msg_of(MessageTypes::VersionCheck, VERSION.spec_bytes()),
            msg_of(MessageTypes::Join, join_content(self.chat_name@, self.session_token@)),
        ];
        assert(out@.map_values(|m: ChatMessage| m@) =~= head);
        if reconnecting {
            if let Some(st) = &self.current_status {
                let s = build(MessageTypes::SetStatus, copy_range(st.as_slice(), 0, st.len()))?;
                assert(st@.subrange(0, st@.len() as int) =~= st@);
                out.push(s);
                assert(out@.map_values(|m: ChatMessage| m@) =~= head + seq![msg_of(MessageTypes::SetStatus, st@)]);
            }
        }
        assert(out@.map_values(|m: ChatMessage| m@) =~= seq![
            msg_of(MessageTypes::VersionCheck, VERSION.spec_bytes()),
            msg_of(MessageTypes::Join, join_content(self.chat_name@, self.session_token@)),
        ] + if reconnecting && self.current_status is Some {
            seq![msg_of(MessageTypes::SetStatus, self.current_status->0@)]
        } else {
            Seq::empty()
        });
        Ok(out)
    }

    /// What a command line does.
    #[verifier::rlimit(60)]
    pub fn outbound(&mut self, input: &ClientUserInput) -> (r: Result<Vec<ClientAction>, ChatClientError>)
        requires
            old(self).wf(),
        ensures
            final(self).wf(),
            final(self).session_token == old(self).session_token,
            match outbound_spec(old(self)@, opt_view(old(self).current_status), input@) {
                Ok((st, status, acts)) => r matches Ok(v) && actions_view(v@) == acts && final(self)@ == st
                    && opt_view(final(self).current_status) == status,
                Err(e) => r == Err::<Vec<ClientAction>, ChatClientError>(e) && final(self)@ == old(self)@,
            },
    {
        match input {
            ClientUserInput::Message(m) => {
                let b = str_bytes(m);
                if is_blank(m.as_str()) {
                    return Ok(actions1(ClientAction::EmptyMessage));
                }
                let msg = build(MessageTypes::ChatMessage, copy_range(b.as_slice(), 0, b.len()))?;
                assert(b@.subrange(0, b@.len() as int) =~= b@);
                let a = concat(self.chat_name.as_slice(), lit(": ").as_slice());
                let echo = concat(a.as_slice(), b.as_slice());
                Ok(actions2(ClientAction::EchoChat(echo), ClientAction::Send(msg)))
            },
            ClientUserInput::DirectMessage { recipient, message } => {
                let rb = str_bytes(recipient);
                let b = str_bytes(message);
                if is_blank(message.as_str()) {
                    return Ok(actions1(ClientAction::EmptyMessage));
                }
                let a = concat(rb.as_slice(), &[124u8]);
                let c = concat(a.as_slice(), b.as_slice());
                assert(c@ =~= rb@ + seq![124u8] + b@);
                let msg = build(MessageTypes::DirectMessage, c)?;
                Ok(actions2(ClientAction::EchoDirect { recipient: rb, text: b }, ClientAction::Send(msg)))
            },
            ClientUserInput::Reply(m) => {
                let b = str_bytes(m);
                if is_blank(m.as_str()) {
                    return Ok(actions1(ClientAction::EmptyMessage));
                }
                match &self.last_dm_sender {
                    None => Ok(actions1(ClientAction::NoReplyTarget)),
                    Some(rb) => {
                        let a = concat(rb.as_slice(), &[124u8]);
                        let c = concat(a.as_slice(), b.as_slice());
                        assert(c@ =~= rb@ + seq![124u8] + b@);
                        let msg = build(MessageTypes::DirectMessage, c)?;
                        let r2 = copy_range(rb.as_slice(), 0, rb.len());
                        assert(r2@ =~= rb@);
                        Ok(actions2(ClientAction::EchoDirect { recipient: r2, text: b }, ClientAction::Send(msg)))
                    },
                }
            },
            ClientUserInput::Help => Ok(actions1(ClientAction::ShowHelp)),
            ClientUserInput::ListUsers => Ok(actions1(ClientAction::Send(ChatMessage::bare(MessageTypes::ListUsers)))),
            ClientUserInput::Rename(n) => {
                let msg = build(MessageTypes::RenameRequest, str_bytes(n))?;
                Ok(actions1(ClientAction::Send(msg)))
            },
            ClientUserInput::SendFile { recipient, file_path } => Ok(
                actions1(ClientAction::OfferFile { recipient: str_bytes(recipient), file_path: str_bytes(file_path) }),
            ),
            ClientUserInput::AcceptFile { sender } => self.answer_offer(str_bytes(sender), true),
            ClientUserInput::RejectFile { sender } => self.answer_offer(str_bytes(sender), false),
            ClientUserInput::Status(s) => match s {
                None => {
                    self.current_status = None;
                    Ok(actions1(ClientAction::Send(ChatMessage::bare(MessageTypes::SetStatus))))
                },
                Some(t) => {
                    let b = str_bytes(t);
                    let msg = build(MessageTypes::SetStatus, copy_range(b.as_slice(), 0, b.len()))?;
                    assert(b@.subrange(0, b@.len() as int) =~= b@);
                    self.current_status = Some(b);
                    Ok(actions1(ClientAction::Send(msg)))
                },
            },
            ClientUserInput::Quit => Ok(actions2(ClientAction::Send(ChatMessage::bare(MessageTypes::Leave)), ClientAction::Quit)),
        }
    }

    fn answer_offer(&mut self, sb: Vec<u8>, accepted: bool) -> (r: Result<Vec<ClientAction>, ChatClientError>)
        requires
            old(self).wf(),
        ensures
            final(self).wf(),
            final(self).session_token == old(self).session_token,
            final(self).current_status == old(self).current_status,
            old(self)@.incoming.contains_key(sb@) ==> (r matches Ok(v) && final(self)@ == (SessionView {
                incoming: old(self)@.incoming.remove(sb@),
                downloads: if accepted {
                    old(self)@.downloads.insert(sb@, (old(self)@.incoming[sb@].1, old(self)@.incoming[sb@].2, 0u64))
                } else {
                    old(self)@.downloads
                },
                ..old(self)@
            })
                && actions_view(v@) == seq![ActionView::Send(msg_of(MessageTypes::FileTransferResponse, response_content(sb@, accepted)))]),
            !old(self)@.incoming.contains_key(sb@) ==> (r matches Ok(v) && final(self)@ == old(self)@
                && actions_view(v@) == seq![ActionView::NoPendingTransfer(sb@)]),
    {
        let ghost before = self.pending_incoming@;
        let removed = self.pending_incoming.remove(sb.as_slice());
        assert(forall|k: Seq<u8>| #[trigger] self@.incoming.contains_key(k) ==> before.contains_key(k));
        match removed {
            None => {
                assert(self.pending_incoming@ =~= before);
                Ok(actions1(ClientAction::NoPendingTransfer { responder: sb }))
            },
            Some(t) => {
                if accepted {
                    let key = copy_range(sb.as_slice(), 0, sb.len());
                    assert(key@ =~= sb@);
                    self.downloads.insert(key, Download { file_name: t.file_name, file_size: t.file_size, received: 0 });
                }
                let mut c: Vec<u8> = Vec::new();
                c.push(sb.len() as u8);
                let c = concat(c.as_slice(), sb.as_slice());
                let mut c = c;
                c.push(if accepted { 1u8 } else { 0u8 });
                assert(c@ =~= response_content(sb@, accepted));
                Ok(actions1(ClientAction::Send(ChatMessage::with_bytes(MessageTypes::FileTransferResponse, c))))
            },
        }
    }
}


/// Largest file a client offers to send: ten mebibytes.
pub const MAX_FILE_SIZE: u64 = 10485760;

/// Port used when an address names none.
pub const DEFAULT_PORT: u16 = 8080;

/// File request content: `[r_len][r][f_len][f][size: u64 BE]`.
pub open spec fn request_content(r: Seq<u8>, f: Seq<u8>, size: u64) -> Seq<u8> {
    seq![r.len() as u8] + r + seq![f.len() as u8] + f + u64_be(size)
}

/// File data content: `[r_len][r][f_len][f][data]`.
pub open spec fn data_content(r: Seq<u8>, f: Seq<u8>, data: Seq<u8>) -> Seq<u8> {
    seq![r.len() as u8] + r + seq![f.len() as u8] + f + data
}

fn u64_to_be(v: u64) -> (r: Vec<u8>)
    ensures
        r@ == u64_be(v),
{
    let mut r: Vec<u8> = Vec::new();
    r.push((v >> 56u64) as u8);
    r.push((v >> 48u64) as u8);
    r.push((v >> 40u64) as u8);
    r.push((v >> 32u64) as u8);
    r.push((v >> 24u64) as u8);
    r.push((v >> 16u64) as u8);
    r.push((v >> 8u64) as u8);
    r.push(v as u8);
    assert(r@ =~= u64_be(v));
    r
}

fn two_fields(r: &[u8], f: &[u8]) -> (out: Vec<u8>)
    requires
        r@.len() <= 255,
        f@.len() <= 255,
    ensures
        out@ == seq![r@.len() as u8] + r@ + seq![f@.len() as u8] + f@,
{
    let mut out: Vec<u8> = Vec::new();
    out.push(r.len() as u8);
    let out = concat(out.as_slice(), r);
    let mut out = out;
    out.push(f.len() as u8);
    let out = concat(out.as_slice(), f);
    assert(out@ =~= seq![r@.len() as u8] + r@ + seq![f@.len() as u8] + f@);
    out
}

#[derive(Debug, Clone, Copy, PartialEq, Eq, Structural)]
pub enum FileOfferError {
    TooLarge,
    NameTooLong,
}

impl ChatClient {
    /// Offers the file at `file_path`, named `file_name` and `file_size`
    /// bytes long, to `recipient`: the offer is remembered until answered.
    pub fn offer_file(&mut self, recipient: &[u8], file_path: Vec<u8>, file_name: &[u8], file_size: u64) -> (r: Result<ChatMessage, FileOfferError>)
        requires
            old(self).wf(),
        ensures
            final(self).wf(),
            final(self).session_token == old(self).session_token,
            final(self).current_status == old(self).current_status,
            r matches Err(e) ==> final(self)@ == old(self)@ && e == (if file_size > MAX_FILE_SIZE {
                FileOfferError::TooLarge
            } else {
                FileOfferError::NameTooLong
            }),
            r is Ok <==> file_size <= MAX_FILE_SIZE && recipient@.len() <= 255 && file_name@.len() <= 255,
            r matches Ok(m) ==> m@ == msg_of(MessageTypes::FileTransferRequest, request_content(recipient@, file_name@, file_size))
                && final(self)@ == (SessionView {
                outgoing: old(self)@.outgoing.insert(recipient@, (recipient@, file_path@, file_name@, file_size)),
                ..old(self)@
            }),
    {
        if file_size > MAX_FILE_SIZE {
            return Err(FileOfferError::TooLarge);
        }
        if recipient.len() > 255 || file_name.len() > 255 {
            return Err(FileOfferError::NameTooLong);
        }
        let head = two_fields(recipient, file_name);
        let size = u64_to_be(file_size);
        let c = concat(head.as_slice(), size.as_slice());
        let key = copy_range(recipient, 0, recipient.len());
        let r2 = copy_range(recipient, 0, recipient.len());
        let f2 = copy_range(file_name, 0, file_name.len());
        assert(key@ =~= recipient@);
        assert(r2@ =~= recipient@);
        assert(f2@ =~= file_name@);
        let ghost inc = self@.incoming;
        self.pending_outgoing.insert(key, PendingOutgoingTransfer { recipient: r2, file_path, file_name: f2, file_size });
        assert(self@.incoming == inc);
        Ok(ChatMessage::with_bytes(MessageTypes::FileTransferRequest, c))
    }
}

pub open spec fn is_digit(c: char) -> bool {
    '0' <= c <= '9'
}

/// The number written by the decimal digits `s`.
pub open spec fn digits_value(s: Seq<char>) -> int
    decreases s.len(),
{
    if s.len() == 0 {
        0
    } else {
        digits_value(s.drop_last()) * 10 + (s.last() as int - '0' as int)
    }
}

/// A port as `u16::from_str` reads it: an optional `+`, then one or more
/// decimal digits, with a value of at most 65535.
pub open spec fn port_spec(s: Seq<char>) -> Option<u16> {
    let d = port_digits(s);
    if d.len() == 0 || !all_digits(d) || digits_value(d) > 65535 {
        None
    } else {
        Some(digits_value(d) as u16)
    }
}

/// `s` without one leading `+`.
pub open spec fn port_digits(s: Seq<char>) -> Seq<char> {
    if s.len() > 0 && s[0] == '+' {
        s.drop_first()
    } else {
        s
    }
}

pub open spec fn all_digits(d: Seq<char>) -> bool {
    forall|i: int| 0 <= i < d.len() ==> is_digit(#[trigger] d[i])
}

/// The last index of `c` in `s`.
pub open spec fn last_index_of(s: Seq<char>, c: char) -> Option<int> {
    if exists|i: int| 0 <= i < s.len() && s[i] == c {
        Some(choose|i: int| 0 <= i < s.len() && s[i] == c && forall|j: int| i < j < s.len() ==> s[j] != c)
    } else {
        None
    }
}

/// `[tls://]host[:port]`: host, port (8080 when absent) and whether TLS is
/// asked for. The port follows the last colon.
pub open spec fn server_addr_spec(a: Seq<char>) -> Result<(Seq<char>, u16, bool), ChatClientError> {
    let tls = a.len() >= 6 && a.subrange(0, 6) == "tls://"@;
    let rest = if tls {
        a.subrange(6, a.len() as int)
    } else {
        a
    };
    match last_index_of(rest, ':') {
        Some(i) => match port_spec(rest.subrange(i + 1, rest.len() as int)) {
            Some(p) => Ok((rest.subrange(0, i), p, tls)),
            None => Err(ChatClientError::InvalidAddress),
        },
        None => Ok((rest, DEFAULT_PORT, tls)),
    }
}

fn parse_port(s: &[char]) -> (r: Option<u16>)
    ensures
        r == port_spec(s@),
{
    let start: usize = if s.len() > 0 && s[0] == '+' {
        1
    } else {
        0
    };
    let ghost d = if s@.len() > 0 && s@[0] == '+' {
        s@.drop_first()
    } else {
        s@
    };
    assert(d =~= s@.subrange(start as int, s@.len() as int));
    if start >= s.len() {
        return None;
    }
    let mut v: u32 = 0;
    let mut i: usize = start;
    assert(d.subrange(0, 0) =~= Seq::<char>::empty());
    while i < s.len()
        invariant
            start <= i <= s@.len(),
            d == s@.subrange(start as int, s@.len() as int),
            d == port_digits(s@),
            forall|k: int| 0 <= k < i - start ==> is_digit(#[trigger] d[k]),
            v as int == digits_value(d.subrange(0, i - start)),
            v <= 65535,
        decreases s@.len() - i,
    {
        let c = s[i];
        assert(d[i - start] == c);
        if !('0' <= c && c <= '9') {
            assert(!is_digit(d[i - start]));
            proof {
                lemma_port_none(s@, d, i - start);
            }
            return None;
        }
        let ghost n: int = i - start;
        assert(d.subrange(0, n + 1).drop_last() =~= d.subrange(0, n));
        assert(d.subrange(0, n + 1).last() == c);
        assert(digits_value(d.subrange(0, n + 1)) == v * 10 + (c as int - '0' as int));
        let digit = (c as u32) - ('0' as u32);
        let nv = v * 10 + digit;
        if nv > 65535 {
            proof {
                lemma_digits_grow(d, n + 1);
            }
            proof {
                if exists|k: int| 0 <= k < d.len() && !is_digit(#[trigger] d[k]) {
                    let k = choose|k: int| 0 <= k < d.len() && !is_digit(#[trigger] d[k]);
                    lemma_port_none(s@, d, k);
                }
            }
            return None;
        }
        v = nv;
        i = i + 1;
    }
    assert(d.subrange(0, d.len() as int) =~= d);
    assert(all_digits(d));
    Some(v as u16)
}

proof fn lemma_port_none(s: Seq<char>, d: Seq<char>, k: int)
    requires
        d == port_digits(s),
        0 <= k < d.len(),
        !is_digit(d[k]),
    ensures
        port_spec(s) is None,
{
    assert(!all_digits(d));
}

/// Once a prefix of digits exceeds a bound, the whole number does too.
proof fn lemma_digits_grow(d: Seq<char>, n: int)
    requires
        0 < n <= d.len(),
        digits_value(d.subrange(0, n)) > 65535,
    ensures
        (exists|k: int| 0 <= k < d.len() && !is_digit(#[trigger] d[k])) || digits_value(d) > 65535,
    decreases d.len() - n,
{
    if n < d.len() {
        if forall|k: int| 0 <= k < d.len() ==> is_digit(#[trigger] d[k]) {
            assert(d.subrange(0, n + 1).drop_last() =~= d.subrange(0, n));
            assert(is_digit(d[n]));
            lemma_digits_grow(d, n + 1);
        }
    } else {
        assert(d.subrange(0, n) =~= d);
    }
}

fn last_colon(s: &[char]) -> (r: Option<usize>)
    ensures
        r matches Some(j) ==> j < s@.len() && last_index_of(s@, ':') == Some(j as int),
        r is None ==> last_index_of(s@, ':') is None,
        match last_index_of(s@, ':') {
            Some(i) => r == Some(i as usize) && i < s@.len(),
            None => r is None,
        },
{
    let mut i: usize = s.len();
    while i > 0
        invariant
            i <= s@.len(),
            forall|j: int| i <= j < s@.len() ==> s@[j] != ':',
        decreases i,
    {
        if s[i - 1] == ':' {
            proof {
                let k = choose|k: int| 0 <= k < s@.len() && s@[k] == ':' && forall|j: int| k < j < s@.len() ==> s@[j] != ':';
                if k < i - 1 {
                    assert(s@[i - 1] != ':');
                } else if k > i - 1 {
                    assert(s@[k] != ':');
                }
                assert(k == i - 1);
            }
            return Some(i - 1);
        }
        i = i - 1;
    }
    None
}

/// Whether `a` starts with `tls://`, and the rest of it.
fn strip_tls(a: &[char]) -> (r: (bool, Vec<char>))
    ensures
        r.0 == (a@.len() >= 6 && a@.subrange(0, 6) == "tls://"@),
        r.1@ == if r.0 { a@.subrange(6, a@.len() as int) } else { a@ },
{
    let tls = if a.len() >= 6 {
        let head = copy_chars(a, 0, 6);
        chars_eq_str(head.as_slice(), "tls://")
    } else {
        false
    };
    let rest = if tls {
        copy_chars(a, 6, a.len())
    } else {
        copy_chars(a, 0, a.len())
    };
    assert(!tls ==> rest@ =~= a@);
    (tls, rest)
}

/// Reads a server address `[tls://]host[:port]`.
pub fn parse_server_addr(addr: &str) -> (r: Result<(String, u16, bool), ChatClientError>)
    ensures
        match server_addr_spec(addr@) {
            Ok((h, p, t)) => r matches Ok((rh, rp, rt)) && rh@ == h && rp == p && rt == t,
            Err(e) => r == Err::<(String, u16, bool), ChatClientError>(e),
        },
{
    let a = chars_of(addr);
    let (tls, rest) = strip_tls(a.as_slice());
    let n = rest.len();
    match last_colon(rest.as_slice()) {
        Some(i) => {
            let port_chars = copy_chars(rest.as_slice(), i + 1, n);
            assert(port_chars@ == rest@.subrange(i + 1, rest@.len() as int));
            match parse_port(port_chars.as_slice()) {
                Some(p) => {
                    let host = copy_chars(rest.as_slice(), 0, i);
                    assert(a@ == addr@);
                    Ok((string_from_chars(host.as_slice()), p, tls))
                },
                None => Err(ChatClientError::InvalidAddress),
            }
        },
        None => Ok((string_from_chars(rest.as_slice()), DEFAULT_PORT, tls)),
    }
}

fn copy_chars(s: &[char], from: usize, to: usize) -> (r: Vec<char>)
    requires
        from <= to <= s@.len(),
    ensures
        r@ == s@.subrange(from as int, to as int),
{
    let mut r: Vec<char> = Vec::new();
    let mut i: usize = from;
    while i < to
        invariant
            from <= i <= to <= s@.len(),
            r@ == s@.subrange(from as int, i as int),
        decreases to - i,
    {
        r.push(s[i]);
        i = i + 1;
        assert(r@ =~= s@.subrange(from as int, i as int));
    }
    r
}


/// Most file bytes carried by one record: with both names and the sender
/// that the server adds, a record stays within the 16-bit outer length.
pub const FILE_CHUNK_SIZE: usize = 60000;

/// The records that carry `d` to `r` as file `f`, in order: full pieces of
/// `FILE_CHUNK_SIZE` bytes, then the rest (an empty file takes one record).
pub open spec fn chunk_messages(r: Seq<u8>, f: Seq<u8>, d: Seq<u8>) -> Seq<MessageView>
    decreases d.len(),
{
    if d.len() <= FILE_CHUNK_SIZE {
        seq![msg_of(MessageTypes::FileTransfer, data_content(r, f, d))]
    } else {
        seq![msg_of(MessageTypes::FileTransfer, data_content(r, f, d.subrange(0, FILE_CHUNK_SIZE as int)))]
            + chunk_messages(r, f, d.subrange(FILE_CHUNK_SIZE as int, d.len() as int))
    }
}

/// The records that carry a file's data to `recipient`, in pieces that each
/// fit one frame; names longer than a length byte can say are refused.
pub fn file_data_messages(recipient: &[u8], file_name: &[u8], data: &[u8]) -> (r: Result<Vec<ChatMessage>, ChatClientError>)
    ensures
        r is Ok <==> recipient@.len() <= 255 && file_name@.len() <= 255,
        r matches Ok(v) ==> v@.map_values(|m: ChatMessage| m@) == chunk_messages(recipient@, file_name@, data@),
        r matches Err(e) ==> e == ChatClientError::ChatMessageError,
{
    if recipient.len() > 255 || file_name.len() > 255 {
        return Err(ChatClientError::ChatMessageError);
    }
    let n = data.len();
    let mut out: Vec<ChatMessage> = Vec::new();
    let mut pos: usize = 0;
    assert(data@.subrange(0, n as int) =~= data@);
    loop
        invariant
            n == data@.len(),
            pos <= n,
            recipient@.len() <= 255,
            file_name@.len() <= 255,
            out@.map_values(|m: ChatMessage| m@) + chunk_messages(recipient@, file_name@, data@.subrange(pos as int, n as int))
                == chunk_messages(recipient@, file_name@, data@),
        decreases n - pos,
    {
        let ghost before = out@.map_values(|m: ChatMessage| m@);
        let ghost rest = data@.subrange(pos as int, n as int);
        let head = two_fields(recipient, file_name);
        if n - pos <= FILE_CHUNK_SIZE {
            let piece = copy_range(data, pos, n);
            let c = concat(head.as_slice(), piece.as_slice());
            out.push(ChatMessage::with_bytes(MessageTypes::FileTransfer, c));
            assert(out@.map_values(|m: ChatMessage| m@) =~= before + chunk_messages(recipient@, file_name@, rest));
            return Ok(out);
        }
        let piece = copy_range(data, pos, pos + FILE_CHUNK_SIZE);
        let c = concat(head.as_slice(), piece.as_slice());
        out.push(ChatMessage::with_bytes(MessageTypes::FileTransfer, c));
        assert(rest.subrange(0, FILE_CHUNK_SIZE as int) =~= piece@);
        assert(rest.subrange(FILE_CHUNK_SIZE as int, rest.len() as int) =~= data@.subrange(pos + FILE_CHUNK_SIZE, n as int));
        assert(out@.map_values(|m: ChatMessage| m@) =~= before.push(msg_of(MessageTypes::FileTransfer, data_content(recipient@, file_name@, piece@))));
        assert(before.push(msg_of(MessageTypes::FileTransfer, data_content(recipient@, file_name@, piece@)))
            + chunk_messages(recipient@, file_name@, data@.subrange(pos + FILE_CHUNK_SIZE, n as int))
            =~= before + chunk_messages(recipient@, file_name@, rest));
        pos = pos + FILE_CHUNK_SIZE;
    }
}


/// File data as the server forwards it: `[r_len][r][s_len][s][f_len][f][d]`.
pub open spec fn forwarded(r: Seq<u8>, snd: Seq<u8>, f: Seq<u8>, d: Seq<u8>) -> Seq<u8> {
    seq![r.len() as u8] + r + seq![snd.len() as u8] + snd + seq![f.len() as u8] + f + d
}

/// The forwarded records of `d`, cut as `chunk_messages` cuts it.
pub open spec fn forwarded_chunks(r: Seq<u8>, snd: Seq<u8>, f: Seq<u8>, d: Seq<u8>) -> Seq<MessageView>
    decreases d.len(),
{
    if d.len() <= FILE_CHUNK_SIZE {
        seq![msg_of(MessageTypes::FileTransfer, forwarded(r, snd, f, d))]
    } else {
        seq![msg_of(MessageTypes::FileTransfer, forwarded(r, snd, f, d.subrange(0, FILE_CHUNK_SIZE as int)))]
            + forwarded_chunks(r, snd, f, d.subrange(FILE_CHUNK_SIZE as int, d.len() as int))
    }
}

/// The saves of `d` to `p` in the same pieces, the first appending when
/// `append`, the others always.
pub open spec fn save_actions(p: Seq<u8>, d: Seq<u8>, append: bool) -> Seq<ActionView>
    decreases d.len(),
{
    if d.len() <= FILE_CHUNK_SIZE {
        seq![ActionView::SaveFile(p, d, append)]
    } else {
        seq![ActionView::SaveFile(p, d.subrange(0, FILE_CHUNK_SIZE as int), append)] + save_actions(
            p,
            d.subrange(FILE_CHUNK_SIZE as int, d.len() as int),
            true,
        )
    }
}

/// The session and actions after the messages `ms`, one after another.
pub open spec fn receive_all(st: SessionView, ms: Seq<MessageView>) -> (SessionView, Seq<ActionView>)
    decreases ms.len(),
{
    if ms.len() == 0 {
        (st, Seq::empty())
    } else {
        let (st2, acts, go) = client_step(st, ms[0]);
        let (st3, rest) = receive_all(st2, ms.drop_first());
        (st3, acts + rest)
    }
}

/// What a file holds after the saves in `acts`, starting from `acc`.
pub open spec fn written(acts: Seq<ActionView>, acc: Seq<u8>) -> Seq<u8>
    decreases acts.len(),
{
    if acts.len() == 0 {
        acc
    } else {
        match acts[0] {
            ActionView::SaveFile(_, data, append) => written(acts.drop_first(), if append {
                acc + data
            } else {
                data
            }),
            _ => written(acts.drop_first(), acc),
        }
    }
}

proof fn lemma_forwarded_step(st: SessionView, r: Seq<u8>, snd: Seq<u8>, f: Seq<u8>, c: Seq<u8>)
    requires
        st.name == r,
        r.len() <= 255,
        snd.len() <= 255,
        f.len() <= 255,
        valid_utf8(r),
        valid_utf8(snd),
        valid_utf8(f),
        st.downloads.contains_key(snd),
    ensures
        client_step(st, msg_of(MessageTypes::FileTransfer, forwarded(r, snd, f, c))) == (
            SessionView { downloads: download_after(st.downloads, snd, c.len() as int), ..st },
            seq![ActionView::SaveFile(save_path(f), c, st.downloads[snd].2 > 0)],
            true,
        ),
{
    let b = forwarded(r, snd, f, c);
    let ss: int = 1 + r.len() as int;
    let fp: int = ss + 1 + snd.len();
    assert(b[0] == r.len() as u8);
    assert(b.subrange(1, 1 + r.len() as int) =~= r);
    assert(b[ss] == snd.len() as u8);
    assert(b.subrange(ss + 1, ss + 1 + snd.len()) =~= snd);
    assert(b[fp] == f.len() as u8);
    assert(b.subrange(fp + 1, fp + 1 + f.len()) =~= f);
    assert(b.subrange(fp + 1 + f.len(), b.len() as int) =~= c);
    assert(file_header(b) == Some((r, snd, fp)));
}

/// A file accepted from `snd` arrives whole: the forwarded records of its
/// data, taken in order by a client named `r` that expects exactly the
/// bytes still missing, are saved to `downloads/<f>` piece by piece, and the
/// download record is then gone.
pub proof fn lemma_file_arrives(st: SessionView, r: Seq<u8>, snd: Seq<u8>, f: Seq<u8>, d: Seq<u8>)
    requires
        st.name == r,
        r.len() <= 255,
        snd.len() <= 255,
        f.len() <= 255,
        valid_utf8(r),
        valid_utf8(snd),
        valid_utf8(f),
        st.downloads.contains_key(snd),
        st.downloads[snd].2 + d.len() == st.downloads[snd].1,
    ensures
        receive_all(st, forwarded_chunks(r, snd, f, d)) == (
            SessionView { downloads: st.downloads.remove(snd), ..st },
            save_actions(save_path(f), d, st.downloads[snd].2 > 0),
        ),
    decreases d.len(),
{
    let ms = forwarded_chunks(r, snd, f, d);
    if d.len() <= FILE_CHUNK_SIZE {
        lemma_forwarded_step(st, r, snd, f, d);
        assert(ms.drop_first() =~= Seq::<MessageView>::empty());
        let st2 = SessionView { downloads: download_after(st.downloads, snd, d.len() as int), ..st };
        assert(download_after(st.downloads, snd, d.len() as int) == st.downloads.remove(snd));
        assert(receive_all(st2, ms.drop_first()) == (st2, Seq::<ActionView>::empty()));
        let acts = seq![ActionView::SaveFile(save_path(f), d, st.downloads[snd].2 > 0)];
        assert(receive_all(st, ms) == (st2, acts + Seq::<ActionView>::empty()));
        assert(acts + Seq::<ActionView>::empty() =~= save_actions(save_path(f), d, st.downloads[snd].2 > 0));
    } else {
        let c = d.subrange(0, FILE_CHUNK_SIZE as int);
        let rest = d.subrange(FILE_CHUNK_SIZE as int, d.len() as int);
        lemma_forwarded_step(st, r, snd, f, c);
        let st2 = SessionView { downloads: download_after(st.downloads, snd, c.len() as int), ..st };
        assert(ms[0] == msg_of(MessageTypes::FileTransfer, forwarded(r, snd, f, c)));
        assert(ms.drop_first() =~= forwarded_chunks(r, snd, f, rest));
        assert(st2.downloads.contains_key(snd));
        assert(st2.downloads[snd].2 == st.downloads[snd].2 + FILE_CHUNK_SIZE);
        lemma_file_arrives(st2, r, snd, f, rest);
        assert(st2.downloads.remove(snd) =~= st.downloads.remove(snd));
        let acts = seq![ActionView::SaveFile(save_path(f), c, st.downloads[snd].2 > 0)];
        let (st3, more) = receive_all(st2, ms.drop_first());
        assert(receive_all(st, ms) == (st3, acts + more));
        assert(save_actions(save_path(f), d, st.downloads[snd].2 > 0) == acts + save_actions(save_path(f), rest, true));
    }
}

/// Replaying the saves of a whole file from its first piece leaves the file
/// holding exactly its data.
pub proof fn lemma_saves_write_data(p: Seq<u8>, d: Seq<u8>, append: bool, acc: Seq<u8>)
    ensures
        written(save_actions(p, d, append), acc) == (if append {
            acc
        } else {
            Seq::<u8>::empty()
        }) + d,
    decreases d.len(),
{
    let acts = save_actions(p, d, append);
    let start = if append {
        acc
    } else {
        Seq::<u8>::empty()
    };
    if d.len() <= FILE_CHUNK_SIZE {
        assert(acts.drop_first() =~= Seq::<ActionView>::empty());
        let acc2 = if append {
            acc + d
        } else {
            d
        };
        assert(written(acts, acc) == written(acts.drop_first(), acc2));
        assert(written(acts.drop_first(), acc2) == acc2);
        assert(acc2 =~= start + d);
    } else {
        let c = d.subrange(0, FILE_CHUNK_SIZE as int);
        let rest = d.subrange(FILE_CHUNK_SIZE as int, d.len() as int);
        assert(acts.drop_first() =~= save_actions(p, rest, true));
        let acc2 = if append {
            acc + c
        } else {
            c
        };
        lemma_saves_write_data(p, rest, true, acc2);
        assert(written(acts, acc) == written(acts.drop_first(), acc2));
        assert(acc2 + rest =~= start + d);
    }
}

} // verus!
