//! Message records and their inner wire encoding:
//! `[msg_len: u32 BE][msg_type: u8][content]`, where `msg_len` counts itself,
//! the type byte and the content.

use vstd::prelude::*;
use vstd::utf8::{valid_utf8, decode_utf8};
use crate::bytes::{utf8_to_string, u32_be, be_u32, u32_to_be, u32_from_be, push_all, copy_range, lemma_u32_be_round_trip};

verus! {

/// The kind of a message, carried on the wire as one tag byte.
#[derive(Debug, Clone, Copy, PartialEq, Eq, Structural)]
pub enum MessageTypes {
    ChatMessage,
    Join,
    Leave,
    UserRename,
    ListUsers,
    DirectMessage,
    Error,
    RenameRequest,
    FileTransfer,
    FileTransferAck,
    FileTransferRequest,
    FileTransferResponse,
    SetStatus,
    Ping,
    Pong,
    VersionCheck,
    VersionMismatch,
    Unknown(u8),
}

/// The message kind that a tag byte stands for.
pub open spec fn type_of_tag(v: u8) -> MessageTypes {
    if v == 1 {
        MessageTypes::ChatMessage
    } else if v == 2 {
        MessageTypes::Join
    } else if v == 3 {
        MessageTypes::Leave
    } else if v == 4 {
        MessageTypes::UserRename
    } else if v == 5 {
        MessageTypes::ListUsers
    } else if v == 6 {
        MessageTypes::DirectMessage
    } else if v == 7 {
        MessageTypes::Error
    } else if v == 8 {
        MessageTypes::RenameRequest
    } else if v == 9 {
        MessageTypes::FileTransfer
    } else if v == 10 {
        MessageTypes::FileTransferAck
    } else if v == 11 {
        MessageTypes::FileTransferRequest
    } else if v == 12 {
        MessageTypes::FileTransferResponse
    } else if v == 13 {
        MessageTypes::SetStatus
    } else if v == 14 {
        MessageTypes::Ping
    } else if v == 15 {
        MessageTypes::Pong
    } else if v == 16 {
        MessageTypes::VersionCheck
    } else if v == 17 {
        MessageTypes::VersionMismatch
    } else {
        MessageTypes::Unknown(v)
    }
}

/// The tag byte written for a message kind.
pub open spec fn tag_of_type(t: MessageTypes) -> u8 {
    match t {
        MessageTypes::ChatMessage => 1,
        MessageTypes::Join => 2,
        MessageTypes::Leave => 3,
        MessageTypes::UserRename => 4,
        MessageTypes::ListUsers => 5,
        MessageTypes::DirectMessage => 6,
        MessageTypes::Error => 7,
        MessageTypes::RenameRequest => 8,
        MessageTypes::FileTransfer => 9,
        MessageTypes::FileTransferAck => 10,
        MessageTypes::FileTransferRequest => 11,
        MessageTypes::FileTransferResponse => 12,
        MessageTypes::SetStatus => 13,
        MessageTypes::Ping => 14,
        MessageTypes::Pong => 15,
        MessageTypes::VersionCheck => 16,
        MessageTypes::VersionMismatch => 17,
        MessageTypes::Unknown(v) => v,
    }
}

impl MessageTypes {
    /// A kind that survives a trip through its tag byte: every named kind, and
    /// `Unknown` only with a tag outside the named range.
    pub open spec fn is_canonical(self) -> bool {
        match self {
            MessageTypes::Unknown(v) => !(1 <= v <= 17),
            _ => true,
        }
    }

    pub fn from_tag(v: u8) -> (r: MessageTypes)
        ensures
            r == type_of_tag(v),
    {
        match v {
            1 => MessageTypes::ChatMessage,
            2 => MessageTypes::Join,
            3 => MessageTypes::Leave,
            4 => MessageTypes::UserRename,
            5 => MessageTypes::ListUsers,
            6 => MessageTypes::DirectMessage,
            7 => MessageTypes::Error,
            8 => MessageTypes::RenameRequest,
            9 => MessageTypes::FileTransfer,
            10 => MessageTypes::FileTransferAck,
            11 => MessageTypes::FileTransferRequest,
            12 => MessageTypes::FileTransferResponse,
            13 => MessageTypes::SetStatus,
            14 => MessageTypes::Ping,
            15 => MessageTypes::Pong,
            16 => MessageTypes::VersionCheck,
            17 => MessageTypes::VersionMismatch,
            other => MessageTypes::Unknown(other),
        }
    }

    pub fn tag(self) -> (r: u8)
        ensures
            r == tag_of_type(self),
    {
        match self {
            MessageTypes::ChatMessage => 1,
            MessageTypes::Join => 2,
            MessageTypes::Leave => 3,
            MessageTypes::UserRename => 4,
            MessageTypes::ListUsers => 5,
            MessageTypes::DirectMessage => 6,
            MessageTypes::Error => 7,
            MessageTypes::RenameRequest => 8,
            MessageTypes::FileTransfer => 9,
            MessageTypes::FileTransferAck => 10,
            MessageTypes::FileTransferRequest => 11,
            MessageTypes::FileTransferResponse => 12,
            MessageTypes::SetStatus => 13,
            MessageTypes::Ping => 14,
            MessageTypes::Pong => 15,
            MessageTypes::VersionCheck => 16,
            MessageTypes::VersionMismatch => 17,
            MessageTypes::Unknown(val) => val,
        }
    }
}

impl From<u8> for MessageTypes {
    fn from(value: u8) -> (r: Self) {
        MessageTypes::from_tag(value)
    }
}

impl vstd::std_specs::convert::FromSpecImpl<u8> for MessageTypes {
    open spec fn obeys_from_spec() -> bool {
        true
    }

    open spec fn from_spec(v: u8) -> MessageTypes {
        type_of_tag(v)
    }
}

/// A canonical kind is the kind of its own tag.
pub proof fn lemma_tag_round_trip(t: MessageTypes)
    requires
        t.is_canonical(),
    ensures
        type_of_tag(tag_of_type(t)) == t,
{
}

/// One framed record: a kind and optional content, with the length field that
/// goes on the wire.
#[derive(Debug, Clone)]
pub struct ChatMessage {
    pub msg_len: u32,
    pub msg_type: MessageTypes,
    pub content: Option<Vec<u8>>,
}

#[derive(Debug, Clone, Copy, PartialEq, Eq, Structural)]
pub enum ChatMessageError {
    InvalidFormat,
    InvalidLength,
}

/// The model of a message: its length field, kind and content bytes.
pub type MessageView = (u32, MessageTypes, Option<Seq<u8>>);

/// The bytes of optional content; none when absent.
pub open spec fn content_seq(c: Option<Seq<u8>>) -> Seq<u8> {
    match c {
        Some(s) => s,
        None => Seq::empty(),
    }
}

/// The inner wire encoding of a message.
pub open spec fn encode_spec(m: MessageView) -> Seq<u8> {
    u32_be(m.0) + seq![tag_of_type(m.1)] + content_seq(m.2)
}

/// The message read from an inner wire encoding. A buffer shorter than the
/// header reads as an empty message of unknown kind.
pub open spec fn decode_spec(b: Seq<u8>) -> MessageView {
    if b.len() < 5 {
        (5u32, MessageTypes::Unknown(0), None)
    } else {
        (
            be_u32(b[0], b[1], b[2], b[3]),
            type_of_tag(b[4]),
            if b.len() > 5 {
                Some(b.subrange(5, b.len() as int))
            } else {
                None
            },
        )
    }
}

/// The length field that a message with content `c` carries.
pub open spec fn length_for(c: Option<Seq<u8>>) -> int {
    5 + content_seq(c).len() as int
}

impl View for ChatMessage {
    type V = MessageView;

    open spec fn view(&self) -> MessageView {
        (
            self.msg_len,
            self.msg_type,
            match self.content {
                Some(v) => Some(v@),
                None => None,
            },
        )
    }
}

impl ChatMessage {
    /// Whether the length field agrees with the content.
    pub open spec fn wf(&self) -> bool {
        self.msg_len == length_for(self@.2)
    }

    pub open spec fn content_bytes(&self) -> Seq<u8> {
        content_seq(self@.2)
    }

    /// Builds a message; fails when its length would not fit the 32-bit field.
    pub fn try_new(msg_type: MessageTypes, content: Option<Vec<u8>>) -> (r: Result<
        Self,
        ChatMessageError,
    >)
        ensures
            r is Ok <==> length_for(
                match content {
                    Some(v) => Some(v@),
                    None => None,
                },
            ) <= u32::MAX,
            r matches Ok(m) ==> m.wf() && m.msg_type == msg_type && m.content == content,
            r matches Err(e) ==> e == ChatMessageError::InvalidLength,
    {
        let msg_len: u32 = match &content {
            Some(data) => {
                if data.len() > 4294967290usize {
                    return Err(ChatMessageError::InvalidLength);
                }
                (data.len() + 5) as u32
            },
            None => 5,
        };
        Ok(ChatMessage { msg_len, msg_type, content })
    }

    pub fn get_content(&self) -> (r: Option<&[u8]>)
        ensures
            r is Some <==> self.content is Some,
            r matches Some(s) ==> s@ == self.content_bytes(),
    {
        match &self.content {
            Some(v) => Some(v.as_slice()),
            None => None,
        }
    }

    /// The content as text, when there is content and it is valid UTF-8.
    pub fn content_as_string(&self) -> (r: Option<String>)
        ensures
            r is Some <==> (self.content is Some && valid_utf8(self.content_bytes())),
            r matches Some(s) ==> s@ == decode_utf8(self.content_bytes()),
    {
        match &self.content {
            Some(v) => {
                let bytes = copy_range(v.as_slice(), 0, v.len());
                assert(bytes@ =~= v@);
                utf8_to_string(bytes)
            },
            None => None,
        }
    }

    /// The inner wire encoding of this message.
    pub fn encode(&self) -> (r: Vec<u8>)
        ensures
            r@ == encode_spec(self@),
    {
        let mut buffer: Vec<u8> = Vec::new();
        let len_bytes = u32_to_be(self.msg_len);
        push_all(&mut buffer, &len_bytes);
        buffer.push(self.msg_type.tag());
        if let Some(content) = &self.content {
            push_all(&mut buffer, content.as_slice());
        }
        assert(buffer@ =~= encode_spec(self@));
        buffer
    }

    /// Reads a message from its inner wire encoding.
    pub fn decode(buffer: &[u8]) -> (r: ChatMessage)
        ensures
            r@ == decode_spec(buffer@),
    {
        if buffer.len() < 5 {
            return ChatMessage { msg_len: 5, msg_type: MessageTypes::Unknown(0), content: None };
        }
        let msg_len = u32_from_be(buffer[0], buffer[1], buffer[2], buffer[3]);
        let msg_type = MessageTypes::from_tag(buffer[4]);
        let content = if buffer.len() > 5 {
            Some(copy_range(buffer, 5, buffer.len()))
        } else {
            None
        };
        ChatMessage { msg_len, msg_type, content }
    }
}

/// The model of a well-formed message of kind `t` with content `c`.
pub open spec fn msg_of(t: MessageTypes, c: Seq<u8>) -> MessageView {
    ((c.len() + 5) as u32, t, Some(c))
}

/// The model of a well-formed message of kind `t` without content.
pub open spec fn bare_of(t: MessageTypes) -> MessageView {
    (5u32, t, None)
}

impl ChatMessage {
    /// A well-formed message of kind `t` carrying `content`.
    pub fn with_bytes(t: MessageTypes, content: Vec<u8>) -> (r: ChatMessage)
        requires
            content@.len() + 5 <= u32::MAX,
        ensures
            r.wf(),
            r@ == msg_of(t, content@),
    {
        let n = (content.len() + 5) as u32;
        ChatMessage { msg_len: n, msg_type: t, content: Some(content) }
    }

    /// A well-formed message of kind `t` without content.
    pub fn bare(t: MessageTypes) -> (r: ChatMessage)
        ensures
            r.wf(),
            r@ == bare_of(t),
    {
        ChatMessage { msg_len: 5, msg_type: t, content: None }
    }
}

impl From<Vec<u8>> for ChatMessage {
    fn from(buffer: Vec<u8>) -> (r: Self) {
        ChatMessage::decode(buffer.as_slice())
    }
}

impl From<ChatMessage> for Vec<u8> {
    fn from(message: ChatMessage) -> (r: Self) {
        message.encode()
    }
}

// The conversions state their results through `decode` and `encode`, whose
// contracts speak of the view; no spec-level value is claimed here.
impl vstd::std_specs::convert::FromSpecImpl<Vec<u8>> for ChatMessage {
    open spec fn obeys_from_spec() -> bool {
        false
    }

    open spec fn from_spec(v: Vec<u8>) -> ChatMessage {
        arbitrary()
    }
}

impl vstd::std_specs::convert::FromSpecImpl<ChatMessage> for Vec<u8> {
    open spec fn obeys_from_spec() -> bool {
        false
    }

    open spec fn from_spec(v: ChatMessage) -> Vec<u8> {
        arbitrary()
    }
}

/// Decoding the encoding of a well-formed message gives the message back, and
/// the encoding is the header of five bytes followed by the content. This holds
/// for canonical kinds and for content that is absent or not empty: present
/// but empty content reads back as absent.
pub proof fn lemma_decode_encode(m: MessageView)
    requires
        m.0 == length_for(m.2),
        m.1.is_canonical(),
        m.2 matches Some(c) ==> c.len() > 0,
    ensures
        decode_spec(encode_spec(m)) == m,
        encode_spec(m).len() == 4 + 1 + content_seq(m.2).len(),
{
    let e = encode_spec(m);
    lemma_u32_be_round_trip(m.0);
    assert(e[0] == u32_be(m.0)[0] && e[1] == u32_be(m.0)[1] && e[2] == u32_be(m.0)[2] && e[3]
        == u32_be(m.0)[3]);
    assert(e[4] == tag_of_type(m.1));
    lemma_tag_round_trip(m.1);
    if e.len() > 5 {
        assert(e.subrange(5, e.len() as int) =~= content_seq(m.2));
    }
}

} // verus!
