use rust_chat::frame::{ack_bytes, check_ack, frame_message, next_chunk_len, read_body_len, unframe, FrameError, MAX_FRAME_SIZE, MAX_MESSAGE_SIZE};
use rust_chat::message::{ChatMessage, ChatMessageError, MessageTypes};

#[test]
fn test_message_creation_valid() {
    let content = b"Hello, World!".to_vec();
    let msg = ChatMessage::try_new(MessageTypes::ChatMessage, Some(content.clone()));
    assert!(msg.is_ok());
    let msg = msg.unwrap();
    assert_eq!(msg.msg_type, MessageTypes::ChatMessage);
    assert_eq!(msg.content, Some(content));
}

#[test]
fn test_message_creation_none_content() {
    let msg = ChatMessage::try_new(MessageTypes::ListUsers, None);
    assert!(msg.is_ok());
    let msg = msg.unwrap();
    assert_eq!(msg.msg_len, 5);
    assert_eq!(msg.content, None);
}

#[test]
fn test_message_serialization() {
    let content = b"Test".to_vec();
    let msg = ChatMessage::try_new(MessageTypes::ChatMessage, Some(content.clone())).unwrap();
    let serialized: Vec<u8> = msg.clone().into();
    assert_eq!(serialized.len(), 4 + 1 + content.len());
    assert_eq!(serialized[4], 1);
    assert_eq!(&serialized[5..], content.as_slice());
}

#[test]
fn test_message_deserialization() {
    let mut buffer = vec![];
    buffer.extend_from_slice(&9u32.to_be_bytes());
    buffer.push(1);
    buffer.extend_from_slice(b"Test");
    let msg = ChatMessage::from(buffer);
    assert_eq!(msg.msg_type, MessageTypes::ChatMessage);
    assert_eq!(msg.content_as_string(), Some("Test".to_string()));
}

#[test]
fn test_message_roundtrip() {
    let original_content = b"Hello, World!".to_vec();
    let original_msg =
        ChatMessage::try_new(MessageTypes::DirectMessage, Some(original_content.clone())).unwrap();
    let serialized: Vec<u8> = original_msg.into();
    let deserialized = ChatMessage::from(serialized);
    assert_eq!(deserialized.msg_type, MessageTypes::DirectMessage);
    assert_eq!(deserialized.content, Some(original_content));
}

#[test]
fn test_message_types_from_u8() {
    assert!(matches!(MessageTypes::from(1), MessageTypes::ChatMessage));
    assert!(matches!(MessageTypes::from(2), MessageTypes::Join));
    assert!(matches!(MessageTypes::from(3), MessageTypes::Leave));
    assert!(matches!(MessageTypes::from(4), MessageTypes::UserRename));
    assert!(matches!(MessageTypes::from(5), MessageTypes::ListUsers));
    assert!(matches!(MessageTypes::from(6), MessageTypes::DirectMessage));
    assert!(matches!(MessageTypes::from(7), MessageTypes::Error));
    assert!(matches!(MessageTypes::from(99), MessageTypes::Unknown(99)));
}

#[test]
fn test_empty_buffer_deserialization() {
    let msg = ChatMessage::from(vec![]);
    assert_eq!(msg.msg_len, 5);
    assert!(matches!(msg.msg_type, MessageTypes::Unknown(0)));
    assert_eq!(msg.content, None);
}

#[test]
fn test_short_buffer_deserialization() {
    let msg = ChatMessage::from(vec![0, 1]);
    assert_eq!(msg.msg_len, 5);
    assert!(matches!(msg.msg_type, MessageTypes::Unknown(0)));
}

#[test]
fn test_content_as_string_valid_utf8() {
    let msg =
        ChatMessage::try_new(MessageTypes::ChatMessage, Some(b"Valid UTF-8".to_vec())).unwrap();
    assert_eq!(msg.content_as_string(), Some("Valid UTF-8".to_string()));
}

#[test]
fn test_content_as_string_invalid_utf8() {
    let msg = ChatMessage::try_new(MessageTypes::ChatMessage, Some(vec![0xFF, 0xFE, 0xFD])).unwrap();
    assert_eq!(msg.content_as_string(), None);
}

#[test]
fn every_tag_round_trips() {
    for tag in 0u8..=255 {
        assert_eq!(MessageTypes::from(tag).tag(), tag);
    }
    assert_eq!(MessageTypes::from(17), MessageTypes::VersionMismatch);
    assert_eq!(MessageTypes::from(16), MessageTypes::VersionCheck);
    assert_eq!(MessageTypes::Unknown(200).tag(), 200);
}

#[test]
fn encode_is_length_type_content() {
    let msg = ChatMessage::try_new(MessageTypes::Join, Some(b"Alice".to_vec())).unwrap();
    assert_eq!(msg.msg_len, 10);
    assert_eq!(msg.encode(), vec![0, 0, 0, 10, 2, b'A', b'l', b'i', b'c', b'e']);
    let bare = ChatMessage::try_new(MessageTypes::Ping, None).unwrap();
    assert_eq!(bare.encode(), vec![0, 0, 0, 5, 14]);
}

#[test]
fn decode_reads_big_endian_length() {
    let msg = ChatMessage::decode(&[1, 2, 3, 4, 15]);
    assert_eq!(msg.msg_len, 0x01020304);
    assert_eq!(msg.msg_type, MessageTypes::Pong);
    assert_eq!(msg.content, None);
}

#[test]
fn round_trip_on_concrete_messages() {
    for (t, c) in [
        (MessageTypes::ChatMessage, Some(b"hi".to_vec())),
        (MessageTypes::Ping, None),
        (MessageTypes::Unknown(42), Some(vec![0, 255])),
    ] {
        let m = ChatMessage::try_new(t, c.clone()).unwrap();
        let back = ChatMessage::decode(&m.encode());
        assert_eq!(back.msg_len, m.msg_len);
        assert_eq!(back.msg_type, t);
        assert_eq!(back.content, c);
        assert_eq!(m.encode().len(), 4 + 1 + c.map(|v| v.len()).unwrap_or(0));
    }
}

#[test]
fn empty_content_reads_back_absent() {
    let m = ChatMessage::try_new(MessageTypes::Error, Some(vec![])).unwrap();
    assert_eq!(ChatMessage::decode(&m.encode()).content, None);
}

#[test]
fn get_content_borrows_bytes() {
    let m = ChatMessage::try_new(MessageTypes::FileTransfer, Some(vec![1, 2, 3])).unwrap();
    assert_eq!(m.get_content(), Some(&[1u8, 2, 3][..]));
    let n = ChatMessage::try_new(MessageTypes::Ping, None).unwrap();
    assert_eq!(n.get_content(), None);
}

#[test]
fn try_new_error_variant_exists() {
    assert_ne!(ChatMessageError::InvalidLength, ChatMessageError::InvalidFormat);
}

#[test]
fn outer_frame_wraps_inner_encoding() {
    let m = ChatMessage::try_new(MessageTypes::ChatMessage, Some(b"hi".to_vec())).unwrap();
    let wire = frame_message(&m).unwrap();
    assert_eq!(wire, vec![0, 7, 0, 0, 0, 7, 1, b'h', b'i']);
    let back = unframe(&wire, MAX_MESSAGE_SIZE).unwrap();
    assert_eq!(back.msg_type, MessageTypes::ChatMessage);
    assert_eq!(back.content, Some(b"hi".to_vec()));
    assert_eq!(back.msg_len, 7);
}

#[test]
fn outer_frame_rejects_oversized() {
    let big = ChatMessage::try_new(MessageTypes::FileTransfer, Some(vec![0; MAX_FRAME_SIZE])).unwrap();
    assert_eq!(frame_message(&big).err(), Some(FrameError::TooLarge));
    assert_eq!(read_body_len(0x20, 0x01, MAX_MESSAGE_SIZE), Err(FrameError::TooLarge));
    assert_eq!(read_body_len(0x20, 0x00, MAX_MESSAGE_SIZE), Ok(8192));
    assert_eq!(unframe(&[0x20, 0x01], MAX_MESSAGE_SIZE).err(), Some(FrameError::TooLarge));
}

#[test]
fn outer_frame_truncated() {
    assert_eq!(unframe(&[0], MAX_MESSAGE_SIZE).err(), Some(FrameError::Truncated));
    assert_eq!(unframe(&[0, 9, 0, 0, 0, 9, 1], MAX_MESSAGE_SIZE).err(), Some(FrameError::Truncated));
}

#[test]
fn ack_is_ok_literal() {
    assert_eq!(ack_bytes(), b"OK".to_vec());
    assert_eq!(check_ack(b"OK"), Ok(()));
    assert_eq!(check_ack(b"NO"), Err(FrameError::BadAck));
    assert_eq!(check_ack(b"O"), Err(FrameError::BadAck));
}

#[test]
fn chunks_are_at_most_eight_kib() {
    assert_eq!(next_chunk_len(20000, 0), 8192);
    assert_eq!(next_chunk_len(20000, 16384), 3616);
    assert_eq!(next_chunk_len(5, 5), 0);
}
