use rust_chat::client::{
    file_data_messages, new_session_token, next_backoff_ms, parse_server_addr, ChatClientError, ClientAction, ChatClient,
    FileOfferError, MAX_BACKOFF_MS, MAX_FILE_SIZE,
};
use rust_chat::client_input::ClientUserInput;
use rust_chat::message::{ChatMessage, MessageTypes};

fn msg(t: MessageTypes, c: &[u8]) -> ChatMessage {
    ChatMessage::try_new(t, Some(c.to_vec())).unwrap()
}

fn session(name: &str) -> ChatClient {
    ChatClient::new(name.as_bytes().to_vec(), b"T_A".to_vec())
}

#[test]
fn own_chat_line_not_shown_twice() {
    let mut a = session("Alice");
    let r = a.handle_message(&msg(MessageTypes::ChatMessage, b"Alice: hi"));
    assert!(r.actions.is_empty());
    assert!(r.keep_running);
    let r = a.handle_message(&msg(MessageTypes::ChatMessage, b"Bob: hi"));
    assert!(matches!(&r.actions[0], ClientAction::ShowChat(t) if t == b"Bob: hi"));
    let r = a.handle_message(&msg(MessageTypes::ChatMessage, b"Alice is now known as Al"));
    assert_eq!(r.actions.len(), 1);
}

#[test]
fn handshake_and_local_echo() {
    let mut a = session("Alice");
    let hs = a.handshake(false).unwrap();
    assert_eq!(hs.len(), 2);
    assert_eq!(hs[0].msg_type, MessageTypes::VersionCheck);
    assert_eq!(hs[0].content, Some(b"0.1.8".to_vec()));
    assert_eq!(hs[1].msg_type, MessageTypes::Join);
    assert_eq!(hs[1].content, Some(b"Alice|T_A".to_vec()));
    let acts = a.outbound(&ClientUserInput::try_from("hi").unwrap()).unwrap();
    assert!(matches!(&acts[0], ClientAction::EchoChat(t) if t == b"Alice: hi"));
    assert!(matches!(&acts[1], ClientAction::Send(m) if m.content == Some(b"hi".to_vec())));
}

#[test]
fn reconnect_restores_status() {
    let mut a = session("Alice");
    a.outbound(&ClientUserInput::try_from("/status away").unwrap()).unwrap();
    assert_eq!(a.current_status, Some(b"away".to_vec()));
    let hs = a.handshake(true).unwrap();
    assert_eq!(hs.len(), 3);
    assert_eq!(hs[2].msg_type, MessageTypes::SetStatus);
    assert_eq!(hs[2].content, Some(b"away".to_vec()));
    assert_eq!(a.handshake(false).unwrap().len(), 2);
}

#[test]
fn ping_gets_pong_and_rename_is_adopted() {
    let mut a = session("Alice");
    let r = a.handle_message(&ChatMessage::try_new(MessageTypes::Ping, None).unwrap());
    assert!(matches!(&r.actions[0], ClientAction::Send(m) if m.msg_type == MessageTypes::Pong && m.content.is_none()));
    a.handle_message(&msg(MessageTypes::UserRename, b"Alice_1234"));
    assert_eq!(a.chat_name, b"Alice_1234".to_vec());
}

#[test]
fn direct_messages_filtered_by_recipient() {
    let mut a = session("Alice");
    let r = a.handle_message(&msg(MessageTypes::DirectMessage, b"Bob|Carol|psst"));
    assert!(r.actions.is_empty());
    let r = a.handle_message(&msg(MessageTypes::DirectMessage, b"Bob|Alice|hi there"));
    assert!(matches!(&r.actions[0], ClientAction::ShowDirect { sender, text } if sender == b"Bob" && text == b"hi there"));
    assert_eq!(a.last_dm_sender, Some(b"Bob".to_vec()));
    let acts = a.outbound(&ClientUserInput::try_from("/r ok").unwrap()).unwrap();
    assert!(matches!(&acts[1], ClientAction::Send(m) if m.content == Some(b"Bob|ok".to_vec())));
}

#[test]
fn reply_without_sender() {
    let mut a = session("Alice");
    let acts = a.outbound(&ClientUserInput::try_from("/r hello").unwrap()).unwrap();
    assert!(matches!(acts[0], ClientAction::NoReplyTarget));
}

#[test]
fn kicked_error_stops_reconnect() {
    let mut a = session("Alice");
    assert!(a.should_reconnect());
    a.handle_message(&msg(MessageTypes::Error, b"User 'Zed' not found"));
    assert!(a.should_reconnect());
    a.handle_message(&msg(MessageTypes::Error, b"You have been kicked by the server"));
    assert!(!a.should_reconnect());
    let mut b = session("Bob");
    b.handle_message(&msg(MessageTypes::Error, b"You have been banned from the server"));
    assert!(!b.should_reconnect());
}

#[test]
fn version_mismatch_ends_session() {
    let mut a = session("Alice");
    let r = a.handle_message(&msg(MessageTypes::VersionMismatch, b"0.1.7|0.1.8|url"));
    assert!(!r.keep_running);
    assert!(a.was_kicked);
    let mut b = session("Bob");
    let r = b.handle_message(&ChatMessage::try_new(MessageTypes::VersionMismatch, None).unwrap());
    assert!(!r.keep_running);
    assert!(b.was_kicked);
    let mut c = session("Carol");
    assert!(!c.handle_message(&msg(MessageTypes::VersionMismatch, &[0xff])).keep_running);
}

#[test]
fn user_list_lines() {
    let mut a = session("Alice");
    let r = a.handle_message(&msg(MessageTypes::ListUsers, b"Alice - away\nBob"));
    assert!(matches!(&r.actions[0], ClientAction::ShowUsers(u) if u == &vec![b"Alice - away".to_vec(), b"Bob".to_vec()]));
}

#[test]
fn file_handshake_client_side() {
    let mut alice = session("Alice");
    let mut bob = session("Bob");
    let offer = alice.offer_file(b"Bob", b"/tmp/big.bin".to_vec(), b"big.bin", 5_000_000).unwrap();
    let mut expect = vec![3u8];
    expect.extend_from_slice(b"Bob");
    expect.push(7);
    expect.extend_from_slice(b"big.bin");
    expect.extend_from_slice(&5_000_000u64.to_be_bytes());
    assert_eq!(offer.content, Some(expect));

    let mut forwarded = vec![3u8];
    forwarded.extend_from_slice(b"Bob");
    forwarded.push(5);
    forwarded.extend_from_slice(b"Alice");
    forwarded.push(7);
    forwarded.extend_from_slice(b"big.bin");
    forwarded.extend_from_slice(&5_000_000u64.to_be_bytes());
    let r = bob.handle_message(&msg(MessageTypes::FileTransferRequest, &forwarded));
    assert!(matches!(&r.actions[0], ClientAction::FileOffered { sender, file_name, file_size }
        if sender == b"Alice" && file_name == b"big.bin" && *file_size == 5_000_000));
    let acts = bob.outbound(&ClientUserInput::try_from("/accept Alice").unwrap()).unwrap();
    let answer = match &acts[0] {
        ClientAction::Send(m) => m.clone(),
        _ => panic!("expected a response"),
    };
    assert_eq!(answer.msg_type, MessageTypes::FileTransferResponse);
    assert_eq!(answer.content, Some(b"\x05Alice\x01".to_vec()));

    let mut relayed = vec![5u8];
    relayed.extend_from_slice(b"Alice");
    relayed.push(3);
    relayed.extend_from_slice(b"Bob");
    relayed.push(1);
    let r = alice.handle_message(&msg(MessageTypes::FileTransferResponse, &relayed));
    assert!(matches!(&r.actions[0], ClientAction::SendFileData { recipient, file_path }
        if recipient == b"Bob" && file_path == b"/tmp/big.bin"));

    let data = vec![7u8; 4096];
    let m = file_data_messages(b"Bob", b"big.bin", &data).unwrap().remove(0);
    assert_eq!(m.msg_type, MessageTypes::FileTransfer);
    let mut delivered = vec![3u8];
    delivered.extend_from_slice(b"Bob");
    delivered.push(5);
    delivered.extend_from_slice(b"Alice");
    delivered.push(7);
    delivered.extend_from_slice(b"big.bin");
    delivered.extend_from_slice(&data);
    let r = bob.handle_message(&msg(MessageTypes::FileTransfer, &delivered));
    assert!(matches!(&r.actions[0], ClientAction::SaveFile { path, data: d, append: false } if path == b"downloads/big.bin" && d.len() == 4096));
    let r = alice.handle_message(&msg(MessageTypes::FileTransfer, &delivered));
    assert!(r.actions.is_empty());
}

#[test]
fn reject_and_unknown_offers() {
    let mut bob = session("Bob");
    let acts = bob.outbound(&ClientUserInput::try_from("/reject Alice").unwrap()).unwrap();
    assert!(matches!(&acts[0], ClientAction::NoPendingTransfer { responder } if responder == b"Alice"));
    let mut alice = session("Alice");
    let mut relayed = vec![5u8];
    relayed.extend_from_slice(b"Alice");
    relayed.push(3);
    relayed.extend_from_slice(b"Bob");
    relayed.push(0);
    let r = alice.handle_message(&msg(MessageTypes::FileTransferResponse, &relayed));
    assert!(matches!(&r.actions[0], ClientAction::NoPendingTransfer { .. }));
    alice.offer_file(b"Bob", b"f".to_vec(), b"f", 10).unwrap();
    let r = alice.handle_message(&msg(MessageTypes::FileTransferResponse, &relayed));
    assert!(matches!(&r.actions[0], ClientAction::FileDeclined { responder } if responder == b"Bob"));
}

#[test]
fn offer_limits() {
    let mut a = session("Alice");
    assert_eq!(a.offer_file(b"Bob", vec![], b"f", MAX_FILE_SIZE + 1).err(), Some(FileOfferError::TooLarge));
    assert_eq!(a.offer_file(&[b'x'; 256], vec![], b"f", 1).err(), Some(FileOfferError::NameTooLong));
    assert_eq!(file_data_messages(&[b'x'; 256], b"f", b"").err(), Some(ChatClientError::ChatMessageError));
    let empty = file_data_messages(b"Bob", b"f", b"").unwrap();
    assert_eq!(empty.len(), 1);
    assert_eq!(empty[0].content, Some(b"\x03Bob\x01f".to_vec()));
}

#[test]
fn server_addresses() {
    assert_eq!(parse_server_addr("localhost:9000").unwrap(), ("localhost".to_string(), 9000, false));
    assert_eq!(parse_server_addr("tls://chat.example.com").unwrap(), ("chat.example.com".to_string(), 8080, true));
    assert_eq!(parse_server_addr("tls://h:+443").unwrap(), ("h".to_string(), 443, true));
    assert_eq!(parse_server_addr("::1:80").unwrap(), ("::1".to_string(), 80, false));
    assert_eq!(parse_server_addr("h:70000"), Err(ChatClientError::InvalidAddress));
    assert_eq!(parse_server_addr("h:"), Err(ChatClientError::InvalidAddress));
    assert_eq!(parse_server_addr("h:8a"), Err(ChatClientError::InvalidAddress));
}

#[test]
fn backoff_doubles_to_a_minute() {
    assert_eq!(next_backoff_ms(1000), 2000);
    assert_eq!(next_backoff_ms(32000), 60000);
    assert_eq!(next_backoff_ms(MAX_BACKOFF_MS), MAX_BACKOFF_MS);
}

#[test]
fn session_tokens_are_uuid_shaped() {
    let t = new_session_token();
    assert_eq!(t.len(), 36);
    assert_eq!(t.matches('-').count(), 4);
    for (i, c) in t.chars().enumerate() {
        if [8, 13, 18, 23].contains(&i) {
            assert_eq!(c, '-');
        } else {
            assert!(c.is_ascii_digit() || ('a'..='f').contains(&c));
        }
    }
    assert_eq!(t.chars().nth(14), Some('4'));
    assert!("89ab".contains(t.chars().nth(19).unwrap()));
    assert_ne!(t, new_session_token());
}

#[test]
fn empty_and_quit_commands() {
    let mut a = session("Alice");
    assert!(matches!(a.outbound(&ClientUserInput::try_from("   ").unwrap()).unwrap()[0], ClientAction::EmptyMessage));
    assert!(matches!(a.outbound(&ClientUserInput::Message(" \t".to_string())).unwrap()[..], [ClientAction::EmptyMessage]));
    let dm = ClientUserInput::DirectMessage { recipient: "Bob".to_string(), message: "\u{A0} ".to_string() };
    assert!(matches!(a.outbound(&dm).unwrap()[..], [ClientAction::EmptyMessage]));
    assert!(matches!(a.outbound(&ClientUserInput::Reply("  ".to_string())).unwrap()[..], [ClientAction::EmptyMessage]));
    let sent = a.outbound(&ClientUserInput::Message(" hi ".to_string())).unwrap();
    assert!(matches!(&sent[1], ClientAction::Send(m) if m.content == Some(b" hi ".to_vec())));
    let acts = a.outbound(&ClientUserInput::Quit).unwrap();
    assert!(matches!(&acts[0], ClientAction::Send(m) if m.msg_type == MessageTypes::Leave));
    assert!(matches!(acts[1], ClientAction::Quit));
}
