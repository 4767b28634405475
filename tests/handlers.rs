use rust_chat::client::{file_data_messages, ChatClient, ClientAction, FILE_CHUNK_SIZE};
use rust_chat::client_input::ClientUserInput;
use rust_chat::frame::{frame_message, MAX_FRAME_SIZE};
use rust_chat::handler::{cleanup, handle_frame, handle_frame_now, on_control, process_list_users, randomize_username, suffixed_name, UserConnection};
use rust_chat::heartbeat::{on_tick, TickAction, PONG_TIMEOUT_MS};
use rust_chat::message::{ChatMessage, MessageTypes};
use rust_chat::names::{is_valid_message_length, is_valid_username, MAX_MESSAGE_LENGTH, MAX_USERNAME_LENGTH};
use rust_chat::rate_limit::RateLimiter;
use rust_chat::server::{Admission, AdminError, Effect, PeerIp, Registry, ServerCommand, UserConnectionError};

fn next_id() -> u64 {
    rand::random()
}

fn ip(last: u8) -> PeerIp {
    PeerIp { is_v6: false, bits: 0x0a00_0000 | last as u128 }
}

fn msg(t: MessageTypes, c: &[u8]) -> ChatMessage {
    ChatMessage::try_new(t, Some(c.to_vec())).unwrap()
}

fn broadcast(e: &Effect) -> Option<(MessageTypes, Vec<u8>)> {
    match e {
        Effect::Broadcast(m) => Some((m.msg_type, m.content.clone().unwrap_or_default())),
        _ => None,
    }
}

fn reply(e: &Effect) -> Option<(MessageTypes, Vec<u8>)> {
    match e {
        Effect::Reply(m) => Some((m.msg_type, m.content.clone().unwrap_or_default())),
        _ => None,
    }
}

fn joined(reg: &mut Registry, who: &str, token: &str, from: PeerIp) -> UserConnection {
    let mut c = UserConnection::new(next_id(), from, 0);
    let j = msg(MessageTypes::Join, format!("{}|{}", who, token).as_bytes());
    let out = handle_frame(reg, &mut c, &j, 0, 1234);
    assert_eq!(out.result, Ok(()));
    c
}

#[test]
fn handlers_test_username_validation_valid() {
    assert_eq!("alice".len(), 5);
    assert!(is_valid_username(b"alice"));
    assert_eq!("Bob123".len(), 6);
    assert!(is_valid_username(b"Bob123"));
    assert_eq!("user_name".len(), 9);
    assert!(is_valid_username(b"user_name"));
    assert_eq!("user-name".len(), 9);
    assert!(is_valid_username(b"user-name"));
}

#[test]
fn handlers_test_username_validation_invalid_chars() {
    assert!(!is_valid_username(b"user@name"));
    assert!(!is_valid_username(b"user name"));
    assert!(!is_valid_username(b"user!name"));
    assert!(!is_valid_username(b"user.name"));
}

#[test]
fn handlers_test_username_validation_length() {
    let empty = "";
    assert!(empty.is_empty());
    assert!(!is_valid_username(empty.as_bytes()));
    let valid = "a".repeat(32);
    assert_eq!(valid.len(), 32);
    assert!(valid.len() <= MAX_USERNAME_LENGTH);
    assert!(is_valid_username(valid.as_bytes()));
    let too_long = "a".repeat(33);
    assert!(too_long.len() > MAX_USERNAME_LENGTH);
    assert!(!is_valid_username(too_long.as_bytes()));
}

#[test]
fn handlers_test_message_length_validation() {
    let valid = "Hello, World!";
    assert!(!valid.is_empty());
    assert!(valid.len() <= MAX_MESSAGE_LENGTH);
    assert!(is_valid_message_length(valid.as_bytes()));
    let empty = "";
    assert!(empty.is_empty());
    assert!(!is_valid_message_length(empty.as_bytes()));
    let too_long = "x".repeat(MAX_MESSAGE_LENGTH + 1);
    assert!(too_long.len() > MAX_MESSAGE_LENGTH);
    assert!(!is_valid_message_length(too_long.as_bytes()));
}

#[test]
fn username_validation_is_stable() {
    for n in ["alice", "", "a b", "é", "x-y_z9"] {
        assert_eq!(is_valid_username(n.as_bytes()), is_valid_username(n.as_bytes()));
    }
    assert!(!is_valid_username("é".as_bytes()));
}

#[test]
fn test_rate_limiter_allows_messages_within_limit() {
    let mut limiter = RateLimiter::new(5, 1000);
    for _ in 0..5 {
        assert!(limiter.check_and_consume());
    }
}

#[test]
fn test_rate_limiter_blocks_excess_messages() {
    let mut limiter = RateLimiter::new(3, 1000);
    for _ in 0..3 {
        assert!(limiter.check_and_consume());
    }
    assert!(!limiter.check_and_consume());
}

#[test]
fn test_rate_limiter_refills_after_interval() {
    let mut limiter = RateLimiter::new_at(2, 100, 0);
    assert!(limiter.check_and_consume_at(0));
    assert!(limiter.check_and_consume_at(0));
    assert!(!limiter.check_and_consume_at(0));
    assert!(limiter.check_and_consume_at(150));
    assert!(limiter.check_and_consume_at(150));
}

#[test]
fn test_rate_limiter_multiple_refills() {
    let mut limiter = RateLimiter::new_at(1, 50, 0);
    let mut now = 0u64;
    for _ in 0..3 {
        assert!(limiter.check_and_consume_at(now));
        assert!(!limiter.check_and_consume_at(now));
        now += 60;
    }
}

#[test]
fn rate_window_bound_on_concrete_times() {
    let mut limiter = RateLimiter::new_at(10, 1000, 0);
    let allowed = (0..30u64).filter(|i| limiter.check_and_consume_at(i * 30)).count();
    assert_eq!(allowed, 10);
}

#[test]
fn heartbeat_timeout() {
    assert_eq!(on_tick(0, 60_000, PONG_TIMEOUT_MS), TickAction::SendPing);
    assert_eq!(on_tick(0, 60_001, PONG_TIMEOUT_MS), TickAction::TimedOut);
    assert_eq!(on_tick(50_000, 90_000, PONG_TIMEOUT_MS), TickAction::SendPing);
    assert_eq!(on_tick(10, 5, PONG_TIMEOUT_MS), TickAction::SendPing);
}

#[test]
fn frame_counts_as_activity() {
    let mut reg = Registry::new();
    let mut c = UserConnection::new(next_id(), ip(1), 0);
    let out = handle_frame(&mut reg, &mut c, &ChatMessage::try_new(MessageTypes::Pong, None).unwrap(), 59_000, 1234);
    assert!(out.effects.is_empty());
    assert_eq!(c.last_activity_ms, 59_000);
    assert_eq!(on_tick(c.last_activity_ms, 110_000, PONG_TIMEOUT_MS), TickAction::SendPing);
}

#[test]
fn single_client_echo() {
    let mut reg = Registry::new();
    let mut a = UserConnection::new(next_id(), ip(1), 0);
    let out = handle_frame(&mut reg, &mut a, &msg(MessageTypes::Join, b"Alice|T_A"), 0, 1234);
    assert_eq!(out.result, Ok(()));
    assert_eq!(out.effects.len(), 1);
    assert_eq!(broadcast(&out.effects[0]), Some((MessageTypes::Join, b"Alice".to_vec())));
    assert!(reg.users.contains(b"Alice"));
    let out = handle_frame(&mut reg, &mut a, &msg(MessageTypes::ChatMessage, b"hi"), 10, 1234);
    assert_eq!(out.effects.len(), 1);
    assert_eq!(broadcast(&out.effects[0]), Some((MessageTypes::ChatMessage, b"Alice: hi".to_vec())));
}

#[test]
fn name_collision_gets_suffix() {
    let mut reg = Registry::new();
    let _a = joined(&mut reg, "Alice", "T_A", ip(1));
    let mut b = UserConnection::new(next_id(), ip(2), 0);
    let out = handle_frame(&mut reg, &mut b, &msg(MessageTypes::Join, b"Alice|T_B"), 0, 4321);
    assert_eq!(out.effects.len(), 2);
    assert_eq!(reply(&out.effects[0]), Some((MessageTypes::UserRename, b"Alice_4321".to_vec())));
    assert_eq!(broadcast(&out.effects[1]), Some((MessageTypes::Join, b"Alice_4321".to_vec())));
    assert!(reg.users.contains(b"Alice"));
    assert!(reg.users.contains(b"Alice_4321"));
    assert_eq!(b.chat_name, Some(b"Alice_4321".to_vec()));
}

#[test]
fn random_suffix_has_four_digits() {
    let mut reg = Registry::new();
    let _a = joined(&mut reg, "Alice", "T_A", ip(1));
    let mut b = UserConnection::new(next_id(), ip(2), 0);
    let out = handle_frame_now(&mut reg, &mut b, &msg(MessageTypes::Join, b"Alice|T_B"), 0);
    let name = b.chat_name.clone().unwrap();
    assert_eq!(name.len(), 10);
    assert_eq!(&name[..6], b"Alice_");
    assert!(name[6..].iter().all(|c| c.is_ascii_digit()));
    assert_eq!(out.effects.len(), 2);
    let r = randomize_username(b"Bob");
    assert_eq!(&r[..4], b"Bob_");
    let n: u32 = std::str::from_utf8(&r[4..]).unwrap().parse().unwrap();
    assert!((1000..9999).contains(&n));
}

#[test]
fn join_collision_with_suffix_taken_fails() {
    let mut reg = Registry::new();
    let _a = joined(&mut reg, "Alice", "T_A", ip(1));
    let _c = joined(&mut reg, "Alice_1234", "T_C", ip(3));
    let mut b = UserConnection::new(next_id(), ip(2), 0);
    let out = handle_frame(&mut reg, &mut b, &msg(MessageTypes::Join, b"Alice|T_B"), 0, 1234);
    assert_eq!(out.result, Err(UserConnectionError::JoinError));
    assert!(out.result.unwrap_err().ends_connection());
    assert_eq!(b.chat_name, None);
}

#[test]
fn ghost_session_reclaim() {
    let mut reg = Registry::new();
    let mut old = joined(&mut reg, "Alice", "T_A", ip(1));
    let mut fresh = UserConnection::new(next_id(), ip(1), 5);
    let out = handle_frame(&mut reg, &mut fresh, &msg(MessageTypes::Join, b"Alice|T_A"), 5, 1234);
    assert_eq!(out.effects.len(), 1);
    let cmd = match &out.effects[0] {
        Effect::Control(c) => c.clone(),
        _ => panic!("expected a control command"),
    };
    assert!(matches!(&cmd, ServerCommand::SessionTakeover(n, _) if n == b"Alice"));
    assert_eq!(fresh.chat_name, Some(b"Alice".to_vec()));
    let own = on_control(&mut fresh, &cmd);
    assert!(!own.exit);
    assert!(!fresh.session_taken_over);
    assert_eq!(fresh.chat_name, Some(b"Alice".to_vec()));
    let reaction = on_control(&mut old, &cmd);
    assert!(reaction.exit);
    assert!(reaction.effects.is_empty());
    assert!(old.session_taken_over);
    let leave = cleanup(&mut reg, &old);
    assert!(leave.is_empty());
    assert!(reg.users.contains(b"Alice"));
}

#[test]
fn reclaim_needs_same_ip() {
    let mut reg = Registry::new();
    let _old = joined(&mut reg, "Alice", "T_A", ip(1));
    let mut other = UserConnection::new(next_id(), ip(9), 5);
    let out = handle_frame(&mut reg, &mut other, &msg(MessageTypes::Join, b"Alice|T_A"), 5, 2222);
    assert_eq!(reply(&out.effects[0]), Some((MessageTypes::UserRename, b"Alice_2222".to_vec())));
}

#[test]
fn dm_to_unknown_user() {
    let mut reg = Registry::new();
    let mut a = joined(&mut reg, "Alice", "T_A", ip(1));
    let out = handle_frame(&mut reg, &mut a, &msg(MessageTypes::DirectMessage, b"Zed|yo"), 1, 1234);
    assert_eq!(out.effects.len(), 1);
    assert_eq!(reply(&out.effects[0]), Some((MessageTypes::Error, b"User 'Zed' not found".to_vec())));
    let _b = joined(&mut reg, "Bob", "T_B", ip(2));
    let out = handle_frame(&mut reg, &mut a, &msg(MessageTypes::DirectMessage, b"Bob|yo"), 2, 1234);
    assert_eq!(broadcast(&out.effects[0]), Some((MessageTypes::DirectMessage, b"Alice|Bob|yo".to_vec())));
}

#[test]
fn rate_limit_twelve_in_a_burst() {
    let mut reg = Registry::new();
    let mut a = joined(&mut reg, "Alice", "T_A", ip(1));
    let mut sent = 0;
    for i in 0..12u64 {
        let out = handle_frame(&mut reg, &mut a, &msg(MessageTypes::ChatMessage, b"spam"), i * 25, 1234);
        if i < 10 {
            assert!(broadcast(&out.effects[0]).is_some());
            sent += 1;
        } else {
            assert_eq!(out.effects.len(), 1);
            assert_eq!(
                reply(&out.effects[0]),
                Some((MessageTypes::Error, b"Rate limit exceeded. Please slow down.".to_vec()))
            );
            assert_eq!(out.result, Ok(()));
        }
    }
    assert_eq!(sent, 10);
    let out = handle_frame(&mut reg, &mut a, &msg(MessageTypes::ChatMessage, b"back"), 1000, 1234);
    assert_eq!(broadcast(&out.effects[0]), Some((MessageTypes::ChatMessage, b"Alice: back".to_vec())));
}

#[test]
fn file_handshake_server_side() {
    let mut reg = Registry::new();
    let mut a = joined(&mut reg, "Alice", "T_A", ip(1));
    let mut b = joined(&mut reg, "Bob", "T_B", ip(2));
    let size: u64 = 5_000_000;
    let mut req = vec![3u8];
    req.extend_from_slice(b"Bob");
    req.push(7);
    req.extend_from_slice(b"big.bin");
    req.extend_from_slice(&size.to_be_bytes());
    let out = handle_frame(&mut reg, &mut a, &msg(MessageTypes::FileTransferRequest, &req), 1, 1234);
    let mut expect = vec![3u8];
    expect.extend_from_slice(b"Bob");
    expect.push(5);
    expect.extend_from_slice(b"Alice");
    expect.push(7);
    expect.extend_from_slice(b"big.bin");
    expect.extend_from_slice(&size.to_be_bytes());
    assert_eq!(broadcast(&out.effects[0]), Some((MessageTypes::FileTransferRequest, expect)));
    let mut resp = vec![5u8];
    resp.extend_from_slice(b"Alice");
    resp.push(1);
    let out = handle_frame(&mut reg, &mut b, &msg(MessageTypes::FileTransferResponse, &resp), 2, 1234);
    let mut expect = vec![5u8];
    expect.extend_from_slice(b"Alice");
    expect.push(3);
    expect.extend_from_slice(b"Bob");
    expect.push(1);
    assert_eq!(broadcast(&out.effects[0]), Some((MessageTypes::FileTransferResponse, expect)));
    let mut data = vec![3u8];
    data.extend_from_slice(b"Bob");
    data.push(7);
    data.extend_from_slice(b"big.bin");
    data.extend_from_slice(&[9u8; 1000]);
    let out = handle_frame(&mut reg, &mut a, &msg(MessageTypes::FileTransfer, &data), 3, 1234);
    let (t, c) = broadcast(&out.effects[0]).unwrap();
    assert_eq!(t, MessageTypes::FileTransfer);
    assert_eq!(&c[..10], b"\x03Bob\x05Alice");
    assert_eq!(c.len(), 1 + 3 + 1 + 5 + 1 + 7 + 1000);
}

#[test]
fn file_request_to_unknown_and_malformed() {
    let mut reg = Registry::new();
    let mut a = joined(&mut reg, "Alice", "T_A", ip(1));
    let mut req = vec![3u8];
    req.extend_from_slice(b"Zed");
    req.push(1);
    req.extend_from_slice(b"f");
    req.extend_from_slice(&[0u8; 8]);
    let out = handle_frame(&mut reg, &mut a, &msg(MessageTypes::FileTransferRequest, &req), 1, 1234);
    assert_eq!(reply(&out.effects[0]), Some((MessageTypes::Error, b"User 'Zed' not found".to_vec())));
    let out = handle_frame(&mut reg, &mut a, &msg(MessageTypes::FileTransferRequest, &[9, 1]), 2, 1234);
    assert_eq!(out.result, Err(UserConnectionError::InvalidMessage));
    assert!(!UserConnectionError::InvalidMessage.ends_connection());
}

#[test]
fn chat_before_join_and_invalid_utf8() {
    let mut reg = Registry::new();
    let mut c = UserConnection::new(next_id(), ip(1), 0);
    let out = handle_frame(&mut reg, &mut c, &msg(MessageTypes::ChatMessage, b"hi"), 0, 1234);
    assert_eq!(out.result, Err(UserConnectionError::InvalidMessage));
    let mut a = joined(&mut reg, "Alice", "T_A", ip(2));
    let out = handle_frame(&mut reg, &mut a, &msg(MessageTypes::ChatMessage, &[0xff, 0xfe]), 1, 1234);
    assert_eq!(out.result, Err(UserConnectionError::InvalidMessage));
    assert_eq!(out.effects.len(), 1);
    assert_eq!(reply(&out.effects[0]), Some((MessageTypes::Error, b"Invalid message".to_vec())));
    let out = handle_frame(&mut reg, &mut a, &msg(MessageTypes::ChatMessage, &[b'x'; 1025]), 2, 1234);
    assert_eq!(out.result, Err(UserConnectionError::InvalidMessage));
    assert_eq!(reply(&out.effects[0]), Some((MessageTypes::Error, b"Invalid message".to_vec())));
}

#[test]
fn malformed_first_join_closes() {
    let mut reg = Registry::new();
    let mut c = UserConnection::new(next_id(), ip(1), 0);
    let out = handle_frame(&mut reg, &mut c, &msg(MessageTypes::Join, b"bad name|T"), 0, 1234);
    assert_eq!(out.result, Err(UserConnectionError::JoinError));
    assert!(out.result.unwrap_err().ends_connection());
    assert!(!reg.users.contains(b"bad name"));
    let mut a = joined(&mut reg, "Alice", "T_A", ip(2));
    let out = handle_frame(&mut reg, &mut a, &msg(MessageTypes::Join, b"bad name|T"), 1, 1234);
    assert_eq!(out.result, Err(UserConnectionError::InvalidMessage));
}

#[test]
fn rename_request_flow() {
    let mut reg = Registry::new();
    let mut a = joined(&mut reg, "Alice", "T_A", ip(1));
    let _b = joined(&mut reg, "Bob", "T_B", ip(2));
    let out = handle_frame(&mut reg, &mut a, &msg(MessageTypes::RenameRequest, b"Bob"), 1, 1234);
    assert_eq!(reply(&out.effects[0]), Some((MessageTypes::Error, b"Username 'Bob' is already taken".to_vec())));
    let out = handle_frame(&mut reg, &mut a, &msg(MessageTypes::RenameRequest, b"bad name"), 2, 1234);
    assert_eq!(
        reply(&out.effects[0]),
        Some((MessageTypes::Error, b"Invalid characters (only alphanumeric, underscore, hyphen allowed)".to_vec()))
    );
    let out = handle_frame(&mut reg, &mut a, &msg(MessageTypes::RenameRequest, &[b'x'; 33]), 3, 1234);
    assert_eq!(reply(&out.effects[0]), Some((MessageTypes::Error, b"Invalid username length (1-32 characters)".to_vec())));
    let out = handle_frame(&mut reg, &mut a, &msg(MessageTypes::RenameRequest, b"Carol"), 4, 1234);
    assert_eq!(reply(&out.effects[0]), Some((MessageTypes::UserRename, b"Carol".to_vec())));
    assert_eq!(broadcast(&out.effects[1]), Some((MessageTypes::ChatMessage, b"Alice is now known as Carol".to_vec())));
    assert!(reg.users.contains(b"Carol"));
    assert!(!reg.users.contains(b"Alice"));
    assert!(reg.user_ips.contains_key(b"Carol"));
}

#[test]
fn status_and_list() {
    let mut reg = Registry::new();
    let mut a = joined(&mut reg, "Alice", "T_A", ip(1));
    let b = joined(&mut reg, "Bob", "T_B", ip(2));
    let out = handle_frame(&mut reg, &mut a, &msg(MessageTypes::SetStatus, b"away"), 1, 1234);
    assert_eq!(reply(&out.effects[0]), Some((MessageTypes::SetStatus, b"Status set to: away".to_vec())));
    let out = process_list_users(&reg, &b);
    assert_eq!(reply(&out.effects[0]), Some((MessageTypes::ListUsers, b"Alice - away\nBob".to_vec())));
    let out = handle_frame(&mut reg, &mut a, &msg(MessageTypes::SetStatus, &[b's'; 129]), 2, 1234);
    assert_eq!(reply(&out.effects[0]), Some((MessageTypes::Error, b"Status too long (max 128 characters)".to_vec())));
    let out = handle_frame(&mut reg, &mut a, &ChatMessage::try_new(MessageTypes::SetStatus, None).unwrap(), 3, 1234);
    assert_eq!(reply(&out.effects[0]), Some((MessageTypes::SetStatus, b"Status cleared".to_vec())));
    assert!(!reg.user_statuses.contains_key(b"Alice"));
}

#[test]
fn version_check_mismatch_ends_connection() {
    let mut reg = Registry::new();
    let mut c = UserConnection::new(next_id(), ip(1), 0);
    let out = handle_frame(&mut reg, &mut c, &msg(MessageTypes::VersionCheck, b"0.1.8"), 0, 1234);
    assert_eq!(out.result, Ok(()));
    assert!(out.effects.is_empty());
    let out = handle_frame(&mut reg, &mut c, &msg(MessageTypes::VersionCheck, b"0.0.1"), 0, 1234);
    assert_eq!(out.result, Err(UserConnectionError::VersionMismatch));
    assert_eq!(
        reply(&out.effects[0]),
        Some((MessageTypes::VersionMismatch, b"0.0.1|0.1.8|https://github.com/mikemiles-dev/rust_chat#readme".to_vec()))
    );
}

#[test]
fn leave_then_cleanup_emits_one_leave() {
    let mut reg = Registry::new();
    let mut a = joined(&mut reg, "Alice", "T_A", ip(1));
    let out = handle_frame(&mut reg, &mut a, &msg(MessageTypes::Leave, b"Alice"), 1, 1234);
    assert_eq!(out.result, Err(UserConnectionError::ExplicitQuit));
    assert!(a.clear_status_on_disconnect);
    let effects = cleanup(&mut reg, &a);
    assert_eq!(effects.len(), 1);
    assert_eq!(broadcast(&effects[0]), Some((MessageTypes::Leave, b"Alice".to_vec())));
    assert!(!reg.users.contains(b"Alice"));
    assert!(!reg.user_sessions.contains_key(b"Alice"));
}

#[test]
fn dropped_connection_keeps_session_for_reclaim() {
    let mut reg = Registry::new();
    let a = joined(&mut reg, "Alice", "T_A", ip(1));
    let effects = cleanup(&mut reg, &a);
    assert_eq!(effects.len(), 1);
    assert!(reg.user_sessions.contains_key(b"Alice"));
}

#[test]
fn kick_ban_and_admin_rename() {
    let mut reg = Registry::new();
    let mut a = joined(&mut reg, "Alice", "T_A", ip(1));
    let kick = reg.kick(b"Alice").unwrap();
    let r = on_control(&mut a, &kick);
    assert!(r.exit);
    assert!(a.clear_status_on_disconnect);
    assert_eq!(reply(&r.effects[0]), Some((MessageTypes::Error, b"You have been kicked by the server".to_vec())));
    assert!(matches!(reg.kick(b"Nobody"), Err(AdminError::UserNotFound)));

    let mut b = joined(&mut reg, "Bob", "T_B", ip(2));
    let ban = reg.ban_user(b"Bob").unwrap();
    assert!(reg.is_banned(ip(2)));
    assert_eq!(reg.admission(ip(2), 0, 100), Admission::Banned);
    assert_eq!(reg.admission(ip(3), 100, 100), Admission::Full);
    assert_eq!(reg.admission(ip(3), 1, 100), Admission::Accept);
    let r = on_control(&mut b, &ban);
    assert!(r.exit);
    assert_eq!(reply(&r.effects[0]), Some((MessageTypes::Error, b"You have been banned from the server".to_vec())));
    assert!(matches!(reg.ban_ip(ip(2)), Err(AdminError::AlreadyBanned)));
    assert_eq!(reg.unban_ip(ip(2)), Ok(()));
    assert_eq!(reg.unban_ip(ip(2)), Err(AdminError::NotBanned));

    let mut c = joined(&mut reg, "Carol", "T_C", ip(4));
    let cmd = reg.admin_rename(b"Carol", b"Dave").unwrap();
    assert!(reg.users.contains(b"Dave"));
    let r = on_control(&mut c, &cmd);
    assert!(!r.exit);
    assert_eq!(c.chat_name, Some(b"Dave".to_vec()));
    assert_eq!(
        broadcast(&r.effects[1]),
        Some((MessageTypes::ChatMessage, b"Carol is now known as Dave (renamed by server)".to_vec()))
    );
    assert!(matches!(reg.admin_rename(b"Dave", b"no way"), Err(AdminError::InvalidName)));
    assert!(matches!(reg.admin_rename(b"Zed", b"Eve"), Err(AdminError::UserNotFound)));
}

#[test]
fn suffix_formatting() {
    assert_eq!(suffixed_name(b"Alice", 1000), b"Alice_1000".to_vec());
    assert_eq!(suffixed_name(b"Alice", 9998), b"Alice_9998".to_vec());
}

#[test]
fn five_megabyte_file_arrives_whole() {
    let mut reg = Registry::new();
    let mut alice_conn = joined(&mut reg, "Alice", "T_A", ip(1));
    let mut bob_conn = joined(&mut reg, "Bob", "T_B", ip(2));
    let mut alice = ChatClient::new(b"Alice".to_vec(), b"T_A".to_vec());
    let mut bob = ChatClient::new(b"Bob".to_vec(), b"T_B".to_vec());
    let size: u64 = 5_000_000;

    let offer = alice.offer_file(b"Bob", b"big.bin".to_vec(), b"big.bin", size).unwrap();
    let out = handle_frame(&mut reg, &mut alice_conn, &offer, 1, 1234);
    let forwarded = match &out.effects[0] {
        Effect::Broadcast(m) => m.clone(),
        _ => panic!("expected a broadcast"),
    };
    bob.handle_message(&forwarded);
    let acts = bob.outbound(&ClientUserInput::try_from("/accept Alice").unwrap()).unwrap();
    let answer = match &acts[0] {
        ClientAction::Send(m) => m.clone(),
        _ => panic!("expected a response"),
    };
    let out = handle_frame(&mut reg, &mut bob_conn, &answer, 2, 1234);
    let relayed = match &out.effects[0] {
        Effect::Broadcast(m) => m.clone(),
        _ => panic!("expected a broadcast"),
    };
    let r = alice.handle_message(&relayed);
    assert!(matches!(&r.actions[0], ClientAction::SendFileData { .. }));

    let data: Vec<u8> = (0..size).map(|i| (i % 251) as u8).collect();
    let records = file_data_messages(b"Bob", b"big.bin", &data).unwrap();
    assert_eq!(records.len(), (size as usize).div_ceil(FILE_CHUNK_SIZE));
    let mut file: Vec<u8> = Vec::new();
    let mut saved_to = Vec::new();
    for (i, record) in records.iter().enumerate() {
        assert!(frame_message(record).is_ok());
        let out = handle_frame(&mut reg, &mut alice_conn, record, 1000 * (i as u64 + 3), 1234);
        let delivered = match &out.effects[0] {
            Effect::Broadcast(m) => m.clone(),
            _ => panic!("expected a broadcast"),
        };
        assert!(delivered.content.as_ref().unwrap().len() + 5 <= MAX_FRAME_SIZE);
        for action in bob.handle_message(&delivered).actions {
            match action {
                ClientAction::SaveFile { path, data, append } => {
                    if !append {
                        file.clear();
                    }
                    file.extend_from_slice(&data);
                    saved_to = path;
                }
                _ => panic!("expected file data"),
            }
        }
    }
    assert_eq!(saved_to, b"downloads/big.bin".to_vec());
    assert_eq!(file.len(), 5_000_000);
    assert_eq!(file, data);
    assert!(bob.downloads.keys.is_empty());
}

#[test]
fn suffixed_long_name_can_be_reclaimed() {
    let mut reg = Registry::new();
    let base = "a".repeat(30);
    let _first = joined(&mut reg, &base, "T_1", ip(1));
    let mut second = UserConnection::new(next_id(), ip(2), 0);
    let out = handle_frame(&mut reg, &mut second, &msg(MessageTypes::Join, format!("{}|T_2", base).as_bytes()), 0, 1234);
    assert_eq!(out.result, Ok(()));
    let long = second.chat_name.clone().unwrap();
    assert_eq!(long.len(), 35);
    let mut again = UserConnection::new(next_id(), ip(2), 5);
    let mut line = long.clone();
    line.extend_from_slice(b"|T_2");
    let out = handle_frame(&mut reg, &mut again, &msg(MessageTypes::Join, &line), 5, 1234);
    assert_eq!(out.effects.len(), 1);
    assert!(matches!(&out.effects[0], Effect::Control(ServerCommand::SessionTakeover(n, _)) if n == &long));
    assert_eq!(again.chat_name, Some(long));
}
