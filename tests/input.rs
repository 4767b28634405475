use rust_chat::client_input::{ClientUserInput, UserInputError};

#[test]
fn input_test_quit_command() {
    let input = ClientUserInput::try_from("/quit");
    assert!(input.is_ok());
    assert!(matches!(input.unwrap(), ClientUserInput::Quit));
}

#[test]
fn input_test_help_command() {
    let input = ClientUserInput::try_from("/help");
    assert!(input.is_ok());
    assert!(matches!(input.unwrap(), ClientUserInput::Help));
}

#[test]
fn input_test_list_command() {
    let input = ClientUserInput::try_from("/list");
    assert!(input.is_ok());
    assert!(matches!(input.unwrap(), ClientUserInput::ListUsers));
}

#[test]
fn input_test_dm_command_valid() {
    let input = ClientUserInput::try_from("/dm Alice Hello there!");
    assert!(input.is_ok());
    if let ClientUserInput::DirectMessage { recipient, message } = input.unwrap() {
        assert_eq!(recipient, "Alice");
        assert_eq!(message, "Hello there!");
    } else {
        panic!("Expected DirectMessage variant");
    }
}

#[test]
fn input_test_dm_command_multiword_message() {
    let input = ClientUserInput::try_from("/dm Bob This is a longer message");
    assert!(input.is_ok());
    if let ClientUserInput::DirectMessage { recipient, message } = input.unwrap() {
        assert_eq!(recipient, "Bob");
        assert_eq!(message, "This is a longer message");
    } else {
        panic!("Expected DirectMessage variant");
    }
}

#[test]
fn input_test_dm_command_missing_message() {
    let input = ClientUserInput::try_from("/dm Alice");
    assert!(input.is_err());
    assert!(matches!(input.unwrap_err(), UserInputError::InvalidCommand));
}

#[test]
fn input_test_dm_command_missing_recipient() {
    let input = ClientUserInput::try_from("/dm");
    assert!(input.is_err());
    assert!(matches!(input.unwrap_err(), UserInputError::InvalidCommand));
}

#[test]
fn input_test_reply_command_valid() {
    let input = ClientUserInput::try_from("/r Thanks!");
    assert!(input.is_ok());
    if let ClientUserInput::Reply(message) = input.unwrap() {
        assert_eq!(message, "Thanks!");
    } else {
        panic!("Expected Reply variant");
    }
}

#[test]
fn input_test_reply_command_multiword() {
    let input = ClientUserInput::try_from("/r Got it, will do");
    assert!(input.is_ok());
    if let ClientUserInput::Reply(message) = input.unwrap() {
        assert_eq!(message, "Got it, will do");
    } else {
        panic!("Expected Reply variant");
    }
}

#[test]
fn input_test_reply_command_missing_message() {
    let input = ClientUserInput::try_from("/r");
    assert!(input.is_err());
    assert!(matches!(input.unwrap_err(), UserInputError::InvalidCommand));
}

#[test]
fn input_test_regular_message() {
    let input = ClientUserInput::try_from("Hello everyone!");
    assert!(input.is_ok());
    if let ClientUserInput::Message(msg) = input.unwrap() {
        assert_eq!(msg, "Hello everyone!");
    } else {
        panic!("Expected Message variant");
    }
}

#[test]
fn input_test_invalid_command() {
    let input = ClientUserInput::try_from("/unknown");
    assert!(input.is_err());
    assert!(matches!(input.unwrap_err(), UserInputError::InvalidCommand));
}

#[test]
fn input_test_whitespace_trimming() {
    let input = ClientUserInput::try_from("  /help  ");
    assert!(input.is_ok());
    assert!(matches!(input.unwrap(), ClientUserInput::Help));
}

#[test]
fn input_test_message_with_leading_whitespace() {
    let input = ClientUserInput::try_from("  Hello  ");
    assert!(input.is_ok());
    if let ClientUserInput::Message(msg) = input.unwrap() {
        assert_eq!(msg, "Hello");
    } else {
        panic!("Expected Message variant");
    }
}

#[test]
fn input_test_dm_with_extra_whitespace() {
    let input = ClientUserInput::try_from("/dm   Alice   Hello   World");
    assert!(input.is_ok());
    if let ClientUserInput::DirectMessage { recipient, message } = input.unwrap() {
        assert_eq!(recipient, "Alice");
        assert_eq!(message, "Hello World");
    } else {
        panic!("Expected DirectMessage variant");
    }
}

#[test]
fn test_status_command_with_message() {
    let input = ClientUserInput::try_from("/status AFK for lunch");
    assert!(input.is_ok());
    if let ClientUserInput::Status(Some(status)) = input.unwrap() {
        assert_eq!(status, "AFK for lunch");
    } else {
        panic!("Expected Status variant with message");
    }
}

#[test]
fn test_status_command_clear() {
    let input = ClientUserInput::try_from("/status");
    assert!(input.is_ok());
    assert!(matches!(input.unwrap(), ClientUserInput::Status(None)));
}

#[test]
fn file_commands_parse() {
    match ClientUserInput::try_from("/send Bob my  file.bin".to_string()).unwrap() {
        ClientUserInput::SendFile { recipient, file_path } => {
            assert_eq!(recipient, "Bob");
            assert_eq!(file_path, "my file.bin");
        }
        _ => panic!("Expected SendFile"),
    }
    assert!(matches!(ClientUserInput::try_from("/accept Alice").unwrap(), ClientUserInput::AcceptFile { sender } if sender == "Alice"));
    assert!(matches!(ClientUserInput::try_from("/reject Alice").unwrap(), ClientUserInput::RejectFile { sender } if sender == "Alice"));
    assert!(matches!(ClientUserInput::try_from("/rename Zed extra").unwrap(), ClientUserInput::Rename(n) if n == "Zed"));
    assert!(ClientUserInput::try_from("/send Bob").is_err());
    assert!(ClientUserInput::try_from("/accept").is_err());
}

#[test]
fn tabs_count_as_whitespace() {
    match ClientUserInput::try_from("\t/dm\tAlice\t hi \n").unwrap() {
        ClientUserInput::DirectMessage { recipient, message } => {
            assert_eq!(recipient, "Alice");
            assert_eq!(message, "hi");
        }
        _ => panic!("Expected DirectMessage"),
    }
}

#[test]
fn empty_line_is_empty_message() {
    assert!(matches!(ClientUserInput::try_from("   ").unwrap(), ClientUserInput::Message(m) if m.is_empty()));
}

#[test]
fn unicode_whitespace_is_trimmed() {
    assert!(matches!(ClientUserInput::try_from("\u{A0}").unwrap(), ClientUserInput::Message(m) if m.is_empty()));
    assert!(matches!(ClientUserInput::try_from("\u{3000}/help\u{2003}").unwrap(), ClientUserInput::Help));
    match ClientUserInput::try_from("/dm\u{A0}Alice\u{85}hi\u{2028}there").unwrap() {
        ClientUserInput::DirectMessage { recipient, message } => {
            assert_eq!(recipient, "Alice");
            assert_eq!(message, "hi there");
        }
        _ => panic!("Expected DirectMessage"),
    }
    assert!(matches!(ClientUserInput::try_from("caf\u{E9}").unwrap(), ClientUserInput::Message(m) if m == "caf\u{E9}"));
}
