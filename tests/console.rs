use rust_chat::client_input::UserInputError;
use rust_chat::completer::{ClientCompleter, ServerCompleter};
use rust_chat::server_input::ServerUserInput;

#[test]
fn server_input_test_quit_command() {
    let input = ServerUserInput::try_from("/quit");
    assert!(input.is_ok());
    assert!(matches!(input.unwrap(), ServerUserInput::Quit));
}

#[test]
fn test_quit_short_command() {
    let input = ServerUserInput::try_from("/q");
    assert!(input.is_ok());
    assert!(matches!(input.unwrap(), ServerUserInput::Quit));
}

#[test]
fn server_input_test_help_command() {
    let input = ServerUserInput::try_from("/help");
    assert!(input.is_ok());
    assert!(matches!(input.unwrap(), ServerUserInput::Help));
}

#[test]
fn server_input_test_list_command() {
    let input = ServerUserInput::try_from("/list");
    assert!(input.is_ok());
    assert!(matches!(input.unwrap(), ServerUserInput::ListUsers));
}

#[test]
fn server_input_test_invalid_command() {
    let input = ServerUserInput::try_from("/unknown");
    assert!(input.is_err());
    assert!(matches!(input.unwrap_err(), UserInputError::InvalidCommand));
}

#[test]
fn server_input_test_whitespace_trimming() {
    let input = ServerUserInput::try_from("  /help  ");
    assert!(input.is_ok());
    assert!(matches!(input.unwrap(), ServerUserInput::Help));
}

#[test]
fn test_kick_command() {
    let input = ServerUserInput::try_from("/kick Alice");
    assert!(input.is_ok());
    match input.unwrap() {
        ServerUserInput::Kick(username) => assert_eq!(username, "Alice"),
        _ => panic!("Expected Kick variant"),
    }
}

#[test]
fn test_kick_command_with_whitespace() {
    let input = ServerUserInput::try_from("/kick   Bob  ");
    assert!(input.is_ok());
    match input.unwrap() {
        ServerUserInput::Kick(username) => assert_eq!(username, "Bob"),
        _ => panic!("Expected Kick variant"),
    }
}

#[test]
fn test_kick_command_no_username() {
    let input = ServerUserInput::try_from("/kick");
    assert!(input.is_err());
}

#[test]
fn test_kick_command_empty_username() {
    let input = ServerUserInput::try_from("/kick   ");
    assert!(input.is_err());
}

#[test]
fn rename_ban_unban_banlist() {
    assert!(matches!(ServerUserInput::try_from("/rename a b").unwrap(),
        ServerUserInput::Rename { old_name, new_name } if old_name == "a" && new_name == "b"));
    assert!(ServerUserInput::try_from("/rename a").is_err());
    assert!(ServerUserInput::try_from("/rename a b c").is_err());
    assert!(matches!(ServerUserInput::try_from("/ban 10.0.0.1").unwrap(), ServerUserInput::Ban(t) if t == "10.0.0.1"));
    assert!(matches!(ServerUserInput::try_from("/ban  Mallory ").unwrap(), ServerUserInput::Ban(t) if t == "Mallory"));
    assert!(matches!(ServerUserInput::try_from("/unban ::1").unwrap(), ServerUserInput::Unban(t) if t == "::1"));
    assert!(matches!(ServerUserInput::try_from("/banlist").unwrap(), ServerUserInput::BanList));
    assert!(matches!(ServerUserInput::try_from("/h").unwrap(), ServerUserInput::Help));
    assert!(ServerUserInput::try_from("hello").is_err());
}

#[test]
fn server_completion() {
    let c = ServerCompleter::new();
    assert_eq!(c.get_candidates("/b"), vec!["/ban".to_string(), "/banlist".to_string()]);
    assert_eq!(c.get_candidates("  /q"), vec!["/quit".to_string(), "/q".to_string()]);
    assert!(c.get_candidates("b").is_empty());
}

#[test]
fn client_completion() {
    let c = ClientCompleter::new();
    let users = vec!["Alice".to_string(), "Alan".to_string(), "Bob".to_string()];
    assert_eq!(c.get_candidates("/dm Al", &users), vec!["/dm Alice".to_string(), "/dm Alan".to_string()]);
    assert_eq!(c.get_candidates("/send B", &users), vec!["/send Bob".to_string()]);
    assert_eq!(c.get_candidates("/r", &users), vec!["/r".to_string(), "/rename".to_string()]);
    assert!(c.get_candidates("/dm Alice hi", &users).is_empty());
    assert!(c.get_candidates("hello", &users).is_empty());
}
