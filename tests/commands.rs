use rust_chat::client_commands as client;
use rust_chat::commands::Command;
use rust_chat::server_commands as server;
use rust_chat::version::{version_mismatch_message, versions_compatible, GITHUB_README_URL, VERSION};

#[test]
fn test_client_completion_names() {
    let names = client::completion_names();
    assert!(names.contains(&"/help"));
    assert!(names.contains(&"/dm"));
    assert!(names.contains(&"/status"));
    assert_eq!(names.len(), 8);
}

#[test]
fn test_server_completion_names() {
    let names = server::completion_names();
    assert!(names.contains(&"/help"));
    assert!(names.contains(&"/h"));
    assert!(names.contains(&"/quit"));
    assert!(names.contains(&"/q"));
    assert!(names.contains(&"/ban"));
    assert_eq!(names.len(), 10);
}

#[test]
fn test_help_line_format() {
    let line = client::dm().help_line();
    assert!(line.contains("/dm"));
    assert!(line.contains("<username> <message>"));
    assert!(line.contains("Send direct message"));
}

#[test]
fn test_client_help_text() {
    let help = client::help_text();
    assert!(help[0].contains("Available commands"));
    assert!(help.len() > 1);
}

#[test]
fn test_server_help_text() {
    let help = server::help_text();
    assert!(help[0].contains("Available server commands"));
    assert!(help.len() > 1);
}

#[test]
fn help_line_exact_text() {
    assert_eq!(server::help().help_line(), "/help (/h) - Show this help message");
    assert_eq!(client::dm().help_line(), "/dm <username> <message> - Send direct message");
    assert_eq!(client::help_text()[1], "  /help - Show this help message");
}

#[test]
fn builder_and_matching() {
    let c = Command::new("/x").with_alias("/y").with_usage("<a>").with_description("d");
    assert_eq!(c.all_names(), vec!["/x", "/y"]);
    assert!(c.matches("/x"));
    assert!(c.matches("/y"));
    assert!(!c.matches("/z"));
    assert_eq!(c.help_line(), "/x (/y) <a> - d");
    assert_eq!(Command::new("/q").all_names(), vec!["/q"]);
}

#[test]
fn test_version_is_set() {
    assert!(!VERSION.is_empty());
}

#[test]
fn test_versions_compatible_same() {
    assert!(versions_compatible("0.1.8", "0.1.8"));
}

#[test]
fn test_versions_compatible_different() {
    assert!(!versions_compatible("0.1.7", "0.1.8"));
}

#[test]
fn test_version_mismatch_message() {
    let msg = version_mismatch_message("0.1.7", "0.1.8");
    assert!(msg.contains("0.1.7"));
    assert!(msg.contains("0.1.8"));
    assert!(msg.contains(GITHUB_README_URL));
}

#[test]
fn version_mismatch_message_exact() {
    assert_eq!(
        version_mismatch_message("1", "2"),
        format!("Version mismatch: client v1 != server v2. Please upgrade your binary or Docker image. See: {}", GITHUB_README_URL)
    );
}
