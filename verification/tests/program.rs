use funcode::app::{greeting, AppError};
use funcode::bus::{Delivery, ReceiveResult};
use funcode::config::{load, Config, ConfigError};
use funcode::event::Event;
use funcode::fs::{FileEntry, FileSystem, Found, FsError};
use funcode::model::ModelError;

fn some(s: &str) -> Option<String> {
    Some(s.to_string())
}

#[test]
fn a_configuration_needs_all_settings() {
    assert_eq!(
        load(some("k"), some("u"), some("m")),
        Ok(Config { api_key: "k".to_string(), base_url: "u".to_string(), model: "m".to_string() })
    );
    assert_eq!(load(None, None, None), Err(ConfigError::ApiKeyNotFound));
    assert_eq!(load(some("k"), None, None), Err(ConfigError::BaseUrlNotFound));
    assert_eq!(load(some("k"), some("u"), None), Err(ConfigError::ModelNotFound));
    assert_eq!(ConfigError::ApiKeyNotFound.message(), "OPENAI_API_KEY not found");
    assert_eq!(ConfigError::BaseUrlNotFound.message(), "OPENAI_BASE_URL not found");
    assert_eq!(ConfigError::ModelNotFound.message(), "OPENAI_MODEL not found");
}

#[test]
fn the_program_says_why_it_ended() {
    assert_eq!(
        AppError::Config(ConfigError::ModelNotFound).message(),
        "config error: OPENAI_MODEL not found"
    );
    assert_eq!(
        AppError::Model(ModelError::EmptyModelName).message(),
        "model error: model name cannot be empty"
    );
    assert_eq!(AppError::Terminal("no tty".to_string()).message(), "terminal error: no tty");
    assert_eq!(greeting("Ada"), "Hello, Ada!");
}

#[test]
fn only_files_are_read() {
    assert_eq!(FileSystem::readable("/f", Found::File), Ok(()));
    let e = FileSystem::readable("/d", Found::Other).unwrap_err();
    assert_eq!(e, FsError::NotAFile("/d".to_string()));
    assert_eq!(e.message(), "not a file: /d");
    let e = FileSystem::readable("/n", Found::Nothing).unwrap_err();
    assert_eq!(e, FsError::NotFound("/n".to_string()));
    assert_eq!(e.message(), "file not found: /n");
    let e = FileSystem::readable("/x", Found::Failed("denied".to_string())).unwrap_err();
    assert_eq!(e.message(), "denied");
    assert!(FileSystem::is_present(&Found::File));
    assert!(FileSystem::is_present(&Found::Other));
    assert!(!FileSystem::is_present(&Found::Nothing));
    assert!(!FileSystem::is_present(&Found::Failed("x".to_string())));
}

#[test]
fn entries_are_plain_data() {
    let entry = FileEntry {
        name: "a.txt".to_string(),
        path: "/tmp/a.txt".to_string(),
        is_dir: false,
        len: 3,
    };
    assert_eq!(entry.clone(), entry);
}

#[test]
fn subscribers_receive_events_until_the_bus_is_gone() {
    let event = Event::TextDelta("x".to_string());
    let received = ReceiveResult::of_delivery(Delivery::Event(event.clone()));
    assert_eq!(received, Some(ReceiveResult::Event(event)));
    assert_eq!(received.clone(), received);
    assert_eq!(
        ReceiveResult::of_delivery(Delivery::Lagged(2)),
        Some(ReceiveResult::Lagged(2))
    );
    assert_eq!(ReceiveResult::of_delivery(Delivery::Closed), None);
}
