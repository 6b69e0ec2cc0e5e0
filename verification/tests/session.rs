use funcode::item::{Item, Message};
use funcode::model::{TokenUsage, ToolCall, ToolResult, ToolSpec};
use funcode::session::Session;
use serde_json::Value;

fn parse(text: &str) -> Value {
    serde_json::from_str(text).unwrap()
}

#[test]
fn new_session_is_empty() {
    let session = Session::new("You are helpful.", 100_000);
    assert!(session.is_empty());
    assert_eq!(session.len(), 0);
    assert!(session.items().is_empty());
    assert_eq!(session.total_tokens(), 0);
}

#[test]
fn push_and_read_items() {
    let mut session = Session::new("You are helpful.", 100_000);
    session.push(Item::user("hello"));
    session.push(Item::assistant("hi"));

    assert_eq!(session.len(), 2);
    assert!(matches!(
        session.items()[0],
        Item::Message(Message::User(ref s)) if s == "hello"
    ));
    assert!(matches!(
        session.items()[1],
        Item::Message(Message::Assistant(ref s)) if s == "hi"
    ));
}

#[test]
fn build_request_includes_system_prompt() {
    let session = Session::new("You are a Rust expert.", 100_000);

    let req = session.build_request(&[]);

    assert_eq!(req.items.len(), 1);
    assert!(matches!(
        &req.items[0],
        Item::Message(Message::System(s)) if s == "You are a Rust expert."
    ));
}

#[test]
fn build_request_prepends_system_to_history() {
    let mut session = Session::new("system", 100_000);
    session.push(Item::user("hello"));
    session.push(Item::assistant("hi"));

    let req = session.build_request(&[]);

    assert_eq!(req.items.len(), 3);
    assert!(matches!(&req.items[0], Item::Message(Message::System(_))));
    assert!(matches!(&req.items[1], Item::Message(Message::User(_))));
    assert!(matches!(&req.items[2], Item::Message(Message::Assistant(_))));
}

#[test]
fn build_request_includes_tools() {
    let session = Session::new("system", 100_000);
    let tools = vec![ToolSpec::new(
        "read_file",
        "Read a file",
        parse(r#"{"type": "object", "properties": {"path": {"type": "string"}}}"#),
    )];

    let req = session.build_request(&tools);

    assert_eq!(req.tools.len(), 1);
    assert_eq!(req.tools[0].name, "read_file");
    assert_eq!(req.tools[0], tools[0]);
}

#[test]
fn build_request_empty_tools() {
    let session = Session::new("system", 100_000);
    let req = session.build_request(&[]);
    assert!(req.tools.is_empty());
    assert_eq!(req.temperature, None);
}

#[test]
fn build_request_does_not_mutate_session() {
    let mut session = Session::new("system", 100_000);
    session.push(Item::user("hello"));

    let _ = session.build_request(&[]);
    let _ = session.build_request(&[]);

    assert_eq!(session.len(), 1);
    assert!(matches!(session.items()[0], Item::Message(Message::User(_))));
}

#[test]
fn record_usage_with_total() {
    let mut session = Session::new("system", 100_000);
    session.record_usage(TokenUsage {
        input_tokens: Some(100),
        output_tokens: Some(50),
        total_tokens: Some(150),
    });
    assert_eq!(session.total_tokens(), 150);

    session.record_usage(TokenUsage {
        input_tokens: Some(200),
        output_tokens: Some(80),
        total_tokens: Some(280),
    });
    assert_eq!(session.total_tokens(), 430);
}

#[test]
fn record_usage_without_total_sums_components() {
    let mut session = Session::new("system", 100_000);
    session.record_usage(TokenUsage {
        input_tokens: Some(100),
        output_tokens: Some(50),
        total_tokens: None,
    });
    assert_eq!(session.total_tokens(), 150);
}

#[test]
fn record_usage_saturates() {
    let mut session = Session::new("system", 100_000);
    session.record_usage(TokenUsage {
        input_tokens: None,
        output_tokens: None,
        total_tokens: Some(u32::MAX),
    });
    session.record_usage(TokenUsage {
        input_tokens: Some(1),
        output_tokens: None,
        total_tokens: None,
    });
    assert_eq!(session.total_tokens(), u32::MAX);
}

#[test]
fn truncate_removes_oldest_items() {
    let mut session = Session::new("system", 10);
    for i in 0..20 {
        session.push(Item::user(format!("aaa{i}")));
    }

    session.truncate_to_budget();

    assert!(session.estimate_tokens() <= 10);
}

#[test]
fn truncate_keeps_last_user_item() {
    let mut session = Session::new("system", 10);
    for i in 0..20 {
        session.push(Item::user(format!("msg{i}")));
    }

    let last_text = session
        .items()
        .last()
        .and_then(|item| item.text_content())
        .unwrap()
        .to_string();
    session.truncate_to_budget();

    let final_text = session.items().last().and_then(|item| item.text_content()).unwrap();
    assert_eq!(final_text, last_text);
}

#[test]
fn truncate_noop_when_within_budget() {
    let mut session = Session::new("system", 1_000_000);
    session.push(Item::user("short"));
    session.push(Item::assistant("ok"));

    let len_before = session.len();
    session.truncate_to_budget();
    assert_eq!(session.len(), len_before);
}

#[test]
fn clear_resets_history_but_keeps_prompt() {
    let mut session = Session::new("system prompt", 100_000);
    session.push(Item::user("hello"));
    session.record_usage(TokenUsage {
        input_tokens: Some(100),
        output_tokens: Some(50),
        total_tokens: Some(150),
    });

    session.clear();

    assert!(session.is_empty());
    assert_eq!(session.total_tokens(), 0);

    let req = session.build_request(&[]);
    assert_eq!(req.items.len(), 1);
    assert!(matches!(
        &req.items[0],
        Item::Message(Message::System(s)) if s == "system prompt"
    ));
}

#[test]
fn simulate_agent_turn_with_tool_call() {
    let mut session = Session::new("You are helpful.", 100_000);
    let tools = vec![ToolSpec::new("read_file", "Read a file", parse(r#"{"type": "object"}"#))];

    session.push(Item::user("Read src/main.rs"));

    let req1 = session.build_request(&tools);
    assert_eq!(req1.items[0].text_content(), Some("You are helpful."));
    assert_eq!(req1.items[1].text_content(), Some("Read src/main.rs"));

    session.push(Item::assistant("Let me read that file."));
    session.push(Item::tool_call(ToolCall::new(
        "call_1",
        "read_file",
        r#"{"path":"src/main.rs"}"#,
    )));
    session.record_usage(TokenUsage {
        input_tokens: Some(500),
        output_tokens: Some(100),
        total_tokens: Some(600),
    });

    let result = ToolResult::new("call_1", "read_file", "fn main() {}");
    session.push(Item::tool_result(result));

    let req2 = session.build_request(&tools);
    assert_eq!(req2.items.len(), 5);

    session.push(Item::assistant("The file contains `fn main() {}`."));
    session.record_usage(TokenUsage {
        input_tokens: Some(800),
        output_tokens: Some(200),
        total_tokens: Some(1000),
    });

    assert_eq!(session.len(), 5);
    assert_eq!(session.total_tokens(), 1600);
}

#[test]
fn tokens_are_estimated_by_four_bytes_begun() {
    let mut session = Session::new("the prompt does not count", 100);
    assert_eq!(session.estimate_tokens(), 0);
    session.push(Item::user(""));
    assert_eq!(session.estimate_tokens(), 0);
    session.push(Item::user("a"));
    assert_eq!(session.estimate_tokens(), 1);
    session.push(Item::user("abcd"));
    assert_eq!(session.estimate_tokens(), 2);
    session.push(Item::user("abcde"));
    assert_eq!(session.estimate_tokens(), 4);
    session.push(Item::user("日本"));
    assert_eq!(session.estimate_tokens(), 6);
    session.push(Item::tool_call(ToolCall::new("id", "name", "a long list of arguments")));
    session.push(Item::tool_result(ToolResult::new("id", "name", "a long result")));
    assert_eq!(session.estimate_tokens(), 6);
}

#[test]
fn truncation_never_drops_the_latest_user_message() {
    let mut session = Session::new("system", 2);
    session.push(Item::assistant("an old answer that is long"));
    session.push(Item::user("the question that was asked"));
    session.push(Item::assistant("an answer that is quite long too"));
    session.push(Item::assistant("and one more"));
    session.truncate_to_budget();
    assert_eq!(session.len(), 3);
    assert_eq!(session.items()[0].text_content(), Some("the question that was asked"));

    session.truncate_to_budget();
    assert_eq!(session.len(), 3);
}

#[test]
fn truncation_leaves_the_last_item() {
    let mut session = Session::new("system", 0);
    session.push(Item::assistant("first answer"));
    session.push(Item::assistant("second answer"));
    session.truncate_to_budget();
    assert_eq!(session.len(), 1);
    assert_eq!(session.items()[0].text_content(), Some("second answer"));
}

#[test]
fn truncation_drops_no_more_than_it_must() {
    let mut session = Session::new("system", 3);
    for text in ["aaaa", "bbbb", "cccc", "dddd"] {
        session.push(Item::assistant(text));
    }
    session.truncate_to_budget();
    let left: Vec<&str> = session.items().iter().map(|i| i.text_content().unwrap()).collect();
    assert_eq!(left, vec!["bbbb", "cccc", "dddd"]);
}
