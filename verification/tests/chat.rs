use funcode::chat::{RoundStep, Session, SessionConfig, SessionEvent, SessionState, ToolRound};
use funcode::model::{Temperature, ToolSpec};
use funcode::provider::{
    ChatCompletionResponse, ChatMessage, Choice, FunctionCall, ProviderError, Role, ToolCall,
    ToolType,
};
use funcode::toolkit::{
    AbortEvent, PermissionRequest, PermissionResponse, Progress, ToolResult,
};
use funcode::tools::ToolRegistry;
use serde_json::Value;

fn create_test_session() -> Session<()> {
    Session::new(SessionConfig::default(), ToolRegistry::new())
}

fn with_tool(name: &str) -> Session<()> {
    let mut registry = ToolRegistry::new();
    registry.add(ToolSpec::new(name, "a tool", serde_json::from_str("{}").unwrap()), ());
    Session::with_id(7, SessionConfig::default(), registry)
}

fn call(id: &str, name: &str, arguments: &str) -> ToolCall {
    ToolCall {
        id: id.to_string(),
        tool_type: ToolType::Function,
        function: FunctionCall { name: name.to_string(), arguments: arguments.to_string() },
    }
}

fn response(messages: Vec<ChatMessage>) -> ChatCompletionResponse {
    ChatCompletionResponse {
        id: "chatcmpl-test".to_string(),
        object: "chat.completion".to_string(),
        created: 1234567890,
        model: "gpt-4o".to_string(),
        choices: messages
            .into_iter()
            .map(|message| Choice { index: 0, message, finish_reason: None })
            .collect(),
        usage: None,
    }
}

#[test]
fn test_session_creation() {
    let session = create_test_session();
    assert_eq!(session.state(), SessionState::Idle);
}

#[test]
fn test_session_state_change() {
    let mut session = create_test_session();
    session.set_state(SessionState::Running);
    assert_eq!(session.state(), SessionState::Running);
}

#[test]
fn test_session_add_message() {
    let mut session = create_test_session();
    session.add_message(ChatMessage::user("Hello"));
    let messages = session.messages();
    assert_eq!(messages.len(), 1);
}

#[test]
fn test_session_abort() {
    let mut session = create_test_session();
    session.abort("Test abort");
    assert_eq!(session.state(), SessionState::Aborted);
}

#[test]
fn test_session_subscribe() {
    let mut session = create_test_session();

    session.set_state(SessionState::Running);

    assert_eq!(
        session.take_events(),
        vec![SessionEvent::StateChanged { state: SessionState::Running }]
    );
}

#[test]
fn identifiers_are_random_and_marked() {
    let one = create_test_session().id();
    let two = create_test_session().id();
    assert_ne!(one, two);
    for id in [one, two] {
        let written = uuid::Uuid::from_u128(id).to_string();
        assert_eq!(written.as_bytes()[14], b'4');
        assert!(b"89ab".contains(&written.as_bytes()[19]));
    }
}

#[test]
fn an_abort_names_the_session() {
    let id: u128 = 0x0123_4567_89ab_cdef_0123_4567_89ab_cdef;
    let mut session: Session<()> =
        Session::with_id(id, SessionConfig::default(), ToolRegistry::new());
    assert_eq!(session.id(), id);
    session.abort("enough");
    assert_eq!(
        session.take_aborts(),
        vec![AbortEvent::for_session("01234567-89ab-cdef-0123-456789abcdef", "enough")]
    );
    assert!(session.take_aborts().is_empty());
    assert_eq!(
        session.take_events(),
        vec![
            SessionEvent::StateChanged { state: SessionState::Aborted },
            SessionEvent::Aborted { reason: "enough".to_string() },
        ]
    );
}

#[test]
fn a_system_prompt_comes_first() {
    let config = SessionConfig {
        system_prompt: Some("Be brief.".to_string()),
        ..SessionConfig::default()
    };
    assert_eq!(config.clone(), config);
    let mut session: Session<()> = Session::with_id(1, config, ToolRegistry::new());
    assert_eq!(session.messages(), vec![ChatMessage::system("Be brief.")]);
    assert!(session.take_events().is_empty());

    session.send_user_message("Hello");
    assert_eq!(session.messages().len(), 2);
    assert_eq!(
        session.take_events(),
        vec![SessionEvent::MessageAdded {
            role: "User".to_string(),
            content: "Hello".to_string(),
        }]
    );
}

#[test]
fn a_completion_asks_and_keeps_the_first_answer() {
    let mut session = with_tool("echo");
    session.send_user_message("Hi");
    session.take_events();
    let request = session.complete();
    assert_eq!(session.state(), SessionState::Running);
    assert_eq!(request.model, "gpt-4o");
    assert_eq!(request.messages.len(), 1);
    assert_eq!(request.tools.as_ref().unwrap().len(), 1);
    assert_eq!(request.tools.as_ref().unwrap()[0].function.name, "echo");
    assert_eq!((request.max_tokens, request.temperature, request.stream), (None, None, None));

    let reply = response(vec![ChatMessage::assistant("first"), ChatMessage::assistant("second")]);
    let handed_on = session.completed(Ok(reply.clone()));
    assert_eq!(handed_on, Ok(reply));
    assert_eq!(session.state(), SessionState::Completed);
    assert_eq!(session.messages().last(), Some(&ChatMessage::assistant("first")));
    assert_eq!(
        session.take_events(),
        vec![
            SessionEvent::StateChanged { state: SessionState::Running },
            SessionEvent::MessageAdded {
                role: "Assistant".to_string(),
                content: "first".to_string(),
            },
            SessionEvent::StateChanged { state: SessionState::Completed },
        ]
    );
}

#[test]
fn a_completion_carries_the_settings() {
    let config = SessionConfig {
        model: "m".to_string(),
        system_prompt: None,
        max_tokens: Some(9),
        temperature: Some(Temperature { bits: 0.5f32.to_bits() }),
    };
    let mut session: Session<()> = Session::with_id(1, config, ToolRegistry::new());
    let request = session.complete();
    assert_eq!(request.model, "m");
    assert_eq!(request.max_tokens, Some(9));
    assert_eq!(request.temperature.map(|t| f32::from_bits(t.bits)), Some(0.5));
    assert_eq!(request.tools.map(|t| t.len()), Some(0));
}

#[test]
fn a_completion_that_fails_leaves_the_session_running() {
    let mut session = create_test_session();
    session.complete();
    let error = ProviderError { message: "API error (500): x".to_string() };
    let handed_on = session.completed(Err(ProviderError { message: error.message.clone() }));
    assert_eq!(handed_on, Err(error));
    assert_eq!(session.state(), SessionState::Running);

    session.completed(Ok(response(vec![]))).unwrap();
    assert_eq!(session.state(), SessionState::Completed);
    assert!(session.messages().is_empty());
}

#[test]
fn a_message_without_text_is_told_without_text() {
    let mut session = create_test_session();
    session.add_message(ChatMessage {
        role: Role::Tool,
        content: None,
        name: None,
        tool_calls: None,
        tool_call_id: Some("1".to_string()),
    });
    assert_eq!(
        session.take_events(),
        vec![SessionEvent::MessageAdded { role: "Tool".to_string(), content: "".to_string() }]
    );
}

#[test]
fn a_round_of_calls_runs_the_tools_that_are_there() {
    let mut session = with_tool("echo");
    let mut round = ToolRound::new(vec![
        call("1", "nope", "{}"),
        call("2", "echo", r#"{"message":"hello","n":[1]}"#),
        call("3", "echo", "{}"),
    ]);
    match session.handle_tool_calls(&mut round) {
        RoundStep::Execute { tool_name, args } => {
            assert_eq!(tool_name, "echo");
            let expected: Value = serde_json::from_str(r#"{"message":"hello","n":[1]}"#).unwrap();
            assert_eq!(args, expected);
        }
        _ => panic!("expected to run a tool"),
    }
    assert!(matches!(
        session.tool_returned(&mut round, Ok(ToolResult::success("hello"))),
        RoundStep::Execute { .. }
    ));
    assert!(matches!(
        session.tool_returned(&mut round, Ok(ToolResult::failure("no"))),
        RoundStep::Done
    ));
    assert_eq!(
        round.into_results(),
        vec![
            ToolResult::failure("Unknown tool: nope"),
            ToolResult::success("hello"),
            ToolResult::failure("no"),
        ]
    );
    let events = session.take_events();
    assert_eq!(events.len(), 5);
    assert!(matches!(&events[0], SessionEvent::ToolCalled { tool_name, .. } if tool_name == "nope"));
    assert!(matches!(&events[1], SessionEvent::ToolCalled { tool_name, .. } if tool_name == "echo"));
    assert_eq!(
        events[2],
        SessionEvent::ToolResult {
            tool_name: "echo".to_string(),
            result: ToolResult::success("hello"),
        }
    );
}

#[test]
fn arguments_that_cannot_be_read_end_the_round() {
    let mut session = with_tool("echo");
    let mut round = ToolRound::new(vec![call("1", "echo", "not json"), call("2", "echo", "{}")]);
    match session.handle_tool_calls(&mut round) {
        RoundStep::Failed(why) => assert!(!why.is_empty()),
        _ => panic!("expected a failure"),
    }
    assert!(round.into_results().is_empty());
    assert!(session.take_events().is_empty());

    let mut round = ToolRound::new(vec![call("1", "echo", "{}")]);
    let step = session.begin_call(&mut round, Err("unreadable".to_string()));
    assert!(matches!(step, Some(RoundStep::Failed(why)) if why == "unreadable"));
}

#[test]
fn a_tool_without_a_result_ends_the_round() {
    let mut session = with_tool("echo");
    let mut round = ToolRound::new(vec![call("1", "echo", "{}"), call("2", "echo", "{}")]);
    session.handle_tool_calls(&mut round);
    match session.tool_returned(&mut round, Err("crashed".to_string())) {
        RoundStep::Failed(why) => assert_eq!(why, "crashed"),
        _ => panic!("expected a failure"),
    }
    let mut none = ToolRound::new(vec![]);
    assert!(matches!(session.handle_tool_calls(&mut none), RoundStep::Done));
}

#[test]
fn permissions_are_asked_for_and_answered() {
    let mut session = create_test_session();
    assert_eq!(session.respond_to_permission(true, None), None);

    let request = PermissionRequest::new("bash", "Execute: ls");
    session.take_events();
    session.request_permission(&request);
    assert_eq!(session.state(), SessionState::WaitingForPermission);
    let answer = session.respond_to_permission(true, Some("sure".to_string()));
    assert_eq!(answer, Some(PermissionResponse::granted()));
    assert_eq!(session.respond_to_permission(false, None), None);
    let response = session.permission_received(answer);
    assert!(response.granted);
    assert_eq!(session.state(), SessionState::Running);
    assert_eq!(
        session.take_events(),
        vec![
            SessionEvent::StateChanged { state: SessionState::WaitingForPermission },
            SessionEvent::PermissionRequested { request },
            SessionEvent::PermissionGranted { granted: true },
            SessionEvent::PermissionGranted { granted: false },
            SessionEvent::StateChanged { state: SessionState::Running },
        ]
    );
}

#[test]
fn refusals_have_reasons() {
    let mut session = create_test_session();
    session.request_permission(&PermissionRequest::new("t", "a"));
    assert_eq!(
        session.respond_to_permission(false, Some("not now".to_string())),
        Some(PermissionResponse::denied("not now"))
    );
    session.request_permission(&PermissionRequest::new("t", "a"));
    assert_eq!(
        session.respond_to_permission(false, None),
        Some(PermissionResponse::denied("Permission denied"))
    );
    assert_eq!(
        session.permission_received(None),
        PermissionResponse::denied("Permission request cancelled")
    );
}

#[test]
fn a_round_leaves_the_state_alone() {
    let mut session = with_tool("echo");
    session.set_state(SessionState::Running);
    let mut round = ToolRound::new(vec![call("1", "echo", "{}"), call("2", "nope", "{}")]);
    session.handle_tool_calls(&mut round);
    session.tool_returned(&mut round, Ok(ToolResult::success("x")));
    assert_eq!(session.state(), SessionState::Running);
    let told: Vec<SessionState> = session
        .take_events()
        .into_iter()
        .filter_map(|e| match e {
            SessionEvent::StateChanged { state } => Some(state),
            _ => None,
        })
        .collect();
    assert_eq!(told, vec![SessionState::Running]);
}

#[test]
fn progress_is_told() {
    let mut session = create_test_session();
    session.report_progress(Progress::new("half way").with_percentage(50));
    assert_eq!(
        session.take_events(),
        vec![SessionEvent::Progress { message: "half way".to_string() }]
    );
    assert!(session.tool_registry().is_empty());
}

#[test]
fn a_session_keeps_its_tools() {
    let mut registry = ToolRegistry::new();
    for (name, tool) in [("one", 1), ("two", 2)] {
        registry.add(ToolSpec::new(name, "a tool", serde_json::from_str("{}").unwrap()), tool);
    }
    let mut session = Session::with_id(7, SessionConfig::default(), registry);
    session.set_state(SessionState::Running);
    session.abort("enough");
    assert_eq!(session.tool_registry().get("one"), Some(&1));
    assert_eq!(session.tool_registry().get("two"), Some(&2));
    assert_eq!(session.tool_registry().get("three"), None);
}

#[test]
fn sessions_get_identifiers_of_their_own() {
    let a = create_test_session();
    let b = create_test_session();
    assert_ne!(a.id(), b.id());
}
