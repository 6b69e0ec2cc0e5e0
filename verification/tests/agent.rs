use std::collections::VecDeque;

use funcode::agent::{Action, Agent, AgentHandleError, Op, OpStep, Reply, TurnOutcome};
use funcode::event::Event;
use funcode::item::{Item, Message, ModelRequest, ResponseEvent};
use funcode::model::{ModelError, TokenUsage, ToolSpec};
use funcode::session::Session;
use funcode::tools::{ToolError, ToolRegistry};
use serde_json::Value;

type Stream = Vec<Result<ResponseEvent, ModelError>>;

fn usage(input: u32, output: u32, total: u32) -> Option<TokenUsage> {
    Some(TokenUsage {
        input_tokens: Some(input),
        output_tokens: Some(output),
        total_tokens: Some(total),
    })
}

fn completed(reason: &str, usage: Option<TokenUsage>) -> Result<ResponseEvent, ModelError> {
    Ok(ResponseEvent::Completed { usage, finish_reason: Some(reason.to_string()) })
}

fn text_stream(text: &str) -> Stream {
    vec![
        Ok(ResponseEvent::TextDelta(text.to_string())),
        Ok(ResponseEvent::TextDone(text.to_string())),
        completed("stop", usage(10, 5, 15)),
    ]
}

fn tool_stream() -> Stream {
    vec![
        Ok(ResponseEvent::ToolCallStart { id: "call_1".to_string(), name: "echo".to_string() }),
        Ok(ResponseEvent::ToolCallReady {
            id: "call_1".to_string(),
            name: "echo".to_string(),
            arguments: r#"{"message":"hello"}"#.to_string(),
        }),
        completed("tool_calls", usage(50, 20, 70)),
    ]
}

fn echo_registry() -> ToolRegistry<()> {
    let mut registry = ToolRegistry::new();
    registry.add(
        ToolSpec::new("echo", "Echoes arguments", serde_json::from_str("{\"type\":\"object\"}").unwrap()),
        (),
    );
    registry
}

/// Acts for an agent until its turn is over. Every request gets the next stream, every tool
/// echoes its arguments, and `cancelled` is the token.
fn act(
    agent: &mut Agent<()>,
    first: Action,
    mut streams: VecDeque<Stream>,
    cancelled: &mut bool,
) -> (TurnOutcome, Vec<Event>, Vec<ModelRequest>) {
    let mut action = first;
    let mut events = Vec::new();
    let mut requests = Vec::new();
    let mut stream = VecDeque::new();
    loop {
        events.extend(agent.take_events());
        let reply = match action {
            Action::RenewCancel => {
                *cancelled = false;
                Reply::Renewed
            }
            Action::CheckCancel => Reply::Cancelled(*cancelled),
            Action::OpenStream(request) => {
                requests.push(request);
                stream = streams.pop_front().unwrap().into_iter().collect();
                Reply::Opened(Ok(()))
            }
            Action::NextEvent => Reply::Next(stream.pop_front()),
            Action::Execute(call) => {
                assert!(agent.registry().get(&call.name).is_some());
                Reply::Returned(Ok(call.arguments))
            }
            Action::Finish(outcome) => return (outcome, events, requests),
        };
        action = agent.advance(reply);
    }
}

fn turn(
    agent: &mut Agent<()>,
    text: &str,
    streams: Vec<Stream>,
) -> (TurnOutcome, Vec<Event>, Vec<ModelRequest>) {
    let first = agent.submit(Op::user_turn(text));
    act(agent, first, streams.into(), &mut false)
}

fn agent(registry: ToolRegistry<()>, max_turns: usize) -> Agent<()> {
    Agent::new(Session::new("system", 100_000), registry, max_turns)
}

#[test]
fn text_only_turn_completes() {
    let mut agent = agent(ToolRegistry::new(), 10);

    let (outcome, events, requests) = turn(&mut agent, "hi", vec![text_stream("Hello world")]);

    assert_eq!(events.len(), 4);
    assert!(events.contains(&Event::TurnStarted));
    assert!(events.contains(&Event::TextDelta("Hello world".to_string())));
    assert!(events.contains(&Event::TextDone("Hello world".to_string())));
    assert!(matches!(&events[3], Event::TurnComplete { usage: Some(_) }));
    assert_eq!(outcome, TurnOutcome::Completed { usage: usage(10, 5, 15) });
    assert_eq!(outcome.clone(), outcome);

    assert_eq!(agent.session().len(), 2);
    assert_eq!(agent.session().total_tokens(), 15);
    assert_eq!(requests.len(), 1);
    assert_eq!(requests[0].items.len(), 2);
    assert_eq!(requests[0].items[0].text_content(), Some("system"));
    assert_eq!(requests[0].items[1].text_content(), Some("hi"));
}

#[test]
fn max_turns_limits_loop() {
    let mut agent = agent(echo_registry(), 2);

    let (outcome, events, requests) =
        turn(&mut agent, "use tool", vec![tool_stream(), tool_stream(), tool_stream()]);

    assert_eq!(requests.len(), 2);
    assert_eq!(outcome, TurnOutcome::MaxTurnsReached { max_turns: 2 });
    assert_eq!(events.last(), Some(&Event::Error("max turns reached (2)".to_string())));
    let items = agent.session().items();
    assert!(items.len() >= 3);
    assert_eq!(items.len(), 5);
    assert_eq!(agent.session().total_tokens(), 140);
}

#[test]
fn tool_execution_and_result_pushed() {
    let mut agent = agent(echo_registry(), 1);

    turn(&mut agent, "use echo", vec![tool_stream()]);

    let msgs = agent.session().items();
    assert_eq!(msgs.len(), 3);

    match &msgs[2] {
        Item::ToolResult(result) => {
            assert_eq!(result.tool_name, "echo");
            assert!(!result.is_error);
            assert!(result.content.contains("hello"));
        }
        _ => panic!("expected ToolResult item"),
    }
}

#[test]
fn bus_events_for_tool_execution() {
    let mut agent = agent(echo_registry(), 1);

    let (_, events, _) = turn(&mut agent, "go", vec![tool_stream()]);

    assert!(events.contains(&Event::TurnStarted));
    assert!(events.contains(&Event::ToolCallBegin {
        id: "call_1".to_string(),
        name: "echo".to_string(),
    }));
    assert!(events.iter().any(|e| matches!(
        e,
        Event::ToolCallEnd { name, is_error: false, .. } if name == "echo"
    )));
}

#[test]
fn mid_stream_interrupt_skips_session_push() {
    let mut agent = agent(ToolRegistry::new(), 10);

    let (outcome, events, _) = turn(
        &mut agent,
        "test interrupt",
        vec![vec![
            Ok(ResponseEvent::TextDelta("partial".to_string())),
            Ok(ResponseEvent::Cancelled),
        ]],
    );

    assert!(events.contains(&Event::TurnStarted));
    assert!(events.iter().any(|e| matches!(e, Event::TurnInterrupted)));
    assert!(!events.iter().any(|e| matches!(e, Event::TurnComplete { .. })));
    assert_eq!(outcome, TurnOutcome::Interrupted);

    assert_eq!(agent.session().len(), 1);
    assert!(matches!(agent.session().items()[0], Item::Message(Message::User(_))));
}

#[test]
fn eof_without_terminal_event_reports_protocol_error() {
    let mut agent = agent(ToolRegistry::new(), 10);

    let (outcome, events, _) = turn(
        &mut agent,
        "test eof",
        vec![vec![Ok(ResponseEvent::TextDelta("partial".to_string()))]],
    );

    assert!(events.contains(&Event::TurnStarted));
    assert!(events.iter().any(|e| matches!(
        e,
        Event::Error(msg) if msg == "stream protocol error: stream ended without Completed event"
    )));
    assert!(!events.iter().any(|e| matches!(e, Event::TurnComplete { .. })));
    assert_eq!(agent.session().len(), 1);
    assert_eq!(
        outcome,
        TurnOutcome::Failed(
            "stream protocol error: stream ended without Completed event".to_string()
        )
    );
}

#[test]
fn buffered_message_done_wins_over_late_cancel() {
    let mut agent = agent(ToolRegistry::new(), 10);

    let (_, events, _) = turn(
        &mut agent,
        "test late cancel",
        vec![vec![
            Ok(ResponseEvent::TextDelta("done".to_string())),
            Ok(ResponseEvent::TextDone("done".to_string())),
            completed("stop", usage(1, 1, 2)),
            Ok(ResponseEvent::Cancelled),
        ]],
    );

    assert!(events.contains(&Event::TurnStarted));
    assert!(events.contains(&Event::TextDelta("done".to_string())));
    assert!(events.contains(&Event::TextDone("done".to_string())));
    assert!(events.iter().any(|e| matches!(e, Event::TurnComplete { .. })));
    assert!(!events.iter().any(|e| matches!(e, Event::TurnInterrupted)));
    assert_eq!(agent.session().len(), 2);
}

#[test]
fn a_cancelled_turn_asks_nothing() {
    let mut agent = agent(ToolRegistry::new(), 10);
    assert!(matches!(agent.submit(Op::user_turn("hi")), Action::RenewCancel));
    assert!(agent.take_events().is_empty());
    assert!(matches!(agent.advance(Reply::Renewed), Action::CheckCancel));
    match agent.advance(Reply::Cancelled(true)) {
        Action::Finish(outcome) => assert_eq!(outcome, TurnOutcome::Interrupted),
        _ => panic!("expected the end"),
    }
    assert_eq!(agent.take_events(), vec![Event::TurnStarted, Event::TurnInterrupted]);
    assert!(agent.take_events().is_empty());

    let (outcome, ..) = turn(&mut agent, "again", vec![text_stream("ok")]);
    assert!(matches!(outcome, TurnOutcome::Completed { .. }));
    assert_eq!(agent.session().len(), 3);
}

#[test]
fn a_request_that_fails_ends_the_turn() {
    let mut agent = agent(ToolRegistry::new(), 10);
    agent.submit(Op::user_turn("hi"));
    agent.advance(Reply::Renewed);
    agent.advance(Reply::Cancelled(false));
    match agent.advance(Reply::Opened(Err(ModelError::OpenAI("no route".to_string())))) {
        Action::Finish(outcome) => {
            assert_eq!(outcome, TurnOutcome::Failed("OpenAI error: no route".to_string()))
        }
        _ => panic!("expected the end"),
    }
    assert_eq!(
        agent.take_events(),
        vec![Event::TurnStarted, Event::Error("OpenAI error: no route".to_string())]
    );
}

#[test]
fn a_broken_stream_ends_the_turn() {
    let mut agent = agent(ToolRegistry::new(), 10);
    let (outcome, events, _) = turn(
        &mut agent,
        "hi",
        vec![vec![Err(ModelError::StreamProtocol("tool call delta index skipped unexpectedly"))]],
    );
    let words = "stream protocol error: tool call delta index skipped unexpectedly";
    assert_eq!(outcome, TurnOutcome::Failed(words.to_string()));
    assert_eq!(events.last(), Some(&Event::Error(words.to_string())));
}

#[test]
fn every_call_gets_its_result_in_order() {
    let ready = |id: &str, name: &str, arguments: &str| {
        Ok(ResponseEvent::ToolCallReady {
            id: id.to_string(),
            name: name.to_string(),
            arguments: arguments.to_string(),
        })
    };
    let mut agent = agent(echo_registry(), 5);
    let (outcome, events, requests) = turn(
        &mut agent,
        "go",
        vec![
            vec![ready("1", "echo", "a"), ready("2", "nope", "b"), completed("tool_calls", None)],
            text_stream("done"),
        ],
    );
    assert_eq!(outcome, TurnOutcome::Completed { usage: usage(10, 5, 15) });
    let results: Vec<(&str, &str, bool)> = agent
        .session()
        .items()
        .iter()
        .filter_map(|item| match item {
            Item::ToolResult(r) => Some((r.tool_call_id.as_str(), r.content.as_str(), r.is_error)),
            _ => None,
        })
        .collect();
    assert_eq!(results, vec![("1", "a", false), ("2", "unknown tool: nope", true)]);
    assert_eq!(requests.len(), 2);
    assert_eq!(requests[1].items.len(), 6);
    assert_eq!(requests[1].tools.len(), 1);
    let ends = events.iter().filter(|e| matches!(e, Event::ToolCallEnd { .. })).count();
    assert_eq!(ends, 2);
    assert_eq!(agent.session().total_tokens(), 15);
}

#[test]
fn a_failing_tool_is_told_to_the_model() {
    let mut agent = agent(echo_registry(), 1);
    let mut action = agent.submit(Op::user_turn("go"));
    let mut stream: VecDeque<_> = tool_stream().into_iter().collect();
    loop {
        let reply = match action {
            Action::RenewCancel => Reply::Renewed,
            Action::CheckCancel => Reply::Cancelled(false),
            Action::OpenStream(_) => Reply::Opened(Ok(())),
            Action::NextEvent => Reply::Next(stream.pop_front()),
            Action::Execute(call) => {
                assert_eq!(call.id, "call_1");
                assert!(agent.registry().get(&call.name).is_some());
                Reply::Returned(Err(ToolError::Arguments("bad".to_string())))
            }
            Action::Finish(_) => break,
        };
        action = agent.advance(reply);
    }
    match &agent.session().items()[2] {
        Item::ToolResult(r) => {
            assert!(r.is_error);
            assert_eq!(r.content, "invalid arguments: bad");
        }
        _ => panic!("expected a result"),
    }
}

#[test]
fn cancel_token_works() {
    let mut agent =
        Agent::new(Session::new("You are helpful.", 100_000), ToolRegistry::new(), 10);
    let mut cancelled = false;
    assert!(!cancelled);

    cancelled = true;
    assert!(cancelled);

    let first = agent.submit(Op::user_turn("hi"));
    let (outcome, events, _) =
        act(&mut agent, first, vec![text_stream("response")].into(), &mut cancelled);

    assert!(!cancelled);
    assert_eq!(events.len(), 4);
    assert_eq!(outcome, TurnOutcome::Completed { usage: usage(10, 5, 15) });
    assert!(events.contains(&Event::TurnStarted));
    assert!(events.iter().any(|e| matches!(e, Event::TurnComplete { .. })));
    assert!(!events.iter().any(|e| matches!(e, Event::TurnInterrupted)));
}

#[test]
fn unknown_tools_are_answered_without_being_run() {
    let ready = |id: &str, name: &str| {
        Ok(ResponseEvent::ToolCallReady {
            id: id.to_string(),
            name: name.to_string(),
            arguments: "{}".to_string(),
        })
    };
    let mut agent = agent(echo_registry(), 1);
    agent.submit(Op::user_turn("go"));
    agent.advance(Reply::Renewed);
    agent.advance(Reply::Cancelled(false));
    agent.advance(Reply::Opened(Ok(())));
    agent.advance(Reply::Next(Some(ready("1", "nope"))));
    agent.advance(Reply::Next(Some(ready("2", "echo"))));
    agent.advance(Reply::Next(Some(ready("3", "neither"))));
    match agent.advance(Reply::Next(Some(completed("tool_calls", None)))) {
        Action::Execute(call) => assert_eq!((call.id.as_str(), call.name.as_str()), ("2", "echo")),
        _ => panic!("expected the tool that is known"),
    }
    match agent.advance(Reply::Returned(Ok("done".to_string()))) {
        Action::Finish(outcome) => {
            assert_eq!(outcome, TurnOutcome::MaxTurnsReached { max_turns: 1 })
        }
        _ => panic!("expected the end"),
    }
    let results: Vec<(&str, &str, bool)> = agent
        .session()
        .items()
        .iter()
        .filter_map(|item| match item {
            Item::ToolResult(r) => Some((r.tool_call_id.as_str(), r.content.as_str(), r.is_error)),
            _ => None,
        })
        .collect();
    assert_eq!(
        results,
        vec![
            ("1", "unknown tool: nope", true),
            ("2", "done", false),
            ("3", "unknown tool: neither", true),
        ]
    );
}

#[test]
fn an_agent_keeps_its_tools() {
    let mut registry = ToolRegistry::new();
    let schema: Value = serde_json::from_str("{\"type\":\"object\"}").unwrap();
    registry.add(ToolSpec::new("one", "First", schema.clone()), 1);
    registry.add(ToolSpec::new("two", "Second", schema), 2);
    let mut agent = Agent::new(Session::new("system", 100), registry, 1);
    agent.submit(Op::user_turn("hi"));
    agent.advance(Reply::Renewed);
    agent.take_events();
    assert_eq!(agent.registry().get("one"), Some(&1));
    assert_eq!(agent.registry().get("two"), Some(&2));
    assert_eq!(agent.registry().get("three"), None);
}

#[test]
fn an_agent_without_turns_answers_at_once() {
    let mut agent = agent(ToolRegistry::new(), 0);
    let (outcome, events, requests) = turn(&mut agent, "hi", vec![]);
    assert_eq!(outcome, TurnOutcome::MaxTurnsReached { max_turns: 0 });
    assert_eq!(
        events,
        vec![Event::TurnStarted, Event::Error("max turns reached (0)".to_string())]
    );
    assert!(requests.is_empty());
}

#[test]
fn the_question_survives_truncation() {
    let mut agent = Agent::new(Session::new("system", 1), echo_registry(), 3);
    let (_, _, requests) = turn(
        &mut agent,
        "what was asked, at some length",
        vec![tool_stream(), text_stream("a long answer to it")],
    );
    for request in &requests {
        assert!(request
            .items
            .iter()
            .any(|i| i.text_content() == Some("what was asked, at some length")));
    }
    assert_eq!(requests.len(), 2);
}

#[test]
fn operations_start_turns_or_stop() {
    let mut agent = agent(ToolRegistry::new(), 1);
    assert!(matches!(agent.next_op(Some(Op::Shutdown)), OpStep::Stop { cancel: true }));
    assert!(matches!(agent.next_op(None), OpStep::Stop { cancel: false }));
    assert!(agent.session().is_empty());
    assert!(matches!(
        agent.next_op(Some(Op::user_turn("hi"))),
        OpStep::Turn(Action::RenewCancel)
    ));
    assert_eq!(agent.session().len(), 1);
    match agent.submit(Op::Shutdown) {
        Action::Finish(outcome) => assert_eq!(outcome, TurnOutcome::Completed { usage: None }),
        _ => panic!("expected the end"),
    }
    assert_eq!(AgentHandleError::Closed.message(), "agent is closed");
    assert_eq!(Op::user_turn("x"), Op::UserTurn("x".to_string()));
}

#[test]
fn a_schema_reaches_the_request() {
    let schema: Value = serde_json::from_str("{\"type\":\"object\"}").unwrap();
    let mut agent = agent(echo_registry(), 1);
    let (_, _, requests) = turn(&mut agent, "hi", vec![text_stream("ok")]);
    assert_eq!(requests[0].tools[0].input_schema, schema);
}
