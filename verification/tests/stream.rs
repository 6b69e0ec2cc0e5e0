use funcode::item::{self, items_to_openai_messages, unfold_event, Item};
use funcode::model::{
    AssistantBlock, Message, ModelError, ModelResponse, ResponseEvent, Temperature, TokenUsage,
    ToolCall, ToolResult, ToolSpec,
};
use funcode::openai::{ChatCompletionRequestMessage, CompletionUsage, FinishReason};
use funcode::stream::{
    ensure_partial, maybe_emit_start, ChatChoiceStream, ChatCompletionMessageToolCallChunk,
    ChatCompletionStreamResponseDelta, CreateChatCompletionStreamResponse, FunctionCallStream,
    PartialToolCall, StreamAssembler,
};

fn delta(
    index: u32,
    id: Option<&str>,
    name: Option<&str>,
    arguments: Option<&str>,
) -> ChatCompletionMessageToolCallChunk {
    ChatCompletionMessageToolCallChunk {
        index,
        id: id.map(|s| s.to_string()),
        function: Some(FunctionCallStream {
            name: name.map(|s| s.to_string()),
            arguments: arguments.map(|s| s.to_string()),
        }),
    }
}

fn choice(
    index: u32,
    content: Option<&str>,
    calls: Vec<ChatCompletionMessageToolCallChunk>,
    finish_reason: Option<FinishReason>,
) -> ChatChoiceStream {
    ChatChoiceStream {
        index,
        delta: ChatCompletionStreamResponseDelta {
            content: content.map(|s| s.to_string()),
            tool_calls: if calls.is_empty() { None } else { Some(calls) },
        },
        finish_reason,
    }
}

fn chunk(choices: Vec<ChatChoiceStream>) -> CreateChatCompletionStreamResponse {
    CreateChatCompletionStreamResponse { choices, usage: None }
}

fn start(id: &str, name: &str) -> ResponseEvent {
    ResponseEvent::ToolCallStart { id: id.to_string(), name: name.to_string() }
}

fn done(id: &str, name: &str, arguments: &str) -> ResponseEvent {
    ResponseEvent::ToolCallDone {
        id: id.to_string(),
        name: name.to_string(),
        arguments: arguments.to_string(),
    }
}

fn feed_all(chunks: Vec<CreateChatCompletionStreamResponse>) -> Vec<ResponseEvent> {
    let mut assembler = StreamAssembler::new();
    let mut events = Vec::new();
    for c in &chunks {
        let step = assembler.feed(c);
        assert!(step.error.is_none());
        events.extend(step.events);
    }
    let step = assembler.finish();
    assert!(step.error.is_none());
    events.extend(step.events);
    events
}

#[test]
fn text_streams_in_and_is_put_together() {
    let events = feed_all(vec![
        chunk(vec![choice(0, Some("Hel"), vec![], None)]),
        chunk(vec![choice(0, Some(""), vec![], None)]),
        chunk(vec![choice(0, Some("lo"), vec![], Some(FinishReason::Stop))]),
        CreateChatCompletionStreamResponse {
            choices: vec![],
            usage: Some(CompletionUsage {
                prompt_tokens: 1,
                completion_tokens: 2,
                total_tokens: 3,
            }),
        },
    ]);
    assert_eq!(
        events,
        vec![
            ResponseEvent::TextDelta("Hel".to_string()),
            ResponseEvent::TextDelta("lo".to_string()),
            ResponseEvent::MessageDone(ModelResponse {
                message: Message::assistant_text("Hello"),
                finish_reason: Some("stop".to_string()),
                usage: Some(TokenUsage {
                    input_tokens: Some(1),
                    output_tokens: Some(2),
                    total_tokens: Some(3),
                }),
            }),
        ]
    );
}

#[test]
fn tool_calls_stream_in_by_index() {
    let events = feed_all(vec![
        chunk(vec![choice(0, None, vec![delta(0, Some("a"), Some("read"), Some("{\"p\":"))], None)]),
        chunk(vec![choice(
            0,
            None,
            vec![delta(1, Some("b"), None, None), delta(0, None, None, Some("1}"))],
            None,
        )]),
        chunk(vec![choice(
            0,
            None,
            vec![delta(1, None, Some("write"), Some("{}"))],
            Some(FinishReason::ToolCalls),
        )]),
    ]);
    assert_eq!(
        events,
        vec![
            start("a", "read"),
            start("b", "write"),
            done("a", "read", "{\"p\":1}"),
            done("b", "write", "{}"),
            ResponseEvent::MessageDone(ModelResponse {
                message: Message::assistant(vec![
                    AssistantBlock::tool_call("a", "read", "{\"p\":1}"),
                    AssistantBlock::tool_call("b", "write", "{}"),
                ]),
                finish_reason: Some("tool_calls".to_string()),
                usage: None,
            }),
        ]
    );
}

#[test]
fn only_the_first_answer_counts() {
    let events = feed_all(vec![chunk(vec![
        choice(1, Some("ignored"), vec![delta(5, None, None, None)], Some(FinishReason::Length)),
        choice(0, Some("kept"), vec![], None),
    ])]);
    assert_eq!(events.len(), 2);
    assert_eq!(events[0], ResponseEvent::TextDelta("kept".to_string()));
    match &events[1] {
        ResponseEvent::MessageDone(r) => assert_eq!(r.finish_reason, None),
        _ => panic!("expected the answer"),
    }
}

#[test]
fn an_index_that_skips_is_an_error() {
    let mut assembler = StreamAssembler::new();
    let step = assembler.feed(&chunk(vec![choice(
        0,
        Some("before"),
        vec![
            delta(0, Some("a"), Some("n"), None),
            delta(2, None, None, None),
            delta(1, Some("b"), Some("n"), None),
        ],
        None,
    )]));
    assert_eq!(
        step.events,
        vec![ResponseEvent::TextDelta("before".to_string()), start("a", "n")]
    );
    assert_eq!(
        step.error.unwrap().message(),
        "stream protocol error: tool call delta index skipped unexpectedly"
    );
}

#[test]
fn a_call_without_an_identifier_or_a_name_is_an_error() {
    let mut assembler = StreamAssembler::new();
    assembler.feed(&chunk(vec![choice(
        0,
        None,
        vec![delta(0, Some("a"), Some("n"), None), delta(1, None, Some("n"), None)],
        None,
    )]));
    let step = assembler.finish();
    assert_eq!(step.events, vec![done("a", "n", "")]);
    assert_eq!(
        step.error.unwrap().message(),
        "stream protocol error: tool call id missing at stream end"
    );

    let mut assembler = StreamAssembler::new();
    assembler.feed(&chunk(vec![choice(0, None, vec![delta(0, Some("a"), None, None)], None)]));
    let step = assembler.finish();
    assert!(step.events.is_empty());
    assert!(matches!(
        step.error,
        Some(ModelError::StreamProtocol("tool call name missing at stream end"))
    ));
}

#[test]
fn a_stream_without_anything_is_an_empty_answer() {
    let events = feed_all(vec![]);
    assert_eq!(
        events,
        vec![ResponseEvent::MessageDone(ModelResponse {
            message: Message::assistant(vec![]),
            finish_reason: None,
            usage: None,
        })]
    );
}

#[test]
fn a_call_is_announced_once() {
    let mut partial = PartialToolCall::default();
    let mut events = Vec::new();
    maybe_emit_start(&mut partial, &mut events);
    assert!(events.is_empty());
    partial.id = Some("a".to_string());
    partial.name = Some("n".to_string());
    maybe_emit_start(&mut partial, &mut events);
    maybe_emit_start(&mut partial, &mut events);
    assert_eq!(events, vec![start("a", "n")]);
    assert!(partial.announced_start);
}

#[test]
fn calls_are_opened_in_order() {
    let mut calls = Vec::new();
    assert!(ensure_partial(&mut calls, 1).is_err());
    assert!(calls.is_empty());
    ensure_partial(&mut calls, 0).unwrap().arguments.push_str("x");
    ensure_partial(&mut calls, 1).unwrap();
    assert_eq!(calls.len(), 2);
    assert_eq!(ensure_partial(&mut calls, 0).unwrap().arguments, "x");
}

#[test]
fn the_events_tell_the_whole_text() {
    let events = feed_all(vec![
        chunk(vec![choice(0, Some("a"), vec![], None), choice(0, Some("b"), vec![], None)]),
        chunk(vec![choice(0, Some("c"), vec![delta(0, Some("i"), Some("n"), Some("{}"))], None)]),
    ]);
    let told: String = events
        .iter()
        .filter_map(|e| match e {
            ResponseEvent::TextDelta(t) => Some(t.as_str()),
            _ => None,
        })
        .collect();
    assert_eq!(told, "abc");
    let starts = events.iter().filter(|e| matches!(e, ResponseEvent::ToolCallStart { .. })).count();
    let dones = events.iter().filter(|e| matches!(e, ResponseEvent::ToolCallDone { .. })).count();
    assert_eq!(starts, dones);
}

#[test]
fn an_answer_unfolds_into_items() {
    let events = feed_all(vec![chunk(vec![choice(
        0,
        Some("text"),
        vec![delta(0, Some("i"), Some("n"), Some("{}"))],
        Some(FinishReason::ToolCalls),
    )])]);
    let unfolded: Vec<item::ResponseEvent> = events.into_iter().flat_map(unfold_event).collect();
    assert_eq!(
        unfolded,
        vec![
            item::ResponseEvent::TextDelta("text".to_string()),
            item::ResponseEvent::ToolCallStart { id: "i".to_string(), name: "n".to_string() },
            item::ResponseEvent::TextDone("text".to_string()),
            item::ResponseEvent::ToolCallReady {
                id: "i".to_string(),
                name: "n".to_string(),
                arguments: "{}".to_string(),
            },
            item::ResponseEvent::Completed {
                usage: None,
                finish_reason: Some("tool_calls".to_string()),
            },
        ]
    );
}

#[test]
fn items_fold_into_messages() {
    let items = vec![
        Item::message(item::Message::system("s")),
        Item::user("u"),
        Item::assistant("let me see"),
        Item::tool_call(ToolCall::new("1", "a", "x")),
        Item::tool_call(ToolCall::new("2", "b", "y")),
        Item::tool_result(ToolResult::new("1", "a", "r1")),
        Item::tool_result(ToolResult::error("2", "b", "r2")),
        Item::tool_call(ToolCall::new("3", "c", "z")),
        Item::user("and?"),
    ];
    let messages = items_to_openai_messages(&items);
    assert_eq!(messages.len(), 7);
    assert_eq!(messages[0], ChatCompletionRequestMessage::System("s".to_string()));
    assert_eq!(messages[1], ChatCompletionRequestMessage::User("u".to_string()));
    match &messages[2] {
        ChatCompletionRequestMessage::Assistant(m) => {
            assert_eq!(m.content.as_deref(), Some("let me see"));
            let ids: Vec<&str> =
                m.tool_calls.as_ref().unwrap().iter().map(|c| c.id.as_str()).collect();
            assert_eq!(ids, vec!["1", "2"]);
        }
        _ => panic!("expected assistant message"),
    }
    match &messages[4] {
        ChatCompletionRequestMessage::Tool(m) => {
            assert_eq!(m.tool_call_id, "2");
            assert_eq!(m.content, "r2");
        }
        _ => panic!("expected tool message"),
    }
    match &messages[5] {
        ChatCompletionRequestMessage::Assistant(m) => {
            assert_eq!(m.content, None);
            assert_eq!(m.tool_calls.as_ref().unwrap().len(), 1);
        }
        _ => panic!("expected assistant message"),
    }
    assert_eq!(messages[6], ChatCompletionRequestMessage::User("and?".to_string()));
}

#[test]
fn a_request_of_items_is_written_out() {
    let mut request = item::ModelRequest {
        items: vec![Item::user("u")],
        tools: vec![],
        temperature: Some(Temperature { bits: 1.0f32.to_bits() }),
    };
    let wire = item::build_request("m", request);
    assert_eq!(wire.model, "m");
    assert_eq!(wire.messages, vec![ChatCompletionRequestMessage::User("u".to_string())]);
    assert_eq!(wire.tools, None);
    assert_eq!(wire.temperature, Some(Temperature { bits: 0x3f80_0000 }));
    assert_eq!(wire.stream, None);

    request = item::ModelRequest {
        items: vec![],
        tools: vec![ToolSpec::new("t", "d", serde_json::from_str("{}").unwrap())],
        temperature: None,
    };
    let tools = item::build_request("m", request).tools.unwrap();
    assert_eq!(tools.len(), 1);
    assert_eq!(tools[0].name, "t");
    assert_eq!(tools[0].description.as_deref(), Some("d"));
}

#[test]
fn items_have_text_or_none() {
    assert_eq!(Item::user("u").text_content(), Some("u"));
    assert!(Item::user("u").is_user());
    assert!(!Item::assistant("a").is_user());
    assert_eq!(Item::tool_call(ToolCall::new("1", "a", "x")).text_content(), None);
    assert_eq!(Item::tool_result(ToolResult::new("1", "a", "x")).text_content(), None);
    let item = Item::message(item::Message::assistant("x"));
    assert_eq!(item.clone(), item);
}
