use funcode::model::{
    AssistantBlock, Message, Model, ModelError, ModelRequest, ModelResponse, OpenAIProvider,
    ResponseEvent, Temperature, TokenUsage, ToolCall, ToolResult, ToolSpec,
};
use funcode::openai::{
    build_request, finish_reason_to_string, join_text_parts, message_to_openai, parse_response,
    ChatChoice, ChatCompletionMessageToolCall, ChatCompletionMessageToolCalls,
    ChatCompletionRequestMessage, ChatCompletionResponseMessage, CompletionUsage,
    CreateChatCompletionResponse, FinishReason,
};
use serde_json::Value;

fn parse(text: &str) -> Value {
    serde_json::from_str(text).unwrap()
}

#[test]
fn create_text_messages() {
    let system = Message::system("You are helpful.");
    let user = Message::user("hello");
    let assistant = Message::assistant_text("hi");

    assert!(matches!(system, Message::System(ref s) if s == "You are helpful."));
    assert!(matches!(user, Message::User(ref s) if s == "hello"));
    assert!(matches!(assistant, Message::Assistant(_)));
    assert_eq!(assistant.text_content(), Some("hi"));
}

#[test]
fn assistant_with_text_and_tool_call() {
    let message = Message::assistant(vec![
        AssistantBlock::text("let me check"),
        AssistantBlock::tool_call("call_1", "read_file", r#"{"path":"src/main.rs"}"#),
        AssistantBlock::text("second"),
    ]);

    match &message {
        Message::Assistant(blocks) => {
            assert_eq!(blocks.len(), 3);
            assert!(matches!(&blocks[0], AssistantBlock::Text(t) if t == "let me check"));
            assert!(matches!(&blocks[1], AssistantBlock::ToolCall(_)));
            assert!(matches!(&blocks[2], AssistantBlock::Text(t) if t == "second"));
        }
        _ => panic!("expected assistant message"),
    }
}

#[test]
fn create_tool_message() {
    let call = ToolCall::new("call_1", "read_file", r#"{"path":"src/main.rs"}"#);
    let result = ToolResult::new("call_1", "read_file", "fn main() {}");
    let message = Message::tool(call, result);

    match &message {
        Message::Tool { call, result } => {
            assert_eq!(call.id, "call_1");
            assert_eq!(call.name, "read_file");
            assert_eq!(result.content, "fn main() {}");
            assert!(!result.is_error);
        }
        _ => panic!("expected tool message"),
    }
}

#[test]
fn the_first_text_is_the_content() {
    let calls_only = Message::assistant(vec![AssistantBlock::tool_call("1", "t", "{}")]);
    assert_eq!(calls_only.text_content(), None);
    let mixed = Message::assistant(vec![
        AssistantBlock::tool_call("1", "t", "{}"),
        AssistantBlock::text("first"),
        AssistantBlock::text("second"),
    ]);
    assert_eq!(mixed.text_content(), Some("first"));
    let tool = Message::tool(ToolCall::new("1", "t", "{}"), ToolResult::error("1", "t", "no"));
    assert_eq!(tool.text_content(), None);
    assert_eq!(tool.clone(), tool);
    assert_eq!(Message::system("s").text_content(), Some("s"));
}

#[test]
fn build_request_with_tool_calls() {
    let request = ModelRequest::new(vec![
        Message::system("You are helpful."),
        Message::user("hello"),
        Message::assistant(vec![
            AssistantBlock::text("let me check"),
            AssistantBlock::tool_call("call_1", "read_file", r#"{"path":"src/main.rs"}"#),
        ]),
        Message::tool(
            ToolCall::new("call_1", "read_file", r#"{"path":"src/main.rs"}"#),
            ToolResult::new("call_1", "read_file", "file content"),
        ),
    ])
    .with_tools(vec![ToolSpec::new(
        "read_file",
        "Read a file from the workspace",
        parse(r#"{"type": "object", "properties": {"path": {"type": "string"}}, "required": ["path"]}"#),
    )])
    .with_temperature(Temperature { bits: 0.2f32.to_bits() });

    let payload = build_request("gpt-4o-mini", request).expect("request should build");

    assert_eq!(payload.model, "gpt-4o-mini");
    assert_eq!(payload.messages.len(), 4);
    assert!(payload.tools.is_some());
    assert_eq!(payload.tools.as_ref().map(Vec::len), Some(1));
    assert_eq!(payload.temperature.map(|t| f32::from_bits(t.bits)), Some(0.2f32));

    match &payload.messages[2] {
        ChatCompletionRequestMessage::Assistant(msg) => {
            assert!(msg.tool_calls.is_some());
            assert_eq!(msg.tool_calls.as_ref().map(Vec::len), Some(1));
        }
        _ => panic!("expected assistant message"),
    }

    match &payload.messages[3] {
        ChatCompletionRequestMessage::Tool(msg) => {
            assert_eq!(msg.tool_call_id, "call_1");
        }
        _ => panic!("expected tool message"),
    }
}

#[test]
fn a_request_without_tools_has_no_list_of_tools() {
    let payload = build_request("m", ModelRequest::new(vec![])).unwrap();
    assert!(payload.tools.is_none());
    assert!(payload.messages.is_empty());
    assert_eq!(payload.stream, None);
}

#[test]
fn tools_keep_their_schema() {
    let schema = parse(r#"{"type": "object", "n": [1, -2, 0.5, null, true]}"#);
    let request = ModelRequest::new(vec![])
        .with_tools(vec![ToolSpec::new("a", "first", schema.clone()), ToolSpec::new("b", "", parse("{}"))]);
    let tools = build_request("m", request).unwrap().tools.unwrap();
    assert_eq!(tools[0].name, "a");
    assert_eq!(tools[0].description.as_deref(), Some("first"));
    assert_eq!(tools[0].parameters, Some(schema));
    assert_eq!(tools[0].strict, None);
    assert_eq!(tools[1].name, "b");
}

#[test]
fn texts_are_joined_by_an_empty_line() {
    assert_eq!(join_text_parts(vec![]), None);
    assert_eq!(join_text_parts(vec!["a".to_string()]), Some("a".to_string()));
    assert_eq!(
        join_text_parts(vec!["a".to_string(), "".to_string(), "b".to_string()]),
        Some("a\n\n\n\nb".to_string())
    );
    let message = Message::assistant(vec![
        AssistantBlock::text("one"),
        AssistantBlock::tool_call("c", "t", "{}"),
        AssistantBlock::text("two"),
    ]);
    match message_to_openai(&message).unwrap() {
        ChatCompletionRequestMessage::Assistant(m) => {
            assert_eq!(m.content.as_deref(), Some("one\n\ntwo"));
            assert_eq!(m.tool_calls.unwrap()[0].arguments, "{}");
        }
        _ => panic!("expected assistant message"),
    }
}

fn function(id: &str, name: &str, arguments: &str) -> ChatCompletionMessageToolCalls {
    ChatCompletionMessageToolCalls::Function(ChatCompletionMessageToolCall {
        id: id.to_string(),
        name: name.to_string(),
        arguments: arguments.to_string(),
    })
}

#[test]
fn parse_response_with_text_and_tool_call() {
    let response = CreateChatCompletionResponse {
        choices: vec![ChatChoice {
            message: ChatCompletionResponseMessage {
                content: Some("I will inspect the file.".to_string()),
                tool_calls: Some(vec![function("call_1", "read_file", r#"{"path":"src/main.rs"}"#)]),
            },
            finish_reason: Some(FinishReason::ToolCalls),
        }],
        usage: Some(CompletionUsage { prompt_tokens: 10, completion_tokens: 5, total_tokens: 15 }),
    };

    let parsed = parse_response(response).expect("response should parse");

    assert_eq!(parsed.finish_reason.as_deref(), Some("tool_calls"));
    assert_eq!(parsed.usage.unwrap().total_tokens, Some(15));

    match &parsed.message {
        Message::Assistant(blocks) => {
            assert_eq!(blocks.len(), 2);
            assert!(matches!(&blocks[0], AssistantBlock::Text(t) if t == "I will inspect the file."));
            match &blocks[1] {
                AssistantBlock::ToolCall(call) => {
                    assert_eq!(call.id, "call_1");
                    assert_eq!(call.name, "read_file");
                }
                _ => panic!("expected tool call"),
            }
        }
        _ => panic!("expected assistant message"),
    }
}

#[test]
fn a_response_without_choices_is_an_error() {
    let response = CreateChatCompletionResponse { choices: vec![], usage: None };
    let e = parse_response(response).unwrap_err();
    assert!(matches!(e, ModelError::EmptyChoices));
    assert_eq!(e.message(), "model returned no choices");
}

#[test]
fn a_custom_tool_call_is_an_error() {
    let response = CreateChatCompletionResponse {
        choices: vec![ChatChoice {
            message: ChatCompletionResponseMessage {
                content: None,
                tool_calls: Some(vec![function("1", "t", "{}"), ChatCompletionMessageToolCalls::Custom]),
            },
            finish_reason: None,
        }],
        usage: None,
    };
    let e = parse_response(response).unwrap_err();
    assert_eq!(e.message(), "invalid message shape: custom tool calls are not supported");
}

#[test]
fn only_the_first_choice_is_read_and_empty_text_is_no_block() {
    let choice = |content: &str, calls: Option<Vec<ChatCompletionMessageToolCalls>>| ChatChoice {
        message: ChatCompletionResponseMessage { content: Some(content.to_string()), tool_calls: calls },
        finish_reason: None,
    };
    let response = CreateChatCompletionResponse {
        choices: vec![
            choice("", Some(vec![function("1", "t", "{}")])),
            choice("other", Some(vec![ChatCompletionMessageToolCalls::Custom])),
        ],
        usage: None,
    };
    let parsed = parse_response(response).unwrap();
    assert_eq!(
        parsed.message,
        Message::assistant(vec![AssistantBlock::tool_call("1", "t", "{}")])
    );
    assert_eq!(parsed.usage, None);
    assert_eq!(parsed.finish_reason, None);
}

#[test]
fn an_answer_goes_back_as_it_came() {
    let response = CreateChatCompletionResponse {
        choices: vec![ChatChoice {
            message: ChatCompletionResponseMessage {
                content: Some("text".to_string()),
                tool_calls: Some(vec![function("1", "a", "x"), function("2", "b", "y")]),
            },
            finish_reason: Some(FinishReason::Stop),
        }],
        usage: None,
    };
    let message = parse_response(response).unwrap().message;
    match message_to_openai(&message).unwrap() {
        ChatCompletionRequestMessage::Assistant(m) => {
            assert_eq!(m.content.as_deref(), Some("text"));
            let calls = m.tool_calls.unwrap();
            assert_eq!(calls.len(), 2);
            assert_eq!((calls[0].id.as_str(), calls[0].name.as_str(), calls[0].arguments.as_str()), ("1", "a", "x"));
            assert_eq!((calls[1].id.as_str(), calls[1].name.as_str(), calls[1].arguments.as_str()), ("2", "b", "y"));
        }
        _ => panic!("expected assistant message"),
    }
}

#[test]
fn finish_reasons_have_words() {
    assert_eq!(finish_reason_to_string(FinishReason::Stop), "stop");
    assert_eq!(finish_reason_to_string(FinishReason::Length), "length");
    assert_eq!(finish_reason_to_string(FinishReason::ToolCalls), "tool_calls");
    assert_eq!(finish_reason_to_string(FinishReason::ContentFilter), "content_filter");
    assert_eq!(finish_reason_to_string(FinishReason::FunctionCall), "function_call");
}

#[test]
fn a_model_needs_a_name() {
    let model = Model::new(1, "test-model").expect("model should build");
    assert_eq!(model.name(), "test-model");
    assert_eq!(*model.provider(), 1);
    for blank in ["", "   ", "\t\n", "\u{3000}"] {
        let e = Model::new(1, blank).err().unwrap();
        assert!(matches!(e, ModelError::EmptyModelName));
        assert_eq!(e.message(), "model name cannot be empty");
    }
}

#[test]
fn a_provider_needs_a_key() {
    let e = OpenAIProvider::new("  ", None).unwrap_err();
    assert!(matches!(e, ModelError::EmptyApiKey));
    assert_eq!(e.message(), "OpenAI API key cannot be empty");

    let p = OpenAIProvider::new("key", Some("  http://localhost/v1 \n".to_string())).unwrap();
    assert_eq!(p.api_key(), "key");
    assert_eq!(p.api_base(), Some("http://localhost/v1"));
    assert_eq!(p.clone().api_base(), Some("http://localhost/v1"));
    assert_eq!(OpenAIProvider::new("key", Some(" \t".to_string())).unwrap().api_base(), None);
    assert_eq!(OpenAIProvider::new(" key ", None).unwrap().api_key(), " key ");
}

#[test]
fn errors_have_words() {
    assert_eq!(ModelError::StreamProtocol("x").message(), "stream protocol error: x");
    assert_eq!(ModelError::OpenAI("timeout".to_string()).message(), "OpenAI error: timeout");
}

#[test]
fn tokens_are_the_total_or_the_sum() {
    let usage = |i, o, t| TokenUsage { input_tokens: i, output_tokens: o, total_tokens: t };
    assert_eq!(usage(Some(1), Some(2), Some(9)).used(), 9);
    assert_eq!(usage(Some(1), Some(2), None).used(), 3);
    assert_eq!(usage(None, Some(2), None).used(), 2);
    assert_eq!(usage(None, None, None).used(), 0);
}

#[test]
fn requests_and_events_are_copied_whole() {
    let request = ModelRequest::new(vec![Message::user("u")])
        .with_tools(vec![ToolSpec::new("n", "d", parse(r#"{"k":"v"}"#))]);
    assert_eq!(request.clone(), request);
    let event = ResponseEvent::MessageDone(ModelResponse {
        message: Message::assistant_text("x"),
        finish_reason: Some("stop".to_string()),
        usage: None,
    });
    assert_eq!(event.clone(), event);
}

#[test]
fn temperatures_compare_as_numbers() {
    let samples = [
        0.0f32,
        -0.0,
        0.2,
        -0.2,
        1.0,
        f32::MIN_POSITIVE,
        f32::from_bits(1),
        f32::MAX,
        f32::INFINITY,
        f32::NEG_INFINITY,
        f32::NAN,
        -f32::NAN,
        f32::from_bits(0x7f80_0001),
    ];
    for a in samples {
        for b in samples {
            let same = Temperature { bits: a.to_bits() } == Temperature { bits: b.to_bits() };
            assert_eq!(same, a == b, "{:?} {:?}", a, b);
        }
    }
    let request = |t: f32| {
        ModelRequest::new(Vec::new()).with_temperature(Temperature { bits: t.to_bits() })
    };
    assert_eq!(request(0.0), request(-0.0));
    assert_ne!(request(f32::NAN), request(f32::NAN));
}
