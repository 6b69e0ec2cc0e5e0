use funcode::model::Temperature;
use funcode::provider::{
    api_error, is_success, sse_step, ChatCompletionRequest, ChatCompletionResponse, ChatMessage,
    Choice, FunctionCall, OpenAIProvider, ProviderConfig, ProviderError, ProviderFactory, Role,
    SseEvent, SseStep, ToolCall, ToolDefinition, ToolType,
};
use serde_json::Value;

fn parse(text: &str) -> Value {
    serde_json::from_str(text).unwrap()
}

#[test]
fn test_role_serialization() {
    assert_eq!(serde_json::to_string(Role::System.as_wire()).unwrap(), "\"system\"");
    assert_eq!(serde_json::to_string(Role::User.as_wire()).unwrap(), "\"user\"");
    assert_eq!(serde_json::to_string(Role::Assistant.as_wire()).unwrap(), "\"assistant\"");
    assert_eq!(serde_json::to_string(Role::Tool.as_wire()).unwrap(), "\"tool\"");
}

#[test]
fn test_role_deserialization() {
    let role = Role::from_wire(&serde_json::from_str::<String>("\"system\"").unwrap());
    assert_eq!(role, Some(Role::System));
    let role = Role::from_wire(&serde_json::from_str::<String>("\"assistant\"").unwrap());
    assert_eq!(role, Some(Role::Assistant));
}

#[test]
fn an_unknown_role_is_none() {
    assert_eq!(Role::from_wire("System"), None);
    assert_eq!(Role::from_wire(""), None);
    assert_eq!(Role::from_wire("tool"), Some(Role::Tool));
    assert_eq!(Role::Tool.as_event(), "Tool");
}

#[test]
fn test_chat_message_constructors() {
    let system = ChatMessage::system("You are helpful");
    assert_eq!(system.role, Role::System);
    assert_eq!(system.content, Some("You are helpful".to_string()));

    let user = ChatMessage::user("Hello");
    assert_eq!(user.role, Role::User);
    assert_eq!(user.content, Some("Hello".to_string()));

    let assistant = ChatMessage::assistant("Hi there");
    assert_eq!(assistant.role, Role::Assistant);
    assert_eq!(assistant.content, Some("Hi there".to_string()));
}

#[test]
fn test_chat_message_with_tool_calls() {
    let tool_calls = vec![ToolCall {
        id: "call_123".to_string(),
        tool_type: ToolType::Function,
        function: FunctionCall {
            name: "get_weather".to_string(),
            arguments: r#"{"city":"Beijing"}"#.to_string(),
        },
    }];

    let msg = ChatMessage::assistant("").with_tool_calls(tool_calls.clone());
    assert_eq!(msg.tool_calls, Some(tool_calls));
}

#[test]
fn test_tool_definition() {
    let params = parse(r#"{"type": "object", "properties": {"city": {"type": "string"}}}"#);

    let tool = ToolDefinition::new("get_weather", params.clone()).with_description("Get weather info");

    assert_eq!(tool.tool_type, ToolType::Function);
    assert_eq!(tool.function.name, "get_weather");
    assert_eq!(tool.function.description, Some("Get weather info".to_string()));
    assert_eq!(tool.function.parameters, params);
}

#[test]
fn test_chat_completion_request() {
    let request = ChatCompletionRequest::new("gpt-4o", vec![ChatMessage::user("Hello")])
        .with_temperature(Temperature { bits: 0.7f32.to_bits() })
        .with_max_tokens(100)
        .with_stream(true);

    assert_eq!(request.model, "gpt-4o");
    assert_eq!(request.messages.len(), 1);
    assert_eq!(request.temperature.map(|t| f32::from_bits(t.bits)), Some(0.7));
    assert_eq!(request.max_tokens, Some(100));
    assert_eq!(request.stream, Some(true));
}

#[test]
fn test_chat_completion_request_with_tools() {
    let tools = vec![ToolDefinition::new("test", parse("{}"))];
    let request = ChatCompletionRequest::new("gpt-4o", vec![]).with_tools(tools);

    assert!(request.tools.is_some());
    assert_eq!(request.tools.unwrap().len(), 1);
}

#[test]
fn a_request_is_copied_whole() {
    let request = ChatCompletionRequest::new("m", vec![ChatMessage::user("Hello")])
        .with_tools(vec![ToolDefinition::new("t", parse(r#"{"a":[1]}"#)).with_description("d")])
        .with_max_tokens(7);
    assert_eq!(request.clone(), request);
}

#[test]
fn test_provider_config_default() {
    let config = ProviderConfig::default();
    assert_eq!(config.api_key, "");
    assert_eq!(config.base_url, "https://api.openai.com/v1");
    assert_eq!(config.model, "gpt-4o");
    assert!(config.organization.is_none());
}

#[test]
fn test_provider_config_builders() {
    let config = ProviderConfig::new("sk-test")
        .with_base_url("https://custom.api.com/v1")
        .with_model("gpt-3.5-turbo")
        .with_organization("org-123");

    assert_eq!(config.api_key, "sk-test");
    assert_eq!(config.base_url, "https://custom.api.com/v1");
    assert_eq!(config.model, "gpt-3.5-turbo");
    assert_eq!(config.organization, Some("org-123".to_string()));
}

#[test]
fn test_openai_provider_creation() {
    let config = ProviderConfig::new("sk-test");
    let provider = OpenAIProvider::new(config);
    assert!(provider.is_ok());
}

#[test]
fn test_openai_provider_name() {
    let config = ProviderConfig::new("sk-test");
    let provider = OpenAIProvider::new(config).unwrap();
    assert_eq!(provider.name(), "openai");
}

#[test]
fn test_provider_factory_openai() {
    let config = ProviderConfig::new("sk-test");
    let provider = ProviderFactory::create_openai(config);
    assert!(provider.is_ok());
    assert_eq!(provider.unwrap().name(), "openai");
}

#[test]
fn test_provider_factory_anthropic_not_implemented() {
    let config = ProviderConfig::new("sk-test");
    let result = ProviderFactory::create_anthropic(config);
    assert!(result.is_err());
    assert_eq!(result.err().unwrap().message, "Anthropic provider not yet implemented");
}

#[test]
fn test_provider_factory_azure_not_implemented() {
    let config = ProviderConfig::new("sk-test");
    let result = ProviderFactory::create_azure(config);
    assert!(result.is_err());
    assert_eq!(result.err().unwrap().message, "Azure provider not yet implemented");
}

#[test]
fn a_provider_without_a_client_says_why() {
    let made = OpenAIProvider::with_client(ProviderConfig::new("k"), Err("no sockets".to_string()));
    assert_eq!(made.err().unwrap().message, "no sockets");
}

#[test]
fn a_request_goes_to_the_completions_of_the_base() {
    let config = ProviderConfig::new("sk-test")
        .with_base_url("http://localhost:8080")
        .with_organization("org-123");
    let head = OpenAIProvider::new(config).unwrap().build_request();
    assert_eq!(head.url, "http://localhost:8080/chat/completions");
    assert_eq!(head.bearer, "sk-test");
    assert_eq!(head.organization, Some("org-123".to_string()));

    let head = OpenAIProvider::new(ProviderConfig::new("k")).unwrap().build_request();
    assert_eq!(head.url, "https://api.openai.com/v1/chat/completions");
    assert_eq!(head.organization, None);
}

#[test]
fn the_body_says_whether_it_streams() {
    let request = ChatCompletionRequest::new("m", vec![]).with_stream(true);
    assert_eq!(OpenAIProvider::complete_body(request.clone()).stream, None);
    let request = ChatCompletionRequest::new("m", vec![]);
    assert_eq!(OpenAIProvider::complete_stream_body(request).stream, Some(true));
}

#[test]
fn replies_outside_the_two_hundreds_are_errors() {
    assert!(!is_success(199));
    assert!(is_success(200));
    assert!(is_success(299));
    assert!(!is_success(300));
    assert_eq!(
        api_error("401 Unauthorized", "Invalid API key").message,
        "API error (401 Unauthorized): Invalid API key"
    );
}

#[test]
fn an_event_stream_is_read_up_to_done() {
    assert_eq!(sse_step(Ok(SseEvent::Open)), SseStep::Skip);
    assert_eq!(
        sse_step(Ok(SseEvent::Message("{\"id\":1}".to_string()))),
        SseStep::Chunk("{\"id\":1}".to_string())
    );
    assert_eq!(sse_step(Ok(SseEvent::Message("[DONE]".to_string()))), SseStep::Stop);
    assert_eq!(
        sse_step(Err("broken pipe".to_string())),
        SseStep::Fail(ProviderError { message: "Stream error: broken pipe".to_string() })
    );
}

#[test]
fn responses_are_plain_data() {
    let response = ChatCompletionResponse {
        id: "chatcmpl-123".to_string(),
        object: "chat.completion".to_string(),
        created: 1234567890,
        model: "gpt-4o".to_string(),
        choices: vec![Choice {
            index: 0,
            message: ChatMessage::assistant("Hello!"),
            finish_reason: Some("stop".to_string()),
        }],
        usage: None,
    };
    assert_eq!(response.clone(), response);
}

#[test]
fn roles_are_read_back() {
    for role in [Role::System, Role::User, Role::Assistant, Role::Tool] {
        assert_eq!(Role::from_wire(role.as_wire()), Some(role));
    }
    assert_eq!(Role::from_wire("function"), None);
}
