//! Access to a chat completion service over HTTP.

use crate::json;
use crate::model::{Temperature, ToolCallView};
use crate::text;
use crate::text::IntoText;
use crate::views;
use vstd::prelude::*;

verus! {

broadcast use crate::views::group_views;

// ==================== Messages ====================

/// Who speaks.
#[derive(Debug, Clone, Copy, PartialEq, Eq)]
pub enum Role {
    System,
    User,
    Assistant,
    Tool,
}

impl Role {
    /// The role as the service writes it.
    pub open spec fn wire_word(self) -> Seq<char> {
        match self {
            Role::System => "system"@,
            Role::User => "user"@,
            Role::Assistant => "assistant"@,
            Role::Tool => "tool"@,
        }
    }

    /// The role as events name it.
    pub open spec fn event_word(self) -> Seq<char> {
        match self {
            Role::System => "System"@,
            Role::User => "User"@,
            Role::Assistant => "Assistant"@,
            Role::Tool => "Tool"@,
        }
    }

    /// The role as the service writes it.
    pub fn as_wire(&self) -> (word: &'static str)
        ensures
            word@ == self.wire_word(),
    {
        match self {
            Role::System => "system",
            Role::User => "user",
            Role::Assistant => "assistant",
            Role::Tool => "tool",
        }
    }

    /// The role that the service writes so, if there is one.
    pub fn from_wire(word: &str) -> (role: Option<Role>)
        ensures
            role matches Some(r) ==> r.wire_word() == word@,
            role is None ==> forall|r: Role| #[trigger] r.wire_word() != word@,
    {
        if text::same_text(word, "system") {
            Some(Role::System)
        } else if text::same_text(word, "user") {
            Some(Role::User)
        } else if text::same_text(word, "assistant") {
            Some(Role::Assistant)
        } else if text::same_text(word, "tool") {
            Some(Role::Tool)
        } else {
            None
        }
    }

    /// The role as events name it.
    pub fn as_event(&self) -> (word: &'static str)
        ensures
            word@ == self.event_word(),
    {
        match self {
            Role::System => "System",
            Role::User => "User",
            Role::Assistant => "Assistant",
            Role::Tool => "Tool",
        }
    }
}

/// No two roles are written the same. So what is written of a role is read back as that role.
pub proof fn law_roles_are_written_apart(a: Role, b: Role)
    ensures
        a.wire_word() == b.wire_word() ==> a == b,
{
    reveal_strlit("system");
    reveal_strlit("user");
    reveal_strlit("assistant");
    reveal_strlit("tool");
    assert("system"@.len() == 6 && "assistant"@.len() == 9);
    assert("user"@.len() == 4 && "tool"@.len() == 4);
    assert("user"@[0] != "tool"@[0]);
}

/// The kind of a tool. There are only functions.
#[derive(Debug, Clone, Copy, PartialEq, Eq)]
pub enum ToolType {
    Function,
}

/// The function that a tool call names.
#[derive(Debug, PartialEq, Eq)]
pub struct FunctionCall {
    pub name: String,
    pub arguments: String,
}

/// A tool call in a message.
#[derive(Debug, PartialEq, Eq)]
pub struct ToolCall {
    pub id: String,
    pub tool_type: ToolType,
    pub function: FunctionCall,
}

impl View for ToolCall {
    type V = ToolCallView;

    open spec fn view(&self) -> ToolCallView {
        ToolCallView {
            id: self.id@,
            name: self.function.name@,
            arguments: self.function.arguments@,
        }
    }
}

impl Clone for FunctionCall {
    fn clone(&self) -> (copy: Self)
        ensures
            copy == *self,
    {
        FunctionCall { name: self.name.clone(), arguments: self.arguments.clone() }
    }
}

impl Clone for ToolCall {
    fn clone(&self) -> (copy: Self)
        ensures
            copy == *self,
    {
        ToolCall {
            id: self.id.clone(),
            tool_type: self.tool_type,
            function: self.function.clone(),
        }
    }
}

/// A message of a conversation with the service.
#[derive(Debug, PartialEq, Eq)]
pub struct ChatMessage {
    pub role: Role,
    pub content: Option<String>,
    pub name: Option<String>,
    pub tool_calls: Option<Vec<ToolCall>>,
    pub tool_call_id: Option<String>,
}

/// What a [`ChatMessage`] says.
pub struct ChatMessageView {
    pub role: Role,
    pub content: Option<Seq<char>>,
    pub name: Option<Seq<char>>,
    pub tool_calls: Option<Seq<ToolCallView>>,
    pub tool_call_id: Option<Seq<char>>,
}

impl View for ChatMessage {
    type V = ChatMessageView;

    open spec fn view(&self) -> ChatMessageView {
        ChatMessageView {
            role: self.role,
            content: views::option(self.content),
            name: views::option(self.name),
            tool_calls: views::option_list(self.tool_calls),
            tool_call_id: views::option(self.tool_call_id),
        }
    }
}

impl Clone for ChatMessage {
    fn clone(&self) -> (copy: Self)
        ensures
            copy@ == self@,
    {
        let tool_calls: Option<Vec<ToolCall>> = match &self.tool_calls {
            Some(calls) => {
                let copies = calls.clone();
                assert(views::of(copies@) =~= views::of(calls@));
                Some(copies)
            },
            None => None,
        };
        ChatMessage {
            role: self.role,
            content: text::copy_optional(&self.content),
            name: text::copy_optional(&self.name),
            tool_calls,
            tool_call_id: text::copy_optional(&self.tool_call_id),
        }
    }
}

impl ChatMessageView {
    /// A message with a role and a text, and nothing else.
    pub open spec fn plain(role: Role, content: Seq<char>) -> ChatMessageView {
        ChatMessageView {
            role,
            content: Some(content),
            name: None,
            tool_calls: None,
            tool_call_id: None,
        }
    }
}

impl ChatMessage {
    pub fn system<T: IntoText>(content: T) -> (message: Self)
        ensures
            message@ == ChatMessageView::plain(Role::System, content.text()),
    {
        ChatMessage {
            role: Role::System,
            content: Some(content.into_text()),
            name: None,
            tool_calls: None,
            tool_call_id: None,
        }
    }

    pub fn user<T: IntoText>(content: T) -> (message: Self)
        ensures
            message@ == ChatMessageView::plain(Role::User, content.text()),
    {
        ChatMessage {
            role: Role::User,
            content: Some(content.into_text()),
            name: None,
            tool_calls: None,
            tool_call_id: None,
        }
    }

    pub fn assistant<T: IntoText>(content: T) -> (message: Self)
        ensures
            message@ == ChatMessageView::plain(Role::Assistant, content.text()),
    {
        ChatMessage {
            role: Role::Assistant,
            content: Some(content.into_text()),
            name: None,
            tool_calls: None,
            tool_call_id: None,
        }
    }

    pub fn with_tool_calls(self, tool_calls: Vec<ToolCall>) -> (message: Self)
        ensures
            message@ == (ChatMessageView { tool_calls: Some(views::of(tool_calls@)), ..self@ }),
    {
        ChatMessage {
            role: self.role,
            content: self.content,
            name: self.name,
            tool_calls: Some(tool_calls),
            tool_call_id: self.tool_call_id,
        }
    }
}

// ==================== Requests ====================

/// The function that a tool offers.
#[derive(Debug, PartialEq)]
pub struct FunctionDefinition {
    pub name: String,
    pub description: Option<String>,
    pub parameters: serde_json::Value,
}

/// A tool that the model may call.
#[derive(Debug, PartialEq)]
pub struct ToolDefinition {
    pub tool_type: ToolType,
    pub function: FunctionDefinition,
}

/// What a [`ToolDefinition`] says.
pub struct ToolDefinitionView {
    pub name: Seq<char>,
    pub description: Option<Seq<char>>,
    pub parameters: json::Json,
}

impl View for ToolDefinition {
    type V = ToolDefinitionView;

    open spec fn view(&self) -> ToolDefinitionView {
        ToolDefinitionView {
            name: self.function.name@,
            description: views::option(self.function.description),
            parameters: json::json(self.function.parameters),
        }
    }
}

impl Clone for FunctionDefinition {
    fn clone(&self) -> (copy: Self)
        ensures
            copy.name@ == self.name@,
            views::option(copy.description) == views::option(self.description),
            json::json(copy.parameters) == json::json(self.parameters),
    {
        FunctionDefinition {
            name: self.name.clone(),
            description: text::copy_optional(&self.description),
            parameters: self.parameters.clone(),
        }
    }
}

impl Clone for ToolDefinition {
    fn clone(&self) -> (copy: Self)
        ensures
            copy@ == self@,
    {
        ToolDefinition { tool_type: self.tool_type, function: self.function.clone() }
    }
}

impl ToolDefinition {
    pub fn new<N: IntoText>(name: N, parameters: serde_json::Value) -> (definition: Self)
        ensures
            definition@ == (ToolDefinitionView {
                name: name.text(),
                description: None,
                parameters: json::json(parameters),
            }),
    {
        ToolDefinition {
            tool_type: ToolType::Function,
            function: FunctionDefinition {
                name: name.into_text(),
                description: None,
                parameters,
            },
        }
    }

    pub fn with_description<D: IntoText>(self, description: D) -> (definition: Self)
        ensures
            definition@ == (ToolDefinitionView { description: Some(description.text()), ..self@ }),
    {
        ToolDefinition {
            tool_type: self.tool_type,
            function: FunctionDefinition {
                name: self.function.name,
                description: Some(description.into_text()),
                parameters: self.function.parameters,
            },
        }
    }
}

/// A chat completion request.
#[derive(Debug, PartialEq)]
pub struct ChatCompletionRequest {
    pub model: String,
    pub messages: Vec<ChatMessage>,
    pub tools: Option<Vec<ToolDefinition>>,
    pub temperature: Option<Temperature>,
    pub max_tokens: Option<u32>,
    pub stream: Option<bool>,
}

/// What a [`ChatCompletionRequest`] says.
pub struct ChatRequestView {
    pub model: Seq<char>,
    pub messages: Seq<ChatMessageView>,
    pub tools: Option<Seq<ToolDefinitionView>>,
    pub temperature: Option<Temperature>,
    pub max_tokens: Option<u32>,
    pub stream: Option<bool>,
}

impl View for ChatCompletionRequest {
    type V = ChatRequestView;

    open spec fn view(&self) -> ChatRequestView {
        ChatRequestView {
            model: self.model@,
            messages: views::of(self.messages@),
            tools: views::option_list(self.tools),
            temperature: self.temperature,
            max_tokens: self.max_tokens,
            stream: self.stream,
        }
    }
}

impl Clone for ChatCompletionRequest {
    fn clone(&self) -> (copy: Self)
        ensures
            copy@ == self@,
    {
        let messages = self.messages.clone();
        assert(views::of(messages@) =~= views::of(self.messages@));
        let tools: Option<Vec<ToolDefinition>> = match &self.tools {
            Some(tools) => {
                let copies = tools.clone();
                assert(views::of(copies@) =~= views::of(tools@));
                Some(copies)
            },
            None => None,
        };
        ChatCompletionRequest {
            model: self.model.clone(),
            messages,
            tools,
            temperature: self.temperature,
            max_tokens: self.max_tokens,
            stream: self.stream,
        }
    }
}

impl ChatCompletionRequest {
    pub fn new<M: IntoText>(model: M, messages: Vec<ChatMessage>) -> (request: Self)
        ensures
            request@ == (ChatRequestView {
                model: model.text(),
                messages: views::of(messages@),
                tools: None,
                temperature: None,
                max_tokens: None,
                stream: None,
            }),
    {
        ChatCompletionRequest {
            model: model.into_text(),
            messages,
            tools: None,
            temperature: None,
            max_tokens: None,
            stream: None,
        }
    }

    pub fn with_tools(self, tools: Vec<ToolDefinition>) -> (request: Self)
        ensures
            request@ == (ChatRequestView { tools: Some(views::of(tools@)), ..self@ }),
    {
        let mut request = self;
        request.tools = Some(tools);
        request
    }

    pub fn with_temperature(self, temperature: Temperature) -> (request: Self)
        ensures
            request@ == (ChatRequestView { temperature: Some(temperature), ..self@ }),
    {
        let mut request = self;
        request.temperature = Some(temperature);
        request
    }

    pub fn with_max_tokens(self, max_tokens: u32) -> (request: Self)
        ensures
            request@ == (ChatRequestView { max_tokens: Some(max_tokens), ..self@ }),
    {
        let mut request = self;
        request.max_tokens = Some(max_tokens);
        request
    }

    pub fn with_stream(self, stream: bool) -> (request: Self)
        ensures
            request@ == (ChatRequestView { stream: Some(stream), ..self@ }),
    {
        let mut request = self;
        request.stream = Some(stream);
        request
    }
}

// ==================== Responses ====================

/// Token counts as the service reports them.
#[derive(Debug, Clone, Copy, PartialEq, Eq)]
pub struct Usage {
    pub prompt_tokens: u32,
    pub completion_tokens: u32,
    pub total_tokens: u32,
}

/// One of the answers in a response.
#[derive(Debug, Clone, PartialEq, Eq)]
pub struct Choice {
    pub index: u32,
    pub message: ChatMessage,
    pub finish_reason: Option<String>,
}

/// A chat completion response.
#[derive(Debug, Clone, PartialEq, Eq)]
pub struct ChatCompletionResponse {
    pub id: String,
    pub object: String,
    pub created: i64,
    pub model: String,
    pub choices: Vec<Choice>,
    pub usage: Option<Usage>,
}

/// What a chunk adds to the function of a tool call.
#[derive(Debug, Clone, PartialEq, Eq)]
pub struct FunctionCallDelta {
    pub name: Option<String>,
    pub arguments: Option<String>,
}

/// What a chunk adds to a tool call.
#[derive(Debug, Clone, PartialEq, Eq)]
pub struct ToolCallDelta {
    pub index: u32,
    pub id: Option<String>,
    pub tool_type: Option<ToolType>,
    pub function: Option<FunctionCallDelta>,
}

/// What a chunk adds to a message.
#[derive(Debug, Clone, PartialEq, Eq)]
pub struct Delta {
    pub role: Option<Role>,
    pub content: Option<String>,
    pub tool_calls: Option<Vec<ToolCallDelta>>,
}

/// What a chunk adds to an answer.
#[derive(Debug, Clone, PartialEq, Eq)]
pub struct StreamChoice {
    pub index: u32,
    pub delta: Delta,
    pub finish_reason: Option<String>,
}

/// One chunk of a streamed response.
#[derive(Debug, Clone, PartialEq, Eq)]
pub struct StreamResponse {
    pub id: String,
    pub object: String,
    pub created: i64,
    pub model: String,
    pub choices: Vec<StreamChoice>,
}

// ==================== Configuration ====================

/// How to reach a service.
#[derive(Debug, PartialEq, Eq)]
pub struct ProviderConfig {
    pub api_key: String,
    pub base_url: String,
    pub model: String,
    pub organization: Option<String>,
}

/// What a [`ProviderConfig`] says.
pub struct ProviderConfigView {
    pub api_key: Seq<char>,
    pub base_url: Seq<char>,
    pub model: Seq<char>,
    pub organization: Option<Seq<char>>,
}

impl View for ProviderConfig {
    type V = ProviderConfigView;

    open spec fn view(&self) -> ProviderConfigView {
        ProviderConfigView {
            api_key: self.api_key@,
            base_url: self.base_url@,
            model: self.model@,
            organization: views::option(self.organization),
        }
    }
}

impl Clone for ProviderConfig {
    fn clone(&self) -> (copy: Self)
        ensures
            copy@ == self@,
    {
        ProviderConfig {
            api_key: self.api_key.clone(),
            base_url: self.base_url.clone(),
            model: self.model.clone(),
            organization: text::copy_optional(&self.organization),
        }
    }
}

/// The configuration that is used where nothing else is said.
pub open spec fn default_config() -> ProviderConfigView {
    ProviderConfigView {
        api_key: Seq::empty(),
        base_url: "https://api.openai.com/v1"@,
        model: "gpt-4o"@,
        organization: None,
    }
}

impl Default for ProviderConfig {
    fn default() -> (config: Self)
        ensures
            config@ == default_config(),
    {
        ProviderConfig {
            api_key: String::new(),
            base_url: "https://api.openai.com/v1".to_owned(),
            model: "gpt-4o".to_owned(),
            organization: None,
        }
    }
}

impl ProviderConfig {
    pub fn new<K: IntoText>(api_key: K) -> (config: Self)
        ensures
            config@ == (ProviderConfigView { api_key: api_key.text(), ..default_config() }),
    {
        let mut config = ProviderConfig::default();
        config.api_key = api_key.into_text();
        config
    }

    pub fn with_base_url<U: IntoText>(self, base_url: U) -> (config: Self)
        ensures
            config@ == (ProviderConfigView { base_url: base_url.text(), ..self@ }),
    {
        let mut config = self;
        config.base_url = base_url.into_text();
        config
    }

    pub fn with_model<M: IntoText>(self, model: M) -> (config: Self)
        ensures
            config@ == (ProviderConfigView { model: model.text(), ..self@ }),
    {
        let mut config = self;
        config.model = model.into_text();
        config
    }

    pub fn with_organization<O: IntoText>(self, organization: O) -> (config: Self)
        ensures
            config@ == (ProviderConfigView { organization: Some(organization.text()), ..self@ }),
    {
        let mut config = self;
        config.organization = Some(organization.into_text());
        config
    }
}

// ==================== Provider ====================

/// Why a provider failed, in words.
#[derive(Debug, PartialEq, Eq)]
pub struct ProviderError {
    pub message: String,
}

/// The HTTP client of `reqwest`.
#[verifier::external_type_specification]
#[verifier::external_body]
pub struct ExClient(reqwest::Client);

/// `ClientBuilder::build` makes a client that gives up on a request after the given time. Whether
/// one can be made depends on the machine, so nothing is claimed of the outcome.
#[verifier::external_body]
fn http_client(timeout_seconds: u64) -> (made: Result<reqwest::Client, String>) {
    reqwest::Client::builder()
        .timeout(std::time::Duration::from_secs(timeout_seconds))
        .build()
        .map_err(|e| e.to_string())
}

/// `client` is what came of asking for a client that gives up on a request after the given time.
pub closed spec fn client_came(
    timeout_seconds: u64,
    client: Result<reqwest::Client, String>,
) -> bool {
    call_ensures(http_client, (timeout_seconds,), client)
}

/// Seconds after which a request is given up.
pub const REQUEST_TIMEOUT_SECONDS: u64 = 120;

/// A service that speaks the OpenAI protocol.
pub struct OpenAIProvider {
    config: ProviderConfig,
    client: reqwest::Client,
}

/// A request as it goes over the wire, but for its body.
#[derive(Debug, PartialEq, Eq)]
pub struct RequestHead {
    pub url: String,
    pub bearer: String,
    /// The header `OpenAI-Organization`, where there is one.
    pub organization: Option<String>,
}

impl OpenAIProvider {
    /// How the service is reached.
    pub closed spec fn configuration(&self) -> ProviderConfigView {
        self.config@
    }

    /// The client that requests are sent with.
    pub closed spec fn http(&self) -> reqwest::Client {
        self.client
    }

    /// What is made of a configuration and what came of asking for a client: access with that
    /// client, or the error in its words.
    pub open spec fn made_with(
        config: ProviderConfigView,
        client: Result<reqwest::Client, String>,
        made: Result<Self, ProviderError>,
    ) -> bool {
        match made {
            Ok(p) => client == Ok::<reqwest::Client, String>(p.http()) && p.configuration()
                == config,
            Err(e) => client matches Err(why) && e.message == why,
        }
    }

    /// Access to the service that `config` describes, with a client that gives up on a request
    /// after [`REQUEST_TIMEOUT_SECONDS`]. It fails where no such client can be made, and only
    /// there, and then says why in the client's words.
    pub fn new(config: ProviderConfig) -> (made: Result<Self, ProviderError>)
        ensures
            exists|client: Result<reqwest::Client, String>| #[trigger]
                client_came(REQUEST_TIMEOUT_SECONDS, client) && Self::made_with(
                    config@,
                    client,
                    made,
                ),
    {
        let client = http_client(REQUEST_TIMEOUT_SECONDS);
        assert(client_came(REQUEST_TIMEOUT_SECONDS, client));
        OpenAIProvider::with_client(config, client)
    }

    /// Access to the service that `config` describes, with the client where there is one.
    pub fn with_client(config: ProviderConfig, client: Result<reqwest::Client, String>) -> (made:
        Result<Self, ProviderError>)
        ensures
            Self::made_with(config@, client, made),
    {
        match client {
            Ok(client) => Ok(OpenAIProvider { config, client }),
            Err(message) => Err(ProviderError { message }),
        }
    }

    /// The name of the provider.
    pub fn name(&self) -> (name: &'static str)
        ensures
            name@ == "openai"@,
    {
        "openai"
    }

    /// The client that requests are sent with.
    pub fn client(&self) -> (client: &reqwest::Client)
        ensures
            *client == self.http(),
    {
        &self.client
    }

    /// Where a completion request goes, and what signs it.
    pub fn build_request(&self) -> (head: RequestHead)
        ensures
            head.url@ == self.configuration().base_url + "/chat/completions"@,
            head.bearer@ == self.configuration().api_key,
            views::option(head.organization) == self.configuration().organization,
    {
        RequestHead {
            url: text::joined(self.config.base_url.as_str(), "/chat/completions"),
            bearer: self.config.api_key.clone(),
            organization: text::copy_optional(&self.config.organization),
        }
    }

    /// The body of a request that is answered at once.
    pub fn complete_body(request: ChatCompletionRequest) -> (body: ChatCompletionRequest)
        ensures
            body@ == (ChatRequestView { stream: None, ..request@ }),
    {
        let mut body = request;
        body.stream = None;
        body
    }

    /// The body of a request that is answered in chunks.
    pub fn complete_stream_body(request: ChatCompletionRequest) -> (body: ChatCompletionRequest)
        ensures
            body@ == (ChatRequestView { stream: Some(true), ..request@ }),
    {
        let mut body = request;
        body.stream = Some(true);
        body
    }
}

/// Whether a reply with the status `code` is a success: those from 200 up to 299 are.
pub fn is_success(code: u16) -> (b: bool)
    ensures
        b == (200 <= code < 300),
{
    200 <= code && code < 300
}

/// The error for a reply that is no success, with its status and its body.
pub fn api_error(status: &str, body: &str) -> (e: ProviderError)
    ensures
        e.message@ == "API error ("@ + status@ + "): "@ + body@,
{
    let head = text::joined3("API error (", status, "): ");
    ProviderError { message: text::joined(head.as_str(), body) }
}

/// What comes over an event stream.
pub enum SseEvent {
    Open,
    Message(String),
}

/// What to do with what came over an event stream.
#[derive(Debug, PartialEq, Eq)]
pub enum SseStep {
    /// The stream is over.
    Stop,
    /// Nothing to hand on.
    Skip,
    /// A chunk to read.
    Chunk(String),
    /// An error to hand on.
    Fail(ProviderError),
}

/// What to do with what came over an event stream: `[DONE]` ends it, any other message is a
/// chunk, and a failure is handed on in the words of the client.
pub fn sse_step(event: Result<SseEvent, String>) -> (step: SseStep)
    ensures
        match event {
            Ok(SseEvent::Open) => step is Skip,
            Ok(SseEvent::Message(data)) => if data@ == "[DONE]"@ {
                step is Stop
            } else {
                step == SseStep::Chunk(data)
            },
            Err(why) => step matches SseStep::Fail(e) && e.message@ == "Stream error: "@ + why@,
        },
{
    match event {
        Ok(SseEvent::Open) => SseStep::Skip,
        Ok(SseEvent::Message(data)) => {
            if text::same_text(data.as_str(), "[DONE]") {
                SseStep::Stop
            } else {
                SseStep::Chunk(data)
            }
        },
        Err(why) => SseStep::Fail(
            ProviderError { message: text::joined("Stream error: ", why.as_str()) },
        ),
    }
}

/// Makes providers.
pub struct ProviderFactory;

impl ProviderFactory {
    /// A provider that speaks the OpenAI protocol. It fails where no HTTP client can be made, and
    /// only there, and then says why in the client's words.
    pub fn create_openai(config: ProviderConfig) -> (made: Result<OpenAIProvider, ProviderError>)
        ensures
            exists|client: Result<reqwest::Client, String>| #[trigger]
                client_came(REQUEST_TIMEOUT_SECONDS, client) && OpenAIProvider::made_with(
                    config@,
                    client,
                    made,
                ),
    {
        OpenAIProvider::new(config)
    }

    /// There is no Anthropic provider.
    pub fn create_anthropic(_config: ProviderConfig) -> (made: Result<
        OpenAIProvider,
        ProviderError,
    >)
        ensures
            made matches Err(e) && e.message@ == "Anthropic provider not yet implemented"@,
    {
        Err(ProviderError { message: "Anthropic provider not yet implemented".to_owned() })
    }

    /// There is no Azure provider.
    pub fn create_azure(_config: ProviderConfig) -> (made: Result<OpenAIProvider, ProviderError>)
        ensures
            made matches Err(e) && e.message@ == "Azure provider not yet implemented"@,
    {
        Err(ProviderError { message: "Azure provider not yet implemented".to_owned() })
    }
}

// ==================== Laws ====================

/// Over an event stream everything but the mark of the end is handed on as it came, and only that
/// mark ends the stream.
pub proof fn law_every_chunk_is_handed_on(data: String, step: SseStep)
    requires
        call_ensures(sse_step, (Ok::<SseEvent, String>(SseEvent::Message(data)),), step),
    ensures
        data@ == "[DONE]"@ ==> step is Stop,
        data@ != "[DONE]"@ ==> (step matches SseStep::Chunk(chunk) && chunk@ == data@),
{
}

/// A request goes to the completions of the address that was given, is signed with the key that was
/// given, and names the organization where one was given.
pub proof fn law_a_request_goes_where_it_is_meant_to(provider: OpenAIProvider, head: RequestHead)
    requires
        call_ensures(OpenAIProvider::build_request, (&provider,), head),
    ensures
        head.url@ == provider.configuration().base_url + "/chat/completions"@,
        head.bearer@ == provider.configuration().api_key,
        views::option(head.organization) == provider.configuration().organization,
{
}

/// Whether the answer comes at once or in chunks is all that the body changes of a request.
pub proof fn law_the_body_is_the_request(
    request: ChatCompletionRequest,
    at_once: ChatCompletionRequest,
    in_chunks: ChatCompletionRequest,
)
    requires
        call_ensures(OpenAIProvider::complete_body, (request,), at_once),
        call_ensures(OpenAIProvider::complete_stream_body, (request,), in_chunks),
    ensures
        at_once@.stream is None,
        in_chunks@.stream == Some(true),
        at_once@.messages == request@.messages && in_chunks@.messages == request@.messages,
        at_once@.tools == request@.tools && in_chunks@.tools == request@.tools,
        at_once@.model == request@.model && in_chunks@.model == request@.model,
        at_once@.max_tokens == request@.max_tokens && in_chunks@.max_tokens
            == request@.max_tokens,
        at_once@.temperature == request@.temperature && in_chunks@.temperature
            == request@.temperature,
{
}

} // verus!
