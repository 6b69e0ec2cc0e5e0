//! The message model that every provider speaks, and the handle of a model.

use crate::json;
use crate::text;
use crate::text::IntoText;
use crate::views;
use vstd::prelude::*;

verus! {

broadcast use crate::views::group_views;

// ==================== Tool calls and results ====================

/// A single tool call issued by the model.
#[derive(Debug, PartialEq, Eq)]
pub struct ToolCall {
    pub id: String,
    pub name: String,
    /// Raw JSON, to be parsed by the tool or handed on as it is.
    pub arguments: String,
}

/// What a [`ToolCall`] says.
pub struct ToolCallView {
    pub id: Seq<char>,
    pub name: Seq<char>,
    pub arguments: Seq<char>,
}

impl View for ToolCall {
    type V = ToolCallView;

    open spec fn view(&self) -> ToolCallView {
        ToolCallView { id: self.id@, name: self.name@, arguments: self.arguments@ }
    }
}

impl Clone for ToolCall {
    fn clone(&self) -> (copy: Self)
        ensures
            copy == *self,
    {
        ToolCall {
            id: self.id.clone(),
            name: self.name.clone(),
            arguments: self.arguments.clone(),
        }
    }
}

impl ToolCall {
    pub fn new<I: IntoText, N: IntoText, A: IntoText>(id: I, name: N, arguments: A) -> (call: Self)
        ensures
            call@ == (ToolCallView { id: id.text(), name: name.text(), arguments: arguments.text() }),
    {
        ToolCall { id: id.into_text(), name: name.into_text(), arguments: arguments.into_text() }
    }
}

/// Result of executing a tool invocation.
#[derive(Debug, PartialEq, Eq)]
pub struct ToolResult {
    pub tool_call_id: String,
    pub tool_name: String,
    pub content: String,
    pub is_error: bool,
}

/// What a [`ToolResult`] says.
pub struct ToolResultView {
    pub tool_call_id: Seq<char>,
    pub tool_name: Seq<char>,
    pub content: Seq<char>,
    pub is_error: bool,
}

impl View for ToolResult {
    type V = ToolResultView;

    open spec fn view(&self) -> ToolResultView {
        ToolResultView {
            tool_call_id: self.tool_call_id@,
            tool_name: self.tool_name@,
            content: self.content@,
            is_error: self.is_error,
        }
    }
}

impl Clone for ToolResult {
    fn clone(&self) -> (copy: Self)
        ensures
            copy == *self,
    {
        ToolResult {
            tool_call_id: self.tool_call_id.clone(),
            tool_name: self.tool_name.clone(),
            content: self.content.clone(),
            is_error: self.is_error,
        }
    }
}

impl ToolResult {
    /// A result that tells what the tool returned.
    pub fn new<I: IntoText, N: IntoText, C: IntoText>(
        tool_call_id: I,
        tool_name: N,
        content: C,
    ) -> (result: Self)
        ensures
            result@ == (ToolResultView {
                tool_call_id: tool_call_id.text(),
                tool_name: tool_name.text(),
                content: content.text(),
                is_error: false,
            }),
    {
        ToolResult {
            tool_call_id: tool_call_id.into_text(),
            tool_name: tool_name.into_text(),
            content: content.into_text(),
            is_error: false,
        }
    }

    /// A result that tells why the tool failed.
    pub fn error<I: IntoText, N: IntoText, C: IntoText>(
        tool_call_id: I,
        tool_name: N,
        content: C,
    ) -> (result: Self)
        ensures
            result@ == (ToolResultView {
                tool_call_id: tool_call_id.text(),
                tool_name: tool_name.text(),
                content: content.text(),
                is_error: true,
            }),
    {
        ToolResult {
            tool_call_id: tool_call_id.into_text(),
            tool_name: tool_name.into_text(),
            content: content.into_text(),
            is_error: true,
        }
    }
}

// ==================== Messages ====================

/// Content blocks within an assistant message.
#[derive(Debug, PartialEq, Eq)]
pub enum AssistantBlock {
    Text(String),
    ToolCall(ToolCall),
}

/// What an [`AssistantBlock`] says.
pub enum AssistantBlockView {
    Text(Seq<char>),
    ToolCall(ToolCallView),
}

impl View for AssistantBlock {
    type V = AssistantBlockView;

    open spec fn view(&self) -> AssistantBlockView {
        match self {
            AssistantBlock::Text(t) => AssistantBlockView::Text(t@),
            AssistantBlock::ToolCall(call) => AssistantBlockView::ToolCall(call@),
        }
    }
}

impl Clone for AssistantBlock {
    fn clone(&self) -> (copy: Self)
        ensures
            copy == *self,
    {
        match self {
            AssistantBlock::Text(t) => AssistantBlock::Text(t.clone()),
            AssistantBlock::ToolCall(call) => AssistantBlock::ToolCall(call.clone()),
        }
    }
}

impl AssistantBlock {
    pub fn text<T: IntoText>(text: T) -> (block: Self)
        ensures
            block@ == AssistantBlockView::Text(text.text()),
    {
        AssistantBlock::Text(text.into_text())
    }

    pub fn tool_call<I: IntoText, N: IntoText, A: IntoText>(
        id: I,
        name: N,
        arguments: A,
    ) -> (block: Self)
        ensures
            block@ == AssistantBlockView::ToolCall(
                (ToolCallView { id: id.text(), name: name.text(), arguments: arguments.text() }),
            ),
    {
        AssistantBlock::ToolCall(ToolCall::new(id, name, arguments))
    }
}

/// Internal unified message model.
///
/// Each variant belongs to one role and carries only what is valid for that role.
#[derive(Debug, PartialEq, Eq)]
pub enum Message {
    System(String),
    User(String),
    Assistant(Vec<AssistantBlock>),
    Tool { call: ToolCall, result: ToolResult },
}

/// What a [`Message`] says.
pub enum MessageView {
    System(Seq<char>),
    User(Seq<char>),
    Assistant(Seq<AssistantBlockView>),
    Tool { call: ToolCallView, result: ToolResultView },
}

impl View for Message {
    type V = MessageView;

    open spec fn view(&self) -> MessageView {
        match self {
            Message::System(t) => MessageView::System(t@),
            Message::User(t) => MessageView::User(t@),
            Message::Assistant(blocks) => MessageView::Assistant(views::of(blocks@)),
            Message::Tool { call, result } => MessageView::Tool { call: call@, result: result@ },
        }
    }
}

impl Clone for Message {
    fn clone(&self) -> (copy: Self)
        ensures
            copy@ == self@,
    {
        match self {
            Message::System(t) => Message::System(t.clone()),
            Message::User(t) => Message::User(t.clone()),
            Message::Assistant(blocks) => {
                let copies = blocks.clone();
                assert(views::of(copies@) =~= views::of(blocks@));
                Message::Assistant(copies)
            },
            Message::Tool { call, result } => Message::Tool {
                call: call.clone(),
                result: result.clone(),
            },
        }
    }
}

/// The text of the first text block.
pub open spec fn first_text(blocks: Seq<AssistantBlockView>) -> Option<Seq<char>>
    decreases blocks.len(),
{
    if blocks.len() == 0 {
        None
    } else {
        match blocks[0] {
            AssistantBlockView::Text(t) => Some(t),
            AssistantBlockView::ToolCall(_) => first_text(blocks.skip(1)),
        }
    }
}

impl MessageView {
    /// The first text fragment of the message. A tool message has none.
    pub open spec fn text_content(self) -> Option<Seq<char>> {
        match self {
            MessageView::System(t) => Some(t),
            MessageView::User(t) => Some(t),
            MessageView::Assistant(blocks) => first_text(blocks),
            MessageView::Tool { .. } => None,
        }
    }
}

impl Message {
    pub fn system<T: IntoText>(text: T) -> (message: Self)
        ensures
            message@ == MessageView::System(text.text()),
    {
        Message::System(text.into_text())
    }

    pub fn user<T: IntoText>(text: T) -> (message: Self)
        ensures
            message@ == MessageView::User(text.text()),
    {
        Message::User(text.into_text())
    }

    pub fn assistant(blocks: Vec<AssistantBlock>) -> (message: Self)
        ensures
            message@ == MessageView::Assistant(views::of(blocks@)),
    {
        Message::Assistant(blocks)
    }

    pub fn assistant_text<T: IntoText>(text: T) -> (message: Self)
        ensures
            message@ == MessageView::Assistant(seq![AssistantBlockView::Text(text.text())]),
    {
        let mut blocks: Vec<AssistantBlock> = Vec::new();
        blocks.push(AssistantBlock::text(text));
        Message::Assistant(blocks)
    }

    pub fn tool(call: ToolCall, result: ToolResult) -> (message: Self)
        ensures
            message@ == (MessageView::Tool { call: call@, result: result@ }),
    {
        Message::Tool { call, result }
    }

    /// Extract the first text fragment from the message.
    pub fn text_content(&self) -> (content: Option<&str>)
        ensures
            views::option(content) == self@.text_content(),
    {
        match self {
            Message::System(t) => Some(t.as_str()),
            Message::User(t) => Some(t.as_str()),
            Message::Assistant(blocks) => {
                assert(views::of(blocks@).skip(0) =~= views::of(blocks@));
                for i in 0..blocks.len()
                    invariant
                        self@ == MessageView::Assistant(views::of(blocks@)),
                        first_text(views::of(blocks@)) == first_text(
                            views::of(blocks@).skip(i as int),
                        ),
                {
                    let ghost rest = views::of(blocks@).skip(i as int);
                    assert(rest.skip(1) =~= views::of(blocks@).skip(i + 1));
                    assert(rest[0] == blocks@[i as int]@);
                    match &blocks[i] {
                        AssistantBlock::Text(t) => {
                            return Some(t.as_str());
                        },
                        AssistantBlock::ToolCall(_) => {},
                    }
                }
                None
            },
            Message::Tool { .. } => None,
        }
    }
}

// ==================== Requests and responses ====================

/// A sampling temperature, by the bits of its single precision form. Two temperatures are compared
/// as the numbers that they are.
#[derive(Debug, Clone, Copy)]
pub struct Temperature {
    pub bits: u32,
}

impl Temperature {
    /// The bits but for the first, which is the sign.
    pub open spec fn magnitude(self) -> int {
        self.bits as int % 0x8000_0000
    }

    /// The bits stand for no number: they say more than infinity.
    pub open spec fn is_nan(self) -> bool {
        self.magnitude() > 0x7f80_0000
    }

    /// The two are the same number. Zero is one number under both signs.
    pub open spec fn equals(self, other: Temperature) -> bool {
        &&& !self.is_nan()
        &&& !other.is_nan()
        &&& self.bits == other.bits || (self.magnitude() == 0 && other.magnitude() == 0)
    }
}

impl PartialEq for Temperature {
    fn eq(&self, other: &Temperature) -> (same: bool) {
        let a: u32 = self.bits % 0x8000_0000;
        let b: u32 = other.bits % 0x8000_0000;
        a <= 0x7f80_0000 && b <= 0x7f80_0000 && (self.bits == other.bits || (a == 0 && b == 0))
    }
}

impl vstd::std_specs::cmp::PartialEqSpecImpl for Temperature {
    open spec fn obeys_eq_spec() -> bool {
        true
    }

    open spec fn eq_spec(&self, other: &Temperature) -> bool {
        self.equals(*other)
    }
}

/// Comparing temperatures is symmetric and transitive, and a temperature is the same as itself if
/// and only if it is a number.
pub proof fn law_temperatures_compare_as_numbers(a: Temperature, b: Temperature, c: Temperature)
    ensures
        a.equals(b) == b.equals(a),
        a.equals(b) && b.equals(c) ==> a.equals(c),
        a.equals(a) == !a.is_nan(),
{
}

/// Tool definition exposed to the upper layer.
#[derive(Debug, PartialEq)]
pub struct ToolSpec {
    pub name: String,
    pub description: String,
    pub input_schema: serde_json::Value,
}

/// What a [`ToolSpec`] says.
pub struct ToolSpecView {
    pub name: Seq<char>,
    pub description: Seq<char>,
    pub input_schema: json::Json,
}

impl View for ToolSpec {
    type V = ToolSpecView;

    open spec fn view(&self) -> ToolSpecView {
        ToolSpecView {
            name: self.name@,
            description: self.description@,
            input_schema: json::json(self.input_schema),
        }
    }
}

impl Clone for ToolSpec {
    fn clone(&self) -> (copy: Self)
        ensures
            copy@ == self@,
    {
        ToolSpec {
            name: self.name.clone(),
            description: self.description.clone(),
            input_schema: self.input_schema.clone(),
        }
    }
}

impl ToolSpec {
    pub fn new<N: IntoText, D: IntoText>(
        name: N,
        description: D,
        input_schema: serde_json::Value,
    ) -> (spec: Self)
        ensures
            spec@ == (ToolSpecView {
                name: name.text(),
                description: description.text(),
                input_schema: json::json(input_schema),
            }),
    {
        ToolSpec {
            name: name.into_text(),
            description: description.into_text(),
            input_schema,
        }
    }
}

/// A single model invocation request.
#[derive(Debug, PartialEq)]
pub struct ModelRequest {
    pub messages: Vec<Message>,
    pub tools: Vec<ToolSpec>,
    pub temperature: Option<Temperature>,
}

/// What a [`ModelRequest`] says.
pub struct ModelRequestView {
    pub messages: Seq<MessageView>,
    pub tools: Seq<ToolSpecView>,
    pub temperature: Option<Temperature>,
}

impl View for ModelRequest {
    type V = ModelRequestView;

    open spec fn view(&self) -> ModelRequestView {
        ModelRequestView {
            messages: views::of(self.messages@),
            tools: views::of(self.tools@),
            temperature: self.temperature,
        }
    }
}

impl Clone for ModelRequest {
    fn clone(&self) -> (copy: Self)
        ensures
            copy@ == self@,
    {
        let messages = self.messages.clone();
        let tools = self.tools.clone();
        assert(views::of(messages@) =~= views::of(self.messages@));
        assert(views::of(tools@) =~= views::of(self.tools@));
        ModelRequest { messages, tools, temperature: self.temperature }
    }
}

impl ModelRequest {
    pub fn new(messages: Vec<Message>) -> (request: Self)
        ensures
            request@ == (ModelRequestView {
                messages: views::of(messages@),
                tools: Seq::empty(),
                temperature: None,
            }),
    {
        ModelRequest { messages, tools: Vec::new(), temperature: None }
    }

    pub fn with_tools(self, tools: Vec<ToolSpec>) -> (request: Self)
        ensures
            request@ == (ModelRequestView { tools: views::of(tools@), ..self@ }),
    {
        ModelRequest { messages: self.messages, tools, temperature: self.temperature }
    }

    pub fn with_temperature(self, temperature: Temperature) -> (request: Self)
        ensures
            request@ == (ModelRequestView { temperature: Some(temperature), ..self@ }),
    {
        ModelRequest { messages: self.messages, tools: self.tools, temperature: Some(temperature) }
    }
}

/// Token usage statistics.
#[derive(Debug, Clone, Copy, PartialEq, Eq)]
pub struct TokenUsage {
    pub input_tokens: Option<u32>,
    pub output_tokens: Option<u32>,
    pub total_tokens: Option<u32>,
}

/// The number, or zero where there is none.
pub open spec fn or_zero(n: Option<u32>) -> int {
    match n {
        Some(k) => k as int,
        None => 0,
    }
}

impl TokenUsage {
    /// The tokens used: the total where it is given, else input and output together.
    pub open spec fn tokens(self) -> int {
        match self.total_tokens {
            Some(total) => total as int,
            None => or_zero(self.input_tokens) + or_zero(self.output_tokens),
        }
    }

    /// The tokens used fit the counters that hold them.
    pub open spec fn countable(self) -> bool {
        self.tokens() <= u32::MAX
    }

    /// The tokens used: the total where it is given, else input and output together.
    pub fn used(&self) -> (n: u32)
        requires
            self.countable(),
        ensures
            n == self.tokens(),
    {
        match self.total_tokens {
            Some(total) => total,
            None => {
                let input: u32 = match self.input_tokens {
                    Some(n) => n,
                    None => 0,
                };
                let output: u32 = match self.output_tokens {
                    Some(n) => n,
                    None => 0,
                };
                input + output
            },
        }
    }
}

/// A single model invocation response.
#[derive(Debug, PartialEq, Eq)]
pub struct ModelResponse {
    pub message: Message,
    pub finish_reason: Option<String>,
    pub usage: Option<TokenUsage>,
}

/// What a [`ModelResponse`] says.
pub struct ModelResponseView {
    pub message: MessageView,
    pub finish_reason: Option<Seq<char>>,
    pub usage: Option<TokenUsage>,
}

impl View for ModelResponse {
    type V = ModelResponseView;

    open spec fn view(&self) -> ModelResponseView {
        ModelResponseView {
            message: self.message@,
            finish_reason: views::option(self.finish_reason),
            usage: self.usage,
        }
    }
}

impl Clone for ModelResponse {
    fn clone(&self) -> (copy: Self)
        ensures
            copy@ == self@,
    {
        ModelResponse {
            message: self.message.clone(),
            finish_reason: text::copy_optional(&self.finish_reason),
            usage: self.usage,
        }
    }
}

/// Streaming response events.
#[derive(Debug, PartialEq, Eq)]
pub enum ResponseEvent {
    TextDelta(String),
    ToolCallStart { id: String, name: String },
    ToolCallDone { id: String, name: String, arguments: String },
    MessageDone(ModelResponse),
}

/// What a [`ResponseEvent`] says.
pub enum ResponseEventView {
    TextDelta(Seq<char>),
    ToolCallStart { id: Seq<char>, name: Seq<char> },
    ToolCallDone { id: Seq<char>, name: Seq<char>, arguments: Seq<char> },
    MessageDone(ModelResponseView),
}

impl View for ResponseEvent {
    type V = ResponseEventView;

    open spec fn view(&self) -> ResponseEventView {
        match self {
            ResponseEvent::TextDelta(t) => ResponseEventView::TextDelta(t@),
            ResponseEvent::ToolCallStart { id, name } => ResponseEventView::ToolCallStart {
                id: id@,
                name: name@,
            },
            ResponseEvent::ToolCallDone { id, name, arguments } => {
                ResponseEventView::ToolCallDone { id: id@, name: name@, arguments: arguments@ }
            },
            ResponseEvent::MessageDone(response) => ResponseEventView::MessageDone(response@),
        }
    }
}

impl Clone for ResponseEvent {
    fn clone(&self) -> (copy: Self)
        ensures
            copy@ == self@,
    {
        match self {
            ResponseEvent::TextDelta(t) => ResponseEvent::TextDelta(t.clone()),
            ResponseEvent::ToolCallStart { id, name } => ResponseEvent::ToolCallStart {
                id: id.clone(),
                name: name.clone(),
            },
            ResponseEvent::ToolCallDone { id, name, arguments } => ResponseEvent::ToolCallDone {
                id: id.clone(),
                name: name.clone(),
                arguments: arguments.clone(),
            },
            ResponseEvent::MessageDone(response) => ResponseEvent::MessageDone(response.clone()),
        }
    }
}

// ==================== Errors ====================

/// Model invocation errors.
#[derive(Debug)]
pub enum ModelError {
    EmptyModelName,
    EmptyApiKey,
    InvalidMessage(&'static str),
    EmptyChoices,
    StreamProtocol(&'static str),
    /// What the provider's client reported, in its words.
    OpenAI(String),
}

impl ModelError {
    /// The error in words.
    pub open spec fn words(self) -> Seq<char> {
        match self {
            ModelError::EmptyModelName => "model name cannot be empty"@,
            ModelError::EmptyApiKey => "OpenAI API key cannot be empty"@,
            ModelError::InvalidMessage(what) => "invalid message shape: "@ + what@,
            ModelError::EmptyChoices => "model returned no choices"@,
            ModelError::StreamProtocol(what) => "stream protocol error: "@ + what@,
            ModelError::OpenAI(what) => "OpenAI error: "@ + what@,
        }
    }

    /// The error in words.
    pub fn message(&self) -> (words: String)
        ensures
            words@ == self.words(),
    {
        match self {
            ModelError::EmptyModelName => "model name cannot be empty".to_owned(),
            ModelError::EmptyApiKey => "OpenAI API key cannot be empty".to_owned(),
            ModelError::InvalidMessage(what) => text::joined("invalid message shape: ", what),
            ModelError::EmptyChoices => "model returned no choices".to_owned(),
            ModelError::StreamProtocol(what) => text::joined("stream protocol error: ", what),
            ModelError::OpenAI(what) => text::joined("OpenAI error: ", what.as_str()),
        }
    }
}

// ==================== Model ====================

/// Unified model handle: a provider and the name of the model that it is asked for.
pub struct Model<P> {
    provider: P,
    model: String,
}

impl<P> Model<P> {
    /// The provider that requests go to.
    pub closed spec fn held_provider(&self) -> P {
        self.provider
    }

    /// The name of the model.
    pub closed spec fn name_text(&self) -> Seq<char> {
        self.model@
    }

    /// A handle on `model` at `provider`. The name must hold more than white space.
    pub fn new<N: IntoText>(provider: P, model: N) -> (made: Result<Self, ModelError>)
        ensures
            made is Ok <==> !text::is_blank(model.text()),
            made matches Ok(m) ==> m.held_provider() == provider && m.name_text() == model.text(),
            made matches Err(e) ==> e is EmptyModelName,
    {
        let model = model.into_text();
        proof {
            text::lemma_blank_is_trimmed_away(model@);
        }
        if text::trim(model.as_str()).as_str().is_empty() {
            return Err(ModelError::EmptyModelName);
        }
        Ok(Model { provider, model })
    }

    /// The provider that requests go to.
    pub fn provider(&self) -> (provider: &P)
        ensures
            *provider == self.held_provider(),
    {
        &self.provider
    }

    /// The name of the model.
    pub fn name(&self) -> (name: &str)
        ensures
            name@ == self.name_text(),
    {
        self.model.as_str()
    }
}

// ==================== OpenAIProvider ====================

/// Access to an OpenAI-compatible service: the key, and the address where it is not the usual one.
#[derive(Debug)]
pub struct OpenAIProvider {
    api_key: String,
    api_base: Option<String>,
}

impl OpenAIProvider {
    /// The key that requests are signed with.
    pub closed spec fn key(&self) -> Seq<char> {
        self.api_key@
    }

    /// The address of the service, where one was given.
    pub closed spec fn base(&self) -> Option<Seq<char>> {
        views::option(self.api_base)
    }

    /// Access with `api_key`, which must hold more than white space. White space around
    /// `base_url` does not count, and one that holds nothing else is as good as none.
    pub fn new<K: IntoText>(api_key: K, base_url: Option<String>) -> (made: Result<
        Self,
        ModelError,
    >)
        ensures
            made is Ok <==> !text::is_blank(api_key.text()),
            made matches Ok(p) ==> {
                &&& p.key() == api_key.text()
                &&& p.base() == (match base_url {
                    Some(url) => if text::is_blank(url@) {
                        None
                    } else {
                        Some(text::trimmed(url@))
                    },
                    None => None,
                })
            },
            made matches Err(e) ==> e is EmptyApiKey,
    {
        let api_key = api_key.into_text();
        proof {
            text::lemma_blank_is_trimmed_away(api_key@);
        }
        if text::trim(api_key.as_str()).as_str().is_empty() {
            return Err(ModelError::EmptyApiKey);
        }
        let mut api_base: Option<String> = None;
        if let Some(url) = base_url {
            let trimmed = text::trim(url.as_str());
            proof {
                text::lemma_blank_is_trimmed_away(url@);
            }
            if !trimmed.as_str().is_empty() {
                api_base = Some(trimmed);
            }
        }
        Ok(OpenAIProvider { api_key, api_base })
    }

    /// The key that requests are signed with.
    pub fn api_key(&self) -> (key: &str)
        ensures
            key@ == self.key(),
    {
        self.api_key.as_str()
    }

    /// The address of the service, where one was given.
    pub fn api_base(&self) -> (base: Option<&str>)
        ensures
            views::option(base) == self.base(),
    {
        match &self.api_base {
            Some(url) => Some(url.as_str()),
            None => None,
        }
    }
}

impl Clone for OpenAIProvider {
    fn clone(&self) -> (copy: Self)
        ensures
            copy.key() == self.key(),
            copy.base() == self.base(),
    {
        OpenAIProvider {
            api_key: self.api_key.clone(),
            api_base: text::copy_optional(&self.api_base),
        }
    }
}

// ==================== Laws ====================

/// The first text of a message is that of the first block that is a text: all blocks before it are
/// calls. There is none only where all blocks are calls.
pub proof fn law_the_first_text_stands_first(blocks: Seq<AssistantBlockView>)
    ensures
        match first_text(blocks) {
            Some(t) => exists|i: int|
                {
                    &&& 0 <= i < blocks.len()
                    &&& #[trigger] blocks[i] == AssistantBlockView::Text(t)
                    &&& forall|j: int| 0 <= j < i ==> (#[trigger] blocks[j]) is ToolCall
                },
            None => forall|j: int| 0 <= j < blocks.len() ==> (#[trigger] blocks[j]) is ToolCall,
        },
        MessageView::Assistant(blocks).text_content() == first_text(blocks),
    decreases blocks.len(),
{
    if blocks.len() > 0 && blocks[0] is ToolCall {
        let rest = blocks.skip(1);
        law_the_first_text_stands_first(rest);
        match first_text(rest) {
            Some(t) => {
                let i = choose|i: int|
                    {
                        &&& 0 <= i < rest.len()
                        &&& #[trigger] rest[i] == AssistantBlockView::Text(t)
                        &&& forall|j: int| 0 <= j < i ==> (#[trigger] rest[j]) is ToolCall
                    };
                assert(blocks[i + 1] == AssistantBlockView::Text(t));
                assert forall|j: int| 0 <= j < i + 1 implies (#[trigger] blocks[j]) is ToolCall by {
                    if j > 0 {
                        assert(blocks[j] == rest[j - 1]);
                    }
                }
            },
            None => {
                assert forall|j: int| 0 <= j < blocks.len() implies (
                #[trigger] blocks[j]) is ToolCall by {
                    if j > 0 {
                        assert(blocks[j] == rest[j - 1]);
                    }
                }
            },
        }
    } else if blocks.len() > 0 {
        assert(blocks[0] == AssistantBlockView::Text(blocks[0]->Text_0));
    }
}

/// The tokens of a response are the total where it is given, and else what went in and what came
/// out together; a count that is missing is none.
pub proof fn law_tokens_are_the_total_or_the_sum(usage: TokenUsage)
    ensures
        usage.total_tokens matches Some(n) ==> usage.tokens() == n,
        usage.total_tokens is None ==> usage.tokens() == (match usage.input_tokens {
            Some(n) => n as int,
            None => 0,
        }) + (match usage.output_tokens {
            Some(n) => n as int,
            None => 0,
        }),
{
}

} // verus!
