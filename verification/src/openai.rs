//! The chat completion wire format: how requests are written in it and responses are read.

use crate::json;
use crate::model::{
    AssistantBlock, AssistantBlockView, Message, MessageView, ModelError, ModelRequest,
    ModelRequestView, ModelResponse, ModelResponseView, Temperature, TokenUsage, ToolCall,
    ToolCallView, ToolSpec, ToolSpecView,
};
use crate::text;
use crate::views;
use vstd::prelude::*;

verus! {

broadcast use crate::views::group_views;

// ==================== Requests on the wire ====================

/// A tool call inside an assistant message of a request.
#[derive(Debug, PartialEq, Eq)]
pub struct ChatCompletionMessageToolCall {
    pub id: String,
    pub name: String,
    pub arguments: String,
}

impl View for ChatCompletionMessageToolCall {
    type V = ToolCallView;

    open spec fn view(&self) -> ToolCallView {
        ToolCallView { id: self.id@, name: self.name@, arguments: self.arguments@ }
    }
}

/// The assistant message of a request.
#[derive(Debug, PartialEq, Eq)]
pub struct ChatCompletionRequestAssistantMessage {
    pub content: Option<String>,
    pub tool_calls: Option<Vec<ChatCompletionMessageToolCall>>,
}

/// The tool message of a request.
#[derive(Debug, PartialEq, Eq)]
pub struct ChatCompletionRequestToolMessage {
    pub content: String,
    pub tool_call_id: String,
}

/// A message of a request.
#[derive(Debug, PartialEq, Eq)]
pub enum ChatCompletionRequestMessage {
    System(String),
    User(String),
    Assistant(ChatCompletionRequestAssistantMessage),
    Tool(ChatCompletionRequestToolMessage),
}

/// What a [`ChatCompletionRequestMessage`] says.
pub enum RequestMessageView {
    System(Seq<char>),
    User(Seq<char>),
    Assistant { content: Option<Seq<char>>, tool_calls: Option<Seq<ToolCallView>> },
    Tool { output: Seq<char>, tool_call_id: Seq<char> },
}

impl View for ChatCompletionRequestMessage {
    type V = RequestMessageView;

    open spec fn view(&self) -> RequestMessageView {
        match self {
            ChatCompletionRequestMessage::System(t) => RequestMessageView::System(t@),
            ChatCompletionRequestMessage::User(t) => RequestMessageView::User(t@),
            ChatCompletionRequestMessage::Assistant(m) => RequestMessageView::Assistant {
                content: views::option(m.content),
                tool_calls: views::option_list(m.tool_calls),
            },
            ChatCompletionRequestMessage::Tool(m) => RequestMessageView::Tool {
                output: m.content@,
                tool_call_id: m.tool_call_id@,
            },
        }
    }
}

/// A function that the model may call.
#[derive(Debug, PartialEq)]
pub struct FunctionObject {
    pub name: String,
    pub description: Option<String>,
    pub parameters: Option<serde_json::Value>,
    pub strict: Option<bool>,
}

/// What a [`FunctionObject`] says.
pub struct FunctionObjectView {
    pub name: Seq<char>,
    pub description: Option<Seq<char>>,
    pub parameters: Option<json::Json>,
    pub strict: Option<bool>,
}

impl View for FunctionObject {
    type V = FunctionObjectView;

    open spec fn view(&self) -> FunctionObjectView {
        FunctionObjectView {
            name: self.name@,
            description: views::option(self.description),
            parameters: match self.parameters {
                Some(p) => Some(json::json(p)),
                None => None,
            },
            strict: self.strict,
        }
    }
}

/// A chat completion request.
#[derive(Debug, PartialEq)]
pub struct CreateChatCompletionRequest {
    pub model: String,
    pub messages: Vec<ChatCompletionRequestMessage>,
    pub tools: Option<Vec<FunctionObject>>,
    pub temperature: Option<Temperature>,
    pub stream: Option<bool>,
}

/// What a [`CreateChatCompletionRequest`] says.
pub struct RequestView {
    pub model: Seq<char>,
    pub messages: Seq<RequestMessageView>,
    pub tools: Option<Seq<FunctionObjectView>>,
    pub temperature: Option<Temperature>,
    pub stream: Option<bool>,
}

impl View for CreateChatCompletionRequest {
    type V = RequestView;

    open spec fn view(&self) -> RequestView {
        RequestView {
            model: self.model@,
            messages: views::of(self.messages@),
            tools: views::option_list(self.tools),
            temperature: self.temperature,
            stream: self.stream,
        }
    }
}

// ==================== Writing requests ====================

/// The texts of the text blocks, in order.
pub open spec fn block_texts(blocks: Seq<AssistantBlockView>) -> Seq<Seq<char>>
    decreases blocks.len(),
{
    if blocks.len() == 0 {
        Seq::empty()
    } else {
        match blocks.last() {
            AssistantBlockView::Text(t) => block_texts(blocks.drop_last()).push(t),
            AssistantBlockView::ToolCall(_) => block_texts(blocks.drop_last()),
        }
    }
}

/// The tool calls of the tool call blocks, in order.
pub open spec fn block_calls(blocks: Seq<AssistantBlockView>) -> Seq<ToolCallView>
    decreases blocks.len(),
{
    if blocks.len() == 0 {
        Seq::empty()
    } else {
        match blocks.last() {
            AssistantBlockView::Text(_) => block_calls(blocks.drop_last()),
            AssistantBlockView::ToolCall(call) => block_calls(blocks.drop_last()).push(call),
        }
    }
}

/// The text parts as one text with an empty line between each two, where there is any.
pub open spec fn joined_parts(parts: Seq<Seq<char>>) -> Option<Seq<char>> {
    if parts.len() == 0 {
        None
    } else {
        Some(text::joined_by(parts, "\n\n"@))
    }
}

/// A message in the wire format. A tool message is sent under the identifier of its call.
pub open spec fn wire_message(message: MessageView) -> RequestMessageView {
    match message {
        MessageView::System(t) => RequestMessageView::System(t),
        MessageView::User(t) => RequestMessageView::User(t),
        MessageView::Assistant(blocks) => RequestMessageView::Assistant {
            content: joined_parts(block_texts(blocks)),
            tool_calls: if block_calls(blocks).len() == 0 {
                None
            } else {
                Some(block_calls(blocks))
            },
        },
        MessageView::Tool { call, result } => RequestMessageView::Tool {
            output: result.content,
            tool_call_id: call.id,
        },
    }
}

/// A tool definition in the wire format.
pub open spec fn wire_tool(tool: ToolSpecView) -> FunctionObjectView {
    FunctionObjectView {
        name: tool.name,
        description: Some(tool.description),
        parameters: Some(tool.input_schema),
        strict: None,
    }
}

/// A request in the wire format. Without tools there is no list of tools.
pub open spec fn wire_request(model: Seq<char>, request: ModelRequestView) -> RequestView {
    RequestView {
        model,
        messages: request.messages.map_values(|m: MessageView| wire_message(m)),
        tools: if request.tools.len() == 0 {
            None
        } else {
            Some(request.tools.map_values(|t: ToolSpecView| wire_tool(t)))
        },
        temperature: request.temperature,
        stream: None,
    }
}

/// The text parts as one text with an empty line between each two, where there is any.
pub fn join_text_parts(parts: Vec<String>) -> (joined: Option<String>)
    ensures
        views::option(joined) == joined_parts(views::of(parts@)),
{
    if parts.len() == 0 {
        None
    } else {
        Some(text::join(&parts, "\n\n"))
    }
}

/// A message in the wire format. Every message can be written in it.
pub fn message_to_openai(message: &Message) -> (written: Result<
    ChatCompletionRequestMessage,
    ModelError,
>)
    ensures
        written matches Ok(wire) && wire@ == wire_message(message@),
{
    match message {
        Message::System(t) => Ok(ChatCompletionRequestMessage::System(t.clone())),
        Message::User(t) => Ok(ChatCompletionRequestMessage::User(t.clone())),
        Message::Assistant(blocks) => {
            let mut text_parts: Vec<String> = Vec::new();
            let mut tool_calls: Vec<ChatCompletionMessageToolCall> = Vec::new();
            let ghost said = views::of(blocks@);
            for i in 0..blocks.len()
                invariant
                    said == views::of(blocks@),
                    views::of(text_parts@) == block_texts(said.take(i as int)),
                    views::of(tool_calls@) == block_calls(said.take(i as int)),
            {
                assert(said.take(i + 1).drop_last() =~= said.take(i as int));
                assert(said.take(i + 1).last() == blocks@[i as int]@);
                match &blocks[i] {
                    AssistantBlock::Text(t) => text_parts.push(t.clone()),
                    AssistantBlock::ToolCall(call) => tool_calls.push(
                        ChatCompletionMessageToolCall {
                            id: call.id.clone(),
                            name: call.name.clone(),
                            arguments: call.arguments.clone(),
                        },
                    ),
                }
            }
            assert(said.take(said.len() as int) =~= said);
            Ok(
                ChatCompletionRequestMessage::Assistant(
                    ChatCompletionRequestAssistantMessage {
                        content: join_text_parts(text_parts),
                        tool_calls: if tool_calls.len() == 0 {
                            None
                        } else {
                            Some(tool_calls)
                        },
                    },
                ),
            )
        },
        Message::Tool { call, result } => Ok(
            ChatCompletionRequestMessage::Tool(
                ChatCompletionRequestToolMessage {
                    content: result.content.clone(),
                    tool_call_id: call.id.clone(),
                },
            ),
        ),
    }
}

/// The tool definitions in the wire format.
pub fn tools_to_openai(tools: Vec<ToolSpec>) -> (wire: Option<Vec<FunctionObject>>)
    ensures
        views::option_list(wire) == (if tools@.len() == 0 {
            None
        } else {
            Some(views::of(tools@).map_values(|t: ToolSpecView| wire_tool(t)))
        }),
{
    if tools.len() == 0 {
        return None;
    }
    let mut wire: Vec<FunctionObject> = Vec::new();
    for i in 0..tools.len()
        invariant
            views::of(wire@) == views::of(tools@).take(i as int).map_values(
                |t: ToolSpecView| wire_tool(t),
            ),
    {
        let tool = &tools[i];
        wire.push(
            FunctionObject {
                name: tool.name.clone(),
                description: Some(tool.description.clone()),
                parameters: Some(tool.input_schema.clone()),
                strict: None,
            },
        );
        assert(views::of(wire@) =~= views::of(tools@).take(i + 1).map_values(
            |t: ToolSpecView| wire_tool(t),
        ));
    }
    assert(views::of(tools@).take(tools@.len() as int) =~= views::of(tools@));
    Some(wire)
}

/// The request in the wire format, addressed to `model`. Every request can be written in it.
pub fn build_request(model: &str, request: ModelRequest) -> (built: Result<
    CreateChatCompletionRequest,
    ModelError,
>)
    ensures
        built matches Ok(wire) && wire@ == wire_request(model@, request@),
{
    let mut messages: Vec<ChatCompletionRequestMessage> = Vec::new();
    for i in 0..request.messages.len()
        invariant
            views::of(messages@) == views::of(request.messages@).take(i as int).map_values(
                |m: MessageView| wire_message(m),
            ),
    {
        match message_to_openai(&request.messages[i]) {
            Ok(message) => messages.push(message),
            Err(e) => {
                return Err(e);
            },
        }
        assert(views::of(messages@) =~= views::of(request.messages@).take(i + 1).map_values(
            |m: MessageView| wire_message(m),
        ));
    }
    assert(views::of(request.messages@).take(request.messages@.len() as int) =~= views::of(
        request.messages@,
    ));
    Ok(
        CreateChatCompletionRequest {
            model: model.to_owned(),
            messages,
            tools: tools_to_openai(request.tools),
            temperature: request.temperature,
            stream: None,
        },
    )
}

// ==================== Responses on the wire ====================

/// A tool call inside a response.
#[derive(Debug, PartialEq, Eq)]
pub enum ChatCompletionMessageToolCalls {
    Function(ChatCompletionMessageToolCall),
    /// A call of a tool that is no function.
    Custom,
}

/// What a [`ChatCompletionMessageToolCalls`] says.
pub enum ResponseToolCallView {
    Function(ToolCallView),
    Custom,
}

impl View for ChatCompletionMessageToolCalls {
    type V = ResponseToolCallView;

    open spec fn view(&self) -> ResponseToolCallView {
        match self {
            ChatCompletionMessageToolCalls::Function(call) => ResponseToolCallView::Function(
                call@,
            ),
            ChatCompletionMessageToolCalls::Custom => ResponseToolCallView::Custom,
        }
    }
}

/// The message of a response.
#[derive(Debug, PartialEq, Eq)]
pub struct ChatCompletionResponseMessage {
    pub content: Option<String>,
    pub tool_calls: Option<Vec<ChatCompletionMessageToolCalls>>,
}

/// What a [`ChatCompletionResponseMessage`] says.
pub struct ResponseMessageView {
    pub content: Option<Seq<char>>,
    pub tool_calls: Option<Seq<ResponseToolCallView>>,
}

impl View for ChatCompletionResponseMessage {
    type V = ResponseMessageView;

    open spec fn view(&self) -> ResponseMessageView {
        ResponseMessageView {
            content: views::option(self.content),
            tool_calls: views::option_list(self.tool_calls),
        }
    }
}

/// Why the model stopped.
#[derive(Debug, Clone, Copy, PartialEq, Eq)]
pub enum FinishReason {
    Stop,
    Length,
    ToolCalls,
    ContentFilter,
    FunctionCall,
}

/// Token counts as the service reports them.
#[derive(Debug, Clone, Copy, PartialEq, Eq)]
pub struct CompletionUsage {
    pub prompt_tokens: u32,
    pub completion_tokens: u32,
    pub total_tokens: u32,
}

/// One of the answers in a response.
#[derive(Debug, PartialEq, Eq)]
pub struct ChatChoice {
    pub message: ChatCompletionResponseMessage,
    pub finish_reason: Option<FinishReason>,
}

/// A chat completion response.
#[derive(Debug, PartialEq, Eq)]
pub struct CreateChatCompletionResponse {
    pub choices: Vec<ChatChoice>,
    pub usage: Option<CompletionUsage>,
}

// ==================== Reading responses ====================

/// The word for a finish reason.
pub open spec fn reason_word(reason: FinishReason) -> Seq<char> {
    match reason {
        FinishReason::Stop => "stop"@,
        FinishReason::Length => "length"@,
        FinishReason::ToolCalls => "tool_calls"@,
        FinishReason::ContentFilter => "content_filter"@,
        FinishReason::FunctionCall => "function_call"@,
    }
}

/// The token counts of a completed response.
pub open spec fn usage_of(usage: CompletionUsage) -> TokenUsage {
    TokenUsage {
        input_tokens: Some(usage.prompt_tokens),
        output_tokens: Some(usage.completion_tokens),
        total_tokens: Some(usage.total_tokens),
    }
}

/// A text as a list of blocks: an empty text makes none.
pub open spec fn text_blocks(content: Option<Seq<char>>) -> Seq<AssistantBlockView> {
    match content {
        Some(t) => if t.len() == 0 {
            Seq::empty()
        } else {
            seq![AssistantBlockView::Text(t)]
        },
        None => Seq::empty(),
    }
}

/// All calls are calls of functions.
pub open spec fn only_functions(calls: Seq<ResponseToolCallView>) -> bool {
    forall|i: int| 0 <= i < calls.len() ==> (#[trigger] calls[i]) is Function
}

/// Calls of functions as a list of blocks.
pub open spec fn call_blocks(calls: Seq<ResponseToolCallView>) -> Seq<AssistantBlockView> {
    calls.map_values(|c: ResponseToolCallView| AssistantBlockView::ToolCall(c->Function_0))
}

/// The calls of a response message.
pub open spec fn calls_of(message: ResponseMessageView) -> Seq<ResponseToolCallView> {
    match message.tool_calls {
        Some(calls) => calls,
        None => Seq::empty(),
    }
}

/// The blocks of a response message: its text, where there is any, then its calls.
pub open spec fn blocks_of(message: ResponseMessageView) -> Seq<AssistantBlockView> {
    text_blocks(message.content) + call_blocks(calls_of(message))
}

/// The word for a finish reason.
pub fn finish_reason_to_string(reason: FinishReason) -> (word: String)
    ensures
        word@ == reason_word(reason),
{
    match reason {
        FinishReason::Stop => "stop".to_owned(),
        FinishReason::Length => "length".to_owned(),
        FinishReason::ToolCalls => "tool_calls".to_owned(),
        FinishReason::ContentFilter => "content_filter".to_owned(),
        FinishReason::FunctionCall => "function_call".to_owned(),
    }
}

/// The token counts of a completed response.
pub fn token_usage_from_completion(usage: CompletionUsage) -> (tokens: TokenUsage)
    ensures
        tokens == usage_of(usage),
{
    TokenUsage {
        input_tokens: Some(usage.prompt_tokens),
        output_tokens: Some(usage.completion_tokens),
        total_tokens: Some(usage.total_tokens),
    }
}

/// The response message as a message of the unified model. Only calls of functions are known.
pub fn openai_message_to_chat(message: ChatCompletionResponseMessage) -> (read: Result<
    Message,
    ModelError,
>)
    ensures
        read is Ok <==> only_functions(calls_of(message@)),
        read matches Ok(m) ==> m@ == MessageView::Assistant(blocks_of(message@)),
        read matches Err(e) ==> (e matches ModelError::InvalidMessage(what) && what@
            == "custom tool calls are not supported"@),
{
    let mut blocks: Vec<AssistantBlock> = Vec::new();
    let ghost content = views::option(message.content);
    let ghost calls = calls_of(message@);
    match message.content {
        Some(t) => {
            if !t.as_str().is_empty() {
                blocks.push(AssistantBlock::Text(t));
            }
        },
        None => {},
    }
    let ghost before = views::of(blocks@);
    assert(before =~= text_blocks(content));
    match message.tool_calls {
        Some(tool_calls) => {
            for i in 0..tool_calls.len()
                invariant
                    calls == views::of(tool_calls@),
                    calls == calls_of(message@),
                    only_functions(calls.take(i as int)),
                    views::of(blocks@) == before + call_blocks(calls.take(i as int)),
            {
                assert(calls[i as int] == tool_calls@[i as int]@);
                match &tool_calls[i] {
                    ChatCompletionMessageToolCalls::Function(call) => {
                        blocks.push(
                            AssistantBlock::ToolCall(
                                ToolCall::new(&call.id, &call.name, &call.arguments),
                            ),
                        );
                        proof {
                            assert(calls.take(i + 1) =~= calls.take(i as int).push(calls[i as int]));
                            assert(views::of(blocks@) =~= before + call_blocks(calls.take(i + 1)));
                        }
                    },
                    ChatCompletionMessageToolCalls::Custom => {
                        return Err(
                            ModelError::InvalidMessage("custom tool calls are not supported"),
                        );
                    },
                }
            }
            assert(calls.take(calls.len() as int) =~= calls);
        },
        None => {
            assert(views::of(blocks@) =~= before + call_blocks(calls));
        },
    }
    Ok(Message::Assistant(blocks))
}

/// The first answer of the response. A response without answers is an error, and so is a first
/// answer that calls a tool that is no function.
pub fn parse_response(response: CreateChatCompletionResponse) -> (read: Result<
    ModelResponse,
    ModelError,
>)
    ensures
        read is Ok <==> response.choices@.len() > 0 && only_functions(
            calls_of(response.choices@[0].message@),
        ),
        read matches Ok(r) ==> r@ == (ModelResponseView {
            message: MessageView::Assistant(blocks_of(response.choices@[0].message@)),
            finish_reason: match response.choices@[0].finish_reason {
                Some(reason) => Some(reason_word(reason)),
                None => None,
            },
            usage: match response.usage {
                Some(usage) => Some(usage_of(usage)),
                None => None,
            },
        }),
        read matches Err(e) ==> if response.choices@.len() == 0 {
            e is EmptyChoices
        } else {
            e matches ModelError::InvalidMessage(what) && what@
                == "custom tool calls are not supported"@
        },
{
    let mut choices = response.choices;
    if choices.len() == 0 {
        return Err(ModelError::EmptyChoices);
    }
    let choice = choices.remove(0);
    let message = match openai_message_to_chat(choice.message) {
        Ok(message) => message,
        Err(e) => {
            return Err(e);
        },
    };
    let usage: Option<TokenUsage> = match response.usage {
        Some(usage) => Some(token_usage_from_completion(usage)),
        None => None,
    };
    let finish_reason: Option<String> = match choice.finish_reason {
        Some(reason) => Some(finish_reason_to_string(reason)),
        None => None,
    };
    Ok(ModelResponse { message, finish_reason, usage })
}

// ==================== Laws ====================

/// The blocks of a response hold its text first and its calls behind.
proof fn lemma_parts_of_read_blocks(message: ResponseMessageView)
    requires
        only_functions(calls_of(message)),
    ensures
        block_texts(blocks_of(message)) == text_blocks(message.content).map_values(
            |b: AssistantBlockView| b->Text_0,
        ),
        block_calls(blocks_of(message)) == calls_of(message).map_values(
            |c: ResponseToolCallView| c->Function_0,
        ),
{
    let calls = calls_of(message);
    lemma_parts_behind(text_blocks(message.content), calls, calls.len() as int);
    assert(calls.take(calls.len() as int) =~= calls);
    let first = text_blocks(message.content);
    if first.len() > 0 {
        reveal_with_fuel(block_texts, 2);
        reveal_with_fuel(block_calls, 2);
        assert(first.drop_last() =~= Seq::empty());
        assert(block_texts(first) =~= seq![first[0]->Text_0]);
        assert(block_calls(first) =~= Seq::empty());
    }
    assert(block_texts(first) =~= first.map_values(|b: AssistantBlockView| b->Text_0));
    assert(block_calls(first) + calls.map_values(|c: ResponseToolCallView| c->Function_0)
        =~= calls.map_values(|c: ResponseToolCallView| c->Function_0));
}

/// Call blocks behind other blocks add calls and no texts.
proof fn lemma_parts_behind(
    blocks: Seq<AssistantBlockView>,
    calls: Seq<ResponseToolCallView>,
    n: int,
)
    requires
        0 <= n <= calls.len(),
    ensures
        block_texts(blocks + call_blocks(calls.take(n))) == block_texts(blocks),
        block_calls(blocks + call_blocks(calls.take(n))) == block_calls(blocks) + calls.take(
            n,
        ).map_values(|c: ResponseToolCallView| c->Function_0),
    decreases n,
{
    let all = blocks + call_blocks(calls.take(n));
    if n == 0 {
        assert(all =~= blocks);
        assert(block_calls(all) =~= block_calls(blocks) + calls.take(0).map_values(
            |c: ResponseToolCallView| c->Function_0,
        ));
    } else {
        lemma_parts_behind(blocks, calls, n - 1);
        assert(all.drop_last() =~= blocks + call_blocks(calls.take(n - 1)));
        assert(all.last() == AssistantBlockView::ToolCall(calls[n - 1]->Function_0));
        assert(block_calls(all) =~= block_calls(blocks) + calls.take(n).map_values(
            |c: ResponseToolCallView| c->Function_0,
        ));
    }
}

/// An answer that was read goes back to the service as it came: the same text, where there was
/// any, and the same calls in the same order.
pub proof fn law_an_answer_is_sent_back_as_it_came(message: ResponseMessageView)
    requires
        only_functions(calls_of(message)),
    ensures
        wire_message(MessageView::Assistant(blocks_of(message))) == (
        RequestMessageView::Assistant {
            content: match message.content {
                Some(t) => if t.len() == 0 {
                    None
                } else {
                    Some(t)
                },
                None => None,
            },
            tool_calls: if calls_of(message).len() == 0 {
                None
            } else {
                Some(calls_of(message).map_values(|c: ResponseToolCallView| c->Function_0))
            },
        }),
{
    lemma_parts_of_read_blocks(message);
}

/// The blocks of a message are sorted into texts and calls, each in the order of the blocks: what
/// comes of two lists is what comes of the first and then what comes of the second, and one block
/// is one text or one call, as it is.
pub proof fn law_blocks_are_sorted_in_order(
    a: Seq<AssistantBlockView>,
    b: Seq<AssistantBlockView>,
    t: Seq<char>,
    call: ToolCallView,
)
    ensures
        block_texts(a + b) == block_texts(a) + block_texts(b),
        block_calls(a + b) == block_calls(a) + block_calls(b),
        block_texts(seq![AssistantBlockView::Text(t)]) == seq![t],
        block_calls(seq![AssistantBlockView::Text(t)]).len() == 0,
        block_texts(seq![AssistantBlockView::ToolCall(call)]).len() == 0,
        block_calls(seq![AssistantBlockView::ToolCall(call)]) == seq![call],
    decreases b.len(),
{
    reveal_with_fuel(block_texts, 2);
    reveal_with_fuel(block_calls, 2);
    assert(seq![AssistantBlockView::Text(t)].drop_last() =~= Seq::empty());
    assert(seq![AssistantBlockView::ToolCall(call)].drop_last() =~= Seq::empty());
    assert(block_texts(seq![AssistantBlockView::Text(t)]) =~= seq![t]);
    assert(block_calls(seq![AssistantBlockView::ToolCall(call)]) =~= seq![call]);
    if b.len() == 0 {
        assert(a + b =~= a);
        assert(block_texts(a) + block_texts(b) =~= block_texts(a));
        assert(block_calls(a) + block_calls(b) =~= block_calls(a));
    } else {
        law_blocks_are_sorted_in_order(a, b.drop_last(), t, call);
        assert((a + b).drop_last() =~= a + b.drop_last());
        assert((a + b).last() == b.last());
        assert(block_texts(a + b) =~= block_texts(a) + block_texts(b));
        assert(block_calls(a + b) =~= block_calls(a) + block_calls(b));
    }
}

/// A message is written under its own role. An assistant message holds its texts with an empty line
/// between each two, where there are any, and its calls, where there are any; a tool message holds
/// what the tool returned, under the identifier of the call.
pub proof fn law_a_message_is_written_under_its_role(message: MessageView)
    ensures
        match message {
            MessageView::System(t) => wire_message(message) == RequestMessageView::System(t),
            MessageView::User(t) => wire_message(message) == RequestMessageView::User(t),
            MessageView::Assistant(blocks) => {
                &&& wire_message(message) matches RequestMessageView::Assistant {
                    content,
                    tool_calls,
                }
                &&& content == (if block_texts(blocks).len() == 0 {
                    None
                } else {
                    Some(text::joined_by(block_texts(blocks), "\n\n"@))
                })
                &&& tool_calls == (if block_calls(blocks).len() == 0 {
                    None
                } else {
                    Some(block_calls(blocks))
                })
            },
            MessageView::Tool { call, result } => wire_message(message) == (
            RequestMessageView::Tool { output: result.content, tool_call_id: call.id }),
        },
{
}

/// A request is written with the name of the model, one message for each message in its place,
/// every tool under its name with its description and its schema, and the temperature as it is.
pub proof fn law_a_request_is_written_message_by_message(
    model: Seq<char>,
    request: ModelRequestView,
)
    ensures
        ({
            let wire = wire_request(model, request);
            &&& wire.model == model
            &&& wire.messages.len() == request.messages.len()
            &&& forall|i: int|
                0 <= i < wire.messages.len() ==> wire.messages[i] == wire_message(
                    #[trigger] request.messages[i],
                )
            &&& wire.temperature == request.temperature
            &&& request.tools.len() == 0 <==> wire.tools is None
            &&& wire.tools matches Some(tools) ==> {
                &&& tools.len() == request.tools.len()
                &&& forall|i: int|
                    #![trigger request.tools[i]]
                    0 <= i < tools.len() ==> {
                        &&& tools[i].name == request.tools[i].name
                        &&& tools[i].description == Some(request.tools[i].description)
                        &&& tools[i].parameters == Some(request.tools[i].input_schema)
                    }
            }
        }),
{
}

/// The blocks that are read of an answer are its text, where it is not empty, and then each of its
/// calls in its place with its identifier, its name and its arguments.
pub proof fn law_an_answer_is_read_in_order(message: ResponseMessageView)
    ensures
        ({
            let blocks = blocks_of(message);
            let texts: int = match message.content {
                Some(t) => if t.len() > 0 {
                    1
                } else {
                    0
                },
                None => 0,
            };
            &&& texts == 1 ==> blocks[0] == AssistantBlockView::Text(message.content->0)
            &&& match message.tool_calls {
                Some(calls) => {
                    &&& blocks.len() == texts + calls.len()
                    &&& forall|k: int|
                        0 <= k < calls.len() ==> ((#[trigger] calls[k]) matches
                            ResponseToolCallView::Function(call) ==> blocks[texts + k]
                            == AssistantBlockView::ToolCall(call))
                },
                None => blocks.len() == texts,
            }
        }),
{
}

/// The counts are kept under their names.
pub proof fn law_counts_are_kept(usage: CompletionUsage)
    ensures
        usage_of(usage).input_tokens == Some(usage.prompt_tokens),
        usage_of(usage).output_tokens == Some(usage.completion_tokens),
        usage_of(usage).total_tokens == Some(usage.total_tokens),
{
}

} // verus!
