//! The conversation as a list of items, independent of any provider.

use crate::model::{
    AssistantBlock, AssistantBlockView, Message as BlockMessage, MessageView as BlockMessageView,
    ModelResponse, ResponseEvent as BlockEvent, ResponseEventView as BlockEventView, Temperature,
    TokenUsage, ToolCall, ToolCallView, ToolResult, ToolResultView, ToolSpec, ToolSpecView,
};
use crate::openai;
use crate::openai::{
    ChatCompletionMessageToolCall, ChatCompletionRequestAssistantMessage,
    ChatCompletionRequestMessage, ChatCompletionRequestToolMessage, CreateChatCompletionRequest,
    RequestMessageView, RequestView, ResponseMessageView, ResponseToolCallView,
};
use crate::text::IntoText;
use crate::views;
use vstd::prelude::*;

verus! {

broadcast use crate::views::group_views;

// ==================== Items ====================

/// A text message with its role.
#[derive(Debug, PartialEq, Eq)]
pub enum Message {
    System(String),
    User(String),
    Assistant(String),
}

/// What a [`Message`] says.
pub enum TextMessageView {
    System(Seq<char>),
    User(Seq<char>),
    Assistant(Seq<char>),
}

impl View for Message {
    type V = TextMessageView;

    open spec fn view(&self) -> TextMessageView {
        match self {
            Message::System(t) => TextMessageView::System(t@),
            Message::User(t) => TextMessageView::User(t@),
            Message::Assistant(t) => TextMessageView::Assistant(t@),
        }
    }
}

impl Clone for Message {
    fn clone(&self) -> (copy: Self)
        ensures
            copy == *self,
    {
        match self {
            Message::System(t) => Message::System(t.clone()),
            Message::User(t) => Message::User(t.clone()),
            Message::Assistant(t) => Message::Assistant(t.clone()),
        }
    }
}

impl Message {
    pub fn system<T: IntoText>(text: T) -> (message: Self)
        ensures
            message@ == TextMessageView::System(text.text()),
    {
        Message::System(text.into_text())
    }

    pub fn user<T: IntoText>(text: T) -> (message: Self)
        ensures
            message@ == TextMessageView::User(text.text()),
    {
        Message::User(text.into_text())
    }

    pub fn assistant<T: IntoText>(text: T) -> (message: Self)
        ensures
            message@ == TextMessageView::Assistant(text.text()),
    {
        Message::Assistant(text.into_text())
    }
}

/// One item of a conversation: a text message, a tool call, or the result of one.
#[derive(Debug, PartialEq, Eq)]
pub enum Item {
    Message(Message),
    ToolCall(ToolCall),
    ToolResult(ToolResult),
}

/// What an [`Item`] says.
pub enum ItemView {
    Message(TextMessageView),
    ToolCall(ToolCallView),
    ToolResult(ToolResultView),
}

impl View for Item {
    type V = ItemView;

    open spec fn view(&self) -> ItemView {
        match self {
            Item::Message(m) => ItemView::Message(m@),
            Item::ToolCall(call) => ItemView::ToolCall(call@),
            Item::ToolResult(result) => ItemView::ToolResult(result@),
        }
    }
}

impl Clone for Item {
    fn clone(&self) -> (copy: Self)
        ensures
            copy == *self,
    {
        match self {
            Item::Message(m) => Item::Message(m.clone()),
            Item::ToolCall(call) => Item::ToolCall(call.clone()),
            Item::ToolResult(result) => Item::ToolResult(result.clone()),
        }
    }
}

impl ItemView {
    /// The item is a message of the user.
    pub open spec fn is_user(self) -> bool {
        self matches ItemView::Message(TextMessageView::User(_))
    }

    /// The text of a message. Tool calls and their results have none.
    pub open spec fn text_content(self) -> Option<Seq<char>> {
        match self {
            ItemView::Message(TextMessageView::System(t)) => Some(t),
            ItemView::Message(TextMessageView::User(t)) => Some(t),
            ItemView::Message(TextMessageView::Assistant(t)) => Some(t),
            ItemView::ToolCall(_) => None,
            ItemView::ToolResult(_) => None,
        }
    }
}

impl Item {
    pub fn message(message: Message) -> (item: Self)
        ensures
            item@ == ItemView::Message(message@),
    {
        Item::Message(message)
    }

    pub fn user<T: IntoText>(text: T) -> (item: Self)
        ensures
            item@ == ItemView::Message(TextMessageView::User(text.text())),
    {
        Item::Message(Message::user(text))
    }

    pub fn assistant<T: IntoText>(text: T) -> (item: Self)
        ensures
            item@ == ItemView::Message(TextMessageView::Assistant(text.text())),
    {
        Item::Message(Message::assistant(text))
    }

    pub fn tool_call(call: ToolCall) -> (item: Self)
        ensures
            item@ == ItemView::ToolCall(call@),
    {
        Item::ToolCall(call)
    }

    pub fn tool_result(result: ToolResult) -> (item: Self)
        ensures
            item@ == ItemView::ToolResult(result@),
    {
        Item::ToolResult(result)
    }

    /// Whether the item is a message of the user.
    pub fn is_user(&self) -> (b: bool)
        ensures
            b == self@.is_user(),
    {
        match self {
            Item::Message(Message::User(_)) => true,
            _ => false,
        }
    }

    /// The text of a message. Tool calls and their results have none.
    pub fn text_content(&self) -> (content: Option<&str>)
        ensures
            views::option(content) == self@.text_content(),
    {
        match self {
            Item::Message(Message::System(t)) => Some(t.as_str()),
            Item::Message(Message::User(t)) => Some(t.as_str()),
            Item::Message(Message::Assistant(t)) => Some(t.as_str()),
            Item::ToolCall(_) => None,
            Item::ToolResult(_) => None,
        }
    }
}

// ==================== Requests and events ====================

/// A request to continue a conversation.
#[derive(Debug, PartialEq)]
pub struct ModelRequest {
    pub items: Vec<Item>,
    pub tools: Vec<ToolSpec>,
    pub temperature: Option<Temperature>,
}

/// What a [`ModelRequest`] says.
pub struct ItemRequestView {
    pub items: Seq<ItemView>,
    pub tools: Seq<ToolSpecView>,
    pub temperature: Option<Temperature>,
}

impl View for ModelRequest {
    type V = ItemRequestView;

    open spec fn view(&self) -> ItemRequestView {
        ItemRequestView {
            items: views::of(self.items@),
            tools: views::of(self.tools@),
            temperature: self.temperature,
        }
    }
}

/// Streaming response events, by item.
#[derive(Debug, PartialEq, Eq)]
pub enum ResponseEvent {
    TextDelta(String),
    ToolCallStart { id: String, name: String },
    TextDone(String),
    ToolCallReady { id: String, name: String, arguments: String },
    Completed { usage: Option<TokenUsage>, finish_reason: Option<String> },
    Cancelled,
}

/// What a [`ResponseEvent`] says.
pub enum ItemEventView {
    TextDelta(Seq<char>),
    ToolCallStart { id: Seq<char>, name: Seq<char> },
    TextDone(Seq<char>),
    ToolCallReady(ToolCallView),
    Completed { usage: Option<TokenUsage>, finish_reason: Option<Seq<char>> },
    Cancelled,
}

impl View for ResponseEvent {
    type V = ItemEventView;

    open spec fn view(&self) -> ItemEventView {
        match self {
            ResponseEvent::TextDelta(t) => ItemEventView::TextDelta(t@),
            ResponseEvent::ToolCallStart { id, name } => ItemEventView::ToolCallStart {
                id: id@,
                name: name@,
            },
            ResponseEvent::TextDone(t) => ItemEventView::TextDone(t@),
            ResponseEvent::ToolCallReady { id, name, arguments } => ItemEventView::ToolCallReady(
                (ToolCallView { id: id@, name: name@, arguments: arguments@ }),
            ),
            ResponseEvent::Completed { usage, finish_reason } => ItemEventView::Completed {
                usage: *usage,
                finish_reason: views::option(*finish_reason),
            },
            ResponseEvent::Cancelled => ItemEventView::Cancelled,
        }
    }
}

// ==================== Folding items into messages ====================

/// The last message is an assistant message, so that a tool call can join it.
pub open spec fn open_turn(messages: Seq<RequestMessageView>) -> bool {
    messages.len() > 0 && messages.last() is Assistant
}

/// An assistant message with one more call.
pub open spec fn with_call(message: RequestMessageView, call: ToolCallView) -> RequestMessageView {
    RequestMessageView::Assistant {
        content: message->content,
        tool_calls: Some(
            match message->tool_calls {
                Some(calls) => calls.push(call),
                None => seq![call],
            },
        ),
    }
}

/// The messages with one more item. A tool call joins the assistant message right before it;
/// any other item makes a message of its own.
pub open spec fn folded_in(messages: Seq<RequestMessageView>, item: ItemView) -> Seq<
    RequestMessageView,
> {
    match item {
        ItemView::Message(TextMessageView::System(t)) => messages.push(
            RequestMessageView::System(t),
        ),
        ItemView::Message(TextMessageView::User(t)) => messages.push(RequestMessageView::User(t)),
        ItemView::Message(TextMessageView::Assistant(t)) => messages.push(
            RequestMessageView::Assistant { content: Some(t), tool_calls: None },
        ),
        ItemView::ToolCall(call) => if open_turn(messages) {
            messages.drop_last().push(with_call(messages.last(), call))
        } else {
            messages.push(
                RequestMessageView::Assistant { content: None, tool_calls: Some(seq![call]) },
            )
        },
        ItemView::ToolResult(result) => messages.push(
            RequestMessageView::Tool { output: result.content, tool_call_id: result.tool_call_id },
        ),
    }
}

/// The items as messages of a request.
pub open spec fn folded(items: Seq<ItemView>) -> Seq<RequestMessageView>
    decreases items.len(),
{
    if items.len() == 0 {
        Seq::empty()
    } else {
        folded_in(folded(items.drop_last()), items.last())
    }
}

/// A tool call as it is written in a message.
fn wire_call(call: &ToolCall) -> (wire: ChatCompletionMessageToolCall)
    ensures
        wire@ == call@,
{
    ChatCompletionMessageToolCall {
        id: call.id.clone(),
        name: call.name.clone(),
        arguments: call.arguments.clone(),
    }
}

/// Adds a tool call behind the messages: to the assistant message that is last, or as one of its
/// own.
fn fold_call(messages: &mut Vec<ChatCompletionRequestMessage>, call: &ToolCall)
    ensures
        views::of(final(messages)@) == folded_in(
            views::of(old(messages)@),
            ItemView::ToolCall(call@),
        ),
{
    let ghost before = views::of(messages@);
    match messages.pop() {
        Some(ChatCompletionRequestMessage::Assistant(last)) => {
            let ghost said = ChatCompletionRequestMessage::Assistant(last)@;
            assert(before.last() == said);
            assert(before.drop_last() =~= views::of(messages@));
            let mut calls: Vec<ChatCompletionMessageToolCall> = match last.tool_calls {
                Some(calls) => calls,
                None => Vec::new(),
            };
            calls.push(wire_call(call));
            proof {
                assert(seq![call@] =~= Seq::<ToolCallView>::empty().push(call@));
            }
            messages.push(
                ChatCompletionRequestMessage::Assistant(
                    ChatCompletionRequestAssistantMessage {
                        content: last.content,
                        tool_calls: Some(calls),
                    },
                ),
            );
        },
        Some(other) => {
            assert(before =~= views::of(messages@).push(other@));
            messages.push(other);
            push_call(messages, call);
        },
        None => {
            push_call(messages, call);
        },
    }
}

/// Adds a tool call behind the messages, in an assistant message of its own.
fn push_call(messages: &mut Vec<ChatCompletionRequestMessage>, call: &ToolCall)
    ensures
        views::of(final(messages)@) == views::of(old(messages)@).push(
            RequestMessageView::Assistant { content: None, tool_calls: Some(seq![call@]) },
        ),
{
    let mut calls: Vec<ChatCompletionMessageToolCall> = Vec::new();
    calls.push(wire_call(call));
    assert(seq![call@] =~= Seq::<ToolCallView>::empty().push(call@));
    messages.push(
        ChatCompletionRequestMessage::Assistant(
            ChatCompletionRequestAssistantMessage { content: None, tool_calls: Some(calls) },
        ),
    );
}

/// The items as messages of a request: assistant text and the tool calls behind it become one
/// message, and a tool result becomes a tool message.
pub fn items_to_openai_messages(items: &Vec<Item>) -> (messages: Vec<ChatCompletionRequestMessage>)
    ensures
        views::of(messages@) == folded(views::of(items@)),
{
    let mut messages: Vec<ChatCompletionRequestMessage> = Vec::new();
    let ghost said = views::of(items@);
    for i in 0..items.len()
        invariant
            said == views::of(items@),
            views::of(messages@) == folded(said.take(i as int)),
    {
        assert(said.take(i + 1).drop_last() =~= said.take(i as int));
        assert(said.take(i + 1).last() == items@[i as int]@);
        match &items[i] {
            Item::Message(Message::System(t)) => messages.push(
                ChatCompletionRequestMessage::System(t.clone()),
            ),
            Item::Message(Message::User(t)) => messages.push(
                ChatCompletionRequestMessage::User(t.clone()),
            ),
            Item::Message(Message::Assistant(t)) => messages.push(
                ChatCompletionRequestMessage::Assistant(
                    ChatCompletionRequestAssistantMessage {
                        content: Some(t.clone()),
                        tool_calls: None,
                    },
                ),
            ),
            Item::ToolCall(call) => fold_call(&mut messages, call),
            Item::ToolResult(result) => messages.push(
                ChatCompletionRequestMessage::Tool(
                    ChatCompletionRequestToolMessage {
                        content: result.content.clone(),
                        tool_call_id: result.tool_call_id.clone(),
                    },
                ),
            ),
        }
    }
    assert(said.take(said.len() as int) =~= said);
    messages
}

/// A request in the wire format. Without tools there is no list of tools.
pub open spec fn wire_request(model: Seq<char>, request: ItemRequestView) -> RequestView {
    RequestView {
        model,
        messages: folded(request.items),
        tools: if request.tools.len() == 0 {
            None
        } else {
            Some(request.tools.map_values(|t: ToolSpecView| openai::wire_tool(t)))
        },
        temperature: request.temperature,
        stream: None,
    }
}

/// The request in the wire format, addressed to `model`.
pub fn build_request(model: &str, request: ModelRequest) -> (wire: CreateChatCompletionRequest)
    ensures
        wire@ == wire_request(model@, request@),
{
    CreateChatCompletionRequest {
        model: model.to_owned(),
        messages: items_to_openai_messages(&request.items),
        tools: openai::tools_to_openai(request.tools),
        temperature: request.temperature,
        stream: None,
    }
}

// ==================== Unfolding answers into items ====================

/// The event that a block of a whole answer makes.
pub open spec fn block_event(block: AssistantBlockView) -> ItemEventView {
    match block {
        AssistantBlockView::Text(t) => ItemEventView::TextDone(t),
        AssistantBlockView::ToolCall(call) => ItemEventView::ToolCallReady(call),
    }
}

/// The blocks of an answer. Only an assistant message has any.
pub open spec fn answer_blocks(message: BlockMessageView) -> Seq<AssistantBlockView> {
    match message {
        BlockMessageView::Assistant(blocks) => blocks,
        _ => Seq::empty(),
    }
}

/// A streaming event by item. A whole answer makes one event for each of its blocks and the one
/// that ends the response; that a call is whole is told there, so the event for it makes none.
pub open spec fn unfolded(event: BlockEventView) -> Seq<ItemEventView> {
    match event {
        BlockEventView::TextDelta(t) => seq![ItemEventView::TextDelta(t)],
        BlockEventView::ToolCallStart { id, name } => seq![
            ItemEventView::ToolCallStart { id, name },
        ],
        BlockEventView::ToolCallDone { .. } => Seq::empty(),
        BlockEventView::MessageDone(response) => answer_blocks(response.message).map_values(
            |b: AssistantBlockView| block_event(b),
        ).push(
            ItemEventView::Completed {
                usage: response.usage,
                finish_reason: response.finish_reason,
            },
        ),
    }
}

/// The events for the blocks of a whole answer, and the one that ends the response.
fn unfold_answer(response: ModelResponse) -> (events: Vec<ResponseEvent>)
    ensures
        views::of(events@) == unfolded(BlockEventView::MessageDone(response@)),
{
    let mut events: Vec<ResponseEvent> = Vec::new();
    let ghost turned = |b: AssistantBlockView| block_event(b);
    let ghost all = answer_blocks(response@.message);
    assert(all.take(0).map_values(turned) =~= Seq::empty());
    match &response.message {
        BlockMessage::Assistant(blocks) => {
            for i in 0..blocks.len()
                invariant
                    turned == (|b: AssistantBlockView| block_event(b)),
                    all == views::of(blocks@),
                    views::of(events@) == all.take(i as int).map_values(turned),
            {
                match &blocks[i] {
                    AssistantBlock::Text(t) => events.push(ResponseEvent::TextDone(t.clone())),
                    AssistantBlock::ToolCall(call) => events.push(
                        ResponseEvent::ToolCallReady {
                            id: call.id.clone(),
                            name: call.name.clone(),
                            arguments: call.arguments.clone(),
                        },
                    ),
                }
                assert(views::of(events@) =~= all.take(i + 1).map_values(turned));
            }
        },
        _ => {},
    }
    assert(all.take(all.len() as int) =~= all);
    events.push(
        ResponseEvent::Completed { usage: response.usage, finish_reason: response.finish_reason },
    );
    events
}

/// A streaming event by item.
pub fn unfold_event(event: BlockEvent) -> (events: Vec<ResponseEvent>)
    ensures
        views::of(events@) == unfolded(event@),
{
    let mut events: Vec<ResponseEvent> = Vec::new();
    match event {
        BlockEvent::TextDelta(t) => events.push(ResponseEvent::TextDelta(t)),
        BlockEvent::ToolCallStart { id, name } => events.push(
            ResponseEvent::ToolCallStart { id, name },
        ),
        BlockEvent::ToolCallDone { .. } => {},
        BlockEvent::MessageDone(response) => {
            return unfold_answer(response);
        },
    }
    events
}

// ==================== Laws ====================

/// The item that a block of an answer becomes in the conversation.
pub open spec fn block_item(block: AssistantBlockView) -> ItemView {
    match block {
        AssistantBlockView::Text(t) => ItemView::Message(TextMessageView::Assistant(t)),
        AssistantBlockView::ToolCall(call) => ItemView::ToolCall(call),
    }
}

/// The items that the blocks of an answer become in the conversation.
pub open spec fn block_items(blocks: Seq<AssistantBlockView>) -> Seq<ItemView> {
    blocks.map_values(|b: AssistantBlockView| block_item(b))
}

/// Tool calls behind an assistant message join it.
proof fn lemma_calls_join(items: Seq<ItemView>, calls: Seq<ResponseToolCallView>, n: int)
    requires
        0 <= n <= calls.len(),
        open_turn(folded(items)),
        folded(items).last()->tool_calls is None,
    ensures
        ({
            let out = folded(items + block_items(openai::call_blocks(calls.take(n))));
            &&& out.drop_last() == folded(items).drop_last()
            &&& out.len() > 0
            &&& out.last() == (RequestMessageView::Assistant {
                content: folded(items).last()->content,
                tool_calls: if n == 0 {
                    None
                } else {
                    Some(calls.take(n).map_values(|c: ResponseToolCallView| c->Function_0))
                },
            })
        }),
    decreases n,
{
    let added = items + block_items(openai::call_blocks(calls.take(n)));
    if n == 0 {
        assert(added =~= items);
    } else {
        lemma_calls_join(items, calls, n - 1);
        assert(added.drop_last() =~= items + block_items(openai::call_blocks(calls.take(n - 1))));
        let call = calls[n - 1]->Function_0;
        assert(added.last() == ItemView::ToolCall(call));
        let pick = |c: ResponseToolCallView| c->Function_0;
        if n == 1 {
            assert(calls.take(n).map_values(pick) =~= seq![call]);
        } else {
            assert(calls.take(n).map_values(pick) =~= calls.take(n - 1).map_values(pick).push(
                call,
            ));
        }
        let before = folded(added.drop_last());
        assert(folded(added).drop_last() =~= before.drop_last());
    }
}

/// An answer that is kept item by item is sent back as the one message that it was: folding the
/// items puts the text and the calls together again. (An answer without text joins an assistant
/// message right before it, so it must not follow one.)
pub proof fn law_an_answer_folds_into_one_message(
    items: Seq<ItemView>,
    message: ResponseMessageView,
)
    requires
        openai::only_functions(openai::calls_of(message)),
        openai::blocks_of(message).len() > 0,
        openai::text_blocks(message.content).len() > 0 || !open_turn(folded(items)),
    ensures
        folded(items + block_items(openai::blocks_of(message))) == folded(items).push(
            openai::wire_message(BlockMessageView::Assistant(openai::blocks_of(message))),
        ),
{
    let calls = openai::calls_of(message);
    let first = openai::text_blocks(message.content);
    let out = folded(items + block_items(openai::blocks_of(message)));
    let pick = |c: ResponseToolCallView| c->Function_0;
    openai::law_an_answer_is_sent_back_as_it_came(message);
    assert(calls.take(calls.len() as int) =~= calls);
    if first.len() > 0 {
        let started = items.push(block_item(first[0]));
        assert(started.drop_last() =~= items);
        assert(folded(started).drop_last() =~= folded(items));
        lemma_calls_join(started, calls, calls.len() as int);
        assert(items + block_items(openai::blocks_of(message)) =~= started + block_items(
            openai::call_blocks(calls),
        ));
        if calls.len() == 0 {
            assert(calls.map_values(pick).len() == 0);
        }
        assert(out =~= out.drop_last().push(out.last()));
    } else {
        let call = calls[0]->Function_0;
        let started = items.push(ItemView::ToolCall(call));
        assert(started.drop_last() =~= items);
        lemma_more_calls_join(started, folded(items), calls, calls.len() as int);
        assert(items + block_items(openai::blocks_of(message)) =~= items + block_items(
            openai::call_blocks(calls),
        ));
        assert(out =~= out.drop_last().push(out.last()));
    }
}

/// Tool calls behind a tool call that opened a message join it.
proof fn lemma_more_calls_join(
    started: Seq<ItemView>,
    before: Seq<RequestMessageView>,
    calls: Seq<ResponseToolCallView>,
    n: int,
)
    requires
        1 <= n <= calls.len(),
        started.len() > 0,
        started.last() == ItemView::ToolCall(calls[0]->Function_0),
        folded(started.drop_last()) == before,
        !open_turn(before),
    ensures
        ({
            let out = folded(
                started.drop_last() + block_items(openai::call_blocks(calls.take(n))),
            );
            &&& out.len() > 0
            &&& out.drop_last() == before
            &&& out.last() == (RequestMessageView::Assistant {
                content: None,
                tool_calls: Some(
                    calls.take(n).map_values(|c: ResponseToolCallView| c->Function_0),
                ),
            })
        }),
    decreases n,
{
    let pick = |c: ResponseToolCallView| c->Function_0;
    let added = started.drop_last() + block_items(openai::call_blocks(calls.take(n)));
    let call = calls[n - 1]->Function_0;
    if n == 1 {
        assert(added =~= started);
        assert(calls.take(1).map_values(pick) =~= seq![call]);
        assert(folded(started).drop_last() =~= before);
    } else {
        lemma_more_calls_join(started, before, calls, n - 1);
        assert(added.drop_last() =~= started.drop_last() + block_items(
            openai::call_blocks(calls.take(n - 1)),
        ));
        assert(added.last() == ItemView::ToolCall(call));
        assert(calls.take(n).map_values(pick) =~= calls.take(n - 1).map_values(pick).push(call));
        assert(folded(added).drop_last() =~= before);
    }
}

/// An item as far as it is sent: of a result, what the tool is called and whether it failed stay
/// behind.
pub open spec fn as_sent(item: ItemView) -> ItemView {
    match item {
        ItemView::ToolResult(result) => ItemView::ToolResult(
            ToolResultView { tool_name: Seq::empty(), is_error: false, ..result },
        ),
        other => other,
    }
}

/// The items that a message of a request stands for, in order: the text of the message, and then
/// its calls.
pub open spec fn spread(message: RequestMessageView) -> Seq<ItemView> {
    match message {
        RequestMessageView::System(t) => seq![ItemView::Message(TextMessageView::System(t))],
        RequestMessageView::User(t) => seq![ItemView::Message(TextMessageView::User(t))],
        RequestMessageView::Assistant { content, tool_calls } => (match content {
            Some(t) => seq![ItemView::Message(TextMessageView::Assistant(t))],
            None => Seq::empty(),
        }) + (match tool_calls {
            Some(calls) => calls.map_values(|c: ToolCallView| ItemView::ToolCall(c)),
            None => Seq::empty(),
        }),
        RequestMessageView::Tool { output, tool_call_id } => seq![
            ItemView::ToolResult(
                ToolResultView {
                    tool_call_id,
                    tool_name: Seq::empty(),
                    content: output,
                    is_error: false,
                },
            ),
        ],
    }
}

/// The items that the messages of a request stand for, in order.
pub open spec fn spread_all(messages: Seq<RequestMessageView>) -> Seq<ItemView>
    decreases messages.len(),
{
    if messages.len() == 0 {
        Seq::empty()
    } else {
        spread_all(messages.drop_last()) + spread(messages.last())
    }
}

/// Folding loses no item, adds none and keeps their order: the messages stand for the items that
/// went into them, each under its role.
pub proof fn law_folding_keeps_every_item(items: Seq<ItemView>)
    ensures
        spread_all(folded(items)) == items.map_values(|i: ItemView| as_sent(i)),
    decreases items.len(),
{
    let sent = |i: ItemView| as_sent(i);
    if items.len() == 0 {
        assert(items.map_values(sent) =~= Seq::empty());
    } else {
        let before = folded(items.drop_last());
        let after = folded(items);
        law_folding_keeps_every_item(items.drop_last());
        assert(items.map_values(sent) =~= items.drop_last().map_values(sent).push(
            as_sent(items.last()),
        ));
        match items.last() {
            ItemView::ToolCall(call) => {
                let made = |c: ToolCallView| ItemView::ToolCall(c);
                if open_turn(before) {
                    let old = before.last();
                    let new = with_call(old, call);
                    assert(after.drop_last() =~= before.drop_last());
                    assert(after.last() == new);
                    match old->tool_calls {
                        Some(calls) => {
                            assert(calls.push(call).map_values(made) =~= calls.map_values(made).push(
                                ItemView::ToolCall(call),
                            ));
                        },
                        None => {
                            assert(seq![call].map_values(made) =~= seq![ItemView::ToolCall(call)]);
                        },
                    }
                    assert(spread(new) =~= spread(old).push(ItemView::ToolCall(call)));
                    assert(spread_all(after) =~= spread_all(before).push(ItemView::ToolCall(call)));
                } else {
                    assert(after.drop_last() =~= before);
                    assert(seq![call].map_values(made) =~= seq![ItemView::ToolCall(call)]);
                    assert(spread(after.last()) =~= seq![ItemView::ToolCall(call)]);
                    assert(spread_all(after) =~= spread_all(before).push(ItemView::ToolCall(call)));
                }
            },
            _ => {
                assert(after.drop_last() =~= before);
                assert(spread(after.last()) =~= seq![as_sent(items.last())]);
                assert(spread_all(after) =~= spread_all(before).push(as_sent(items.last())));
            },
        }
    }
}

/// A request is written with the name of the model, the folded items, every tool in its place under
/// its name with its description and its schema, and the temperature as it is. Without tools there
/// is no list of tools.
pub proof fn law_a_request_is_written_whole(model: Seq<char>, request: ItemRequestView)
    ensures
        ({
            let wire = wire_request(model, request);
            &&& wire.model == model
            &&& spread_all(wire.messages) == request.items.map_values(|i: ItemView| as_sent(i))
            &&& wire.temperature == request.temperature
            &&& request.tools.len() == 0 <==> wire.tools is None
            &&& wire.tools matches Some(tools) ==> {
                &&& tools.len() == request.tools.len()
                &&& forall|i: int|
                    #![trigger request.tools[i]]
                    0 <= i < tools.len() ==> {
                        &&& tools[i].name == request.tools[i].name
                        &&& tools[i].description == Some(request.tools[i].description)
                        &&& tools[i].parameters == Some(request.tools[i].input_schema)
                    }
            }
        }),
{
    law_folding_keeps_every_item(request.items);
}

/// A whole answer makes one event for each of its blocks, in order and as the block is, and behind
/// them the event that ends the response with its counts and its reason. What is still under way is
/// handed on as it is.
pub proof fn law_an_answer_unfolds_block_by_block(event: BlockEventView)
    ensures
        ({
            let events = unfolded(event);
            match event {
                BlockEventView::TextDelta(t) => events == seq![ItemEventView::TextDelta(t)],
                BlockEventView::ToolCallStart { id, name } => events == seq![
                    ItemEventView::ToolCallStart { id, name },
                ],
                BlockEventView::ToolCallDone { .. } => events.len() == 0,
                BlockEventView::MessageDone(response) => {
                    &&& events.len() > 0
                    &&& events.last() == (ItemEventView::Completed {
                        usage: response.usage,
                        finish_reason: response.finish_reason,
                    })
                    &&& response.message matches BlockMessageView::Assistant(blocks) ==> {
                        &&& events.len() == blocks.len() + 1
                        &&& forall|k: int|
                            0 <= k < blocks.len() ==> match #[trigger] blocks[k] {
                                AssistantBlockView::Text(t) => events[k] == ItemEventView::TextDone(
                                    t,
                                ),
                                AssistantBlockView::ToolCall(call) => events[k]
                                    == ItemEventView::ToolCallReady(call),
                            }
                    }
                },
            }
        }),
{
}

/// Whose message an item is, and its text: only messages have one.
pub proof fn law_items_are_told_apart(item: ItemView, t: Seq<char>)
    ensures
        ItemView::Message(TextMessageView::User(t)).is_user(),
        item.is_user() ==> (item matches ItemView::Message(TextMessageView::User(_))),
        ItemView::Message(TextMessageView::System(t)).text_content() == Some(t),
        ItemView::Message(TextMessageView::User(t)).text_content() == Some(t),
        ItemView::Message(TextMessageView::Assistant(t)).text_content() == Some(t),
        item.text_content() is Some <==> item is Message,
{
}

} // verus!
