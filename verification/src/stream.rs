//! Putting a streamed answer together.
//!
//! The service sends an answer in chunks. The assembler turns each chunk into events as it comes,
//! and at the end of the stream into the whole answer.

use crate::model::{
    AssistantBlock, AssistantBlockView, Message, MessageView, ModelError, ModelResponse,
    ModelResponseView, ResponseEvent, ResponseEventView, TokenUsage, ToolCall, ToolCallView,
};
use crate::openai;
use crate::openai::{CompletionUsage, FinishReason};
use crate::views;
use vstd::prelude::*;
use vstd::string::StringExecFns;

verus! {

broadcast use crate::views::group_views;

// ==================== Chunks ====================

/// What a chunk adds to the function of a tool call.
#[derive(Debug, PartialEq, Eq)]
pub struct FunctionCallStream {
    pub name: Option<String>,
    pub arguments: Option<String>,
}

/// What a chunk adds to the tool call at `index`.
#[derive(Debug, PartialEq, Eq)]
pub struct ChatCompletionMessageToolCallChunk {
    pub index: u32,
    pub id: Option<String>,
    pub function: Option<FunctionCallStream>,
}

/// What a [`ChatCompletionMessageToolCallChunk`] says.
pub struct CallDeltaView {
    pub index: u32,
    pub id: Option<Seq<char>>,
    pub name: Option<Seq<char>>,
    pub arguments: Seq<char>,
}

impl View for ChatCompletionMessageToolCallChunk {
    type V = CallDeltaView;

    open spec fn view(&self) -> CallDeltaView {
        CallDeltaView {
            index: self.index,
            id: views::option(self.id),
            name: match self.function {
                Some(function) => views::option(function.name),
                None => None,
            },
            arguments: match self.function {
                Some(function) => match function.arguments {
                    Some(arguments) => arguments@,
                    None => Seq::empty(),
                },
                None => Seq::empty(),
            },
        }
    }
}

/// What a chunk adds to an answer.
#[derive(Debug, PartialEq, Eq)]
pub struct ChatCompletionStreamResponseDelta {
    pub content: Option<String>,
    pub tool_calls: Option<Vec<ChatCompletionMessageToolCallChunk>>,
}

/// What a chunk adds to the answer at `index`.
#[derive(Debug, PartialEq, Eq)]
pub struct ChatChoiceStream {
    pub index: u32,
    pub delta: ChatCompletionStreamResponseDelta,
    pub finish_reason: Option<FinishReason>,
}

/// What a [`ChatChoiceStream`] says.
pub struct ChoiceView {
    pub index: u32,
    pub content: Seq<char>,
    pub calls: Seq<CallDeltaView>,
    pub finish_reason: Option<FinishReason>,
}

impl View for ChatChoiceStream {
    type V = ChoiceView;

    open spec fn view(&self) -> ChoiceView {
        ChoiceView {
            index: self.index,
            content: match self.delta.content {
                Some(content) => content@,
                None => Seq::empty(),
            },
            calls: match self.delta.tool_calls {
                Some(calls) => views::of(calls@),
                None => Seq::empty(),
            },
            finish_reason: self.finish_reason,
        }
    }
}

/// One chunk of a streamed answer.
#[derive(Debug, PartialEq, Eq)]
pub struct CreateChatCompletionStreamResponse {
    pub choices: Vec<ChatChoiceStream>,
    pub usage: Option<CompletionUsage>,
}

/// What a [`CreateChatCompletionStreamResponse`] says.
pub struct ChunkView {
    pub choices: Seq<ChoiceView>,
    pub usage: Option<CompletionUsage>,
}

impl View for CreateChatCompletionStreamResponse {
    type V = ChunkView;

    open spec fn view(&self) -> ChunkView {
        ChunkView { choices: views::of(self.choices@), usage: self.usage }
    }
}

// ==================== The state in between ====================

/// A tool call of which some parts may still be missing.
#[derive(Debug)]
pub struct PartialToolCall {
    pub id: Option<String>,
    pub name: Option<String>,
    pub arguments: String,
    pub announced_start: bool,
}

/// What a [`PartialToolCall`] says.
pub struct PartialView {
    pub id: Option<Seq<char>>,
    pub name: Option<Seq<char>>,
    pub arguments: Seq<char>,
    pub announced_start: bool,
}

impl View for PartialToolCall {
    type V = PartialView;

    open spec fn view(&self) -> PartialView {
        PartialView {
            id: views::option(self.id),
            name: views::option(self.name),
            arguments: self.arguments@,
            announced_start: self.announced_start,
        }
    }
}

/// A tool call of which nothing has come yet.
pub open spec fn nothing_yet() -> PartialView {
    PartialView { id: None, name: None, arguments: Seq::empty(), announced_start: false }
}

impl Default for PartialToolCall {
    fn default() -> (partial: Self)
        ensures
            partial@ == nothing_yet(),
    {
        PartialToolCall {
            id: None,
            name: None,
            arguments: String::new(),
            announced_start: false,
        }
    }
}

/// What has come of an answer so far.
pub struct AnswerView {
    pub text: Seq<char>,
    pub calls: Seq<PartialView>,
    pub finish_reason: Option<Seq<char>>,
    pub usage: Option<TokenUsage>,
}

/// What has come of an answer, what was told about it, and the error that ended it, if any.
pub struct Assembly {
    pub answer: AnswerView,
    pub events: Seq<ResponseEventView>,
    pub error: Option<Seq<char>>,
}

/// The event that tells of a call as soon as its identifier and its name are known.
pub open spec fn start_events(before: PartialView, after: PartialView) -> Seq<ResponseEventView> {
    match (after.id, after.name) {
        (Some(id), Some(name)) => if before.announced_start {
            Seq::empty()
        } else {
            seq![ResponseEventView::ToolCallStart { id, name }]
        },
        _ => Seq::empty(),
    }
}

/// A call with what a chunk adds to it: the identifier and the name are set, the arguments grow.
pub open spec fn extended(call: PartialView, delta: CallDeltaView) -> PartialView {
    let id = if delta.id is Some {
        delta.id
    } else {
        call.id
    };
    let name = if delta.name is Some {
        delta.name
    } else {
        call.name
    };
    PartialView {
        id,
        name,
        arguments: call.arguments + delta.arguments,
        announced_start: call.announced_start || (id is Some && name is Some),
    }
}

/// The calls, with an empty one behind them where `index` is the first that is missing.
pub open spec fn opened(calls: Seq<PartialView>, index: int) -> Seq<PartialView> {
    if index == calls.len() {
        calls.push(nothing_yet())
    } else {
        calls
    }
}

/// The assembly after an addition to a tool call. New calls come in order: an index that leaves
/// one out is an error.
pub open spec fn after_delta(a: Assembly, delta: CallDeltaView) -> Assembly {
    if a.error is Some {
        a
    } else if delta.index > a.answer.calls.len() {
        Assembly { error: Some("tool call delta index skipped unexpectedly"@), ..a }
    } else {
        let calls = opened(a.answer.calls, delta.index as int);
        let call = calls[delta.index as int];
        let grown = extended(call, delta);
        Assembly {
            answer: AnswerView { calls: calls.update(delta.index as int, grown), ..a.answer },
            events: a.events + start_events(call, grown),
            error: None,
        }
    }
}

/// The assembly after some additions to tool calls.
pub open spec fn after_deltas(a: Assembly, deltas: Seq<CallDeltaView>) -> Assembly
    decreases deltas.len(),
{
    if deltas.len() == 0 {
        a
    } else {
        after_delta(after_deltas(a, deltas.drop_last()), deltas.last())
    }
}

/// The assembly after some more text. Empty text is not worth an event.
pub open spec fn after_text(a: Assembly, content: Seq<char>) -> Assembly {
    if a.error is Some || content.len() == 0 {
        a
    } else {
        Assembly {
            answer: AnswerView { text: a.answer.text + content, ..a.answer },
            events: a.events.push(ResponseEventView::TextDelta(content)),
            error: None,
        }
    }
}

/// The assembly after a finish reason, where there is one.
pub open spec fn after_reason(a: Assembly, reason: Option<FinishReason>) -> Assembly {
    match reason {
        Some(r) => if a.error is Some {
            a
        } else {
            Assembly {
                answer: AnswerView {
                    finish_reason: Some(openai::reason_word(r)),
                    ..a.answer
                },
                ..a
            }
        },
        None => a,
    }
}

/// The assembly after what a chunk adds to one answer. Only the first answer counts.
pub open spec fn after_choice(a: Assembly, choice: ChoiceView) -> Assembly {
    if choice.index != 0 {
        a
    } else {
        after_reason(
            after_deltas(after_text(a, choice.content), choice.calls),
            choice.finish_reason,
        )
    }
}

/// The assembly after what a chunk adds to some answers.
pub open spec fn after_choices(a: Assembly, choices: Seq<ChoiceView>) -> Assembly
    decreases choices.len(),
{
    if choices.len() == 0 {
        a
    } else {
        after_choice(after_choices(a, choices.drop_last()), choices.last())
    }
}

/// The assembly after token counts, where there are any.
pub open spec fn after_usage(a: Assembly, usage: Option<CompletionUsage>) -> Assembly {
    match usage {
        Some(u) => if a.error is Some {
            a
        } else {
            Assembly {
                answer: AnswerView { usage: Some(openai::usage_of(u)), ..a.answer },
                ..a
            }
        },
        None => a,
    }
}

/// The assembly after a chunk.
pub open spec fn after_chunk(a: Assembly, chunk: ChunkView) -> Assembly {
    after_choices(after_usage(a, chunk.usage), chunk.choices)
}

/// The assembly after some chunks.
pub open spec fn after_chunks(a: Assembly, chunks: Seq<ChunkView>) -> Assembly
    decreases chunks.len(),
{
    if chunks.len() == 0 {
        a
    } else {
        after_chunk(after_chunks(a, chunks.drop_last()), chunks.last())
    }
}

/// The assembly before anything has come.
pub open spec fn before_all() -> Assembly {
    Assembly {
        answer: AnswerView {
            text: Seq::empty(),
            calls: Seq::empty(),
            finish_reason: None,
            usage: None,
        },
        events: Seq::empty(),
        error: None,
    }
}

// ==================== The end of the stream ====================

/// The identifier and the name of the call have come.
pub open spec fn whole(call: PartialView) -> bool {
    call.id is Some && call.name is Some
}

/// A whole call.
pub open spec fn whole_call(call: PartialView) -> ToolCallView {
    ToolCallView { id: call.id->0, name: call.name->0, arguments: call.arguments }
}

/// The event that tells that a call is whole.
pub open spec fn done_event(call: PartialView) -> ResponseEventView {
    ResponseEventView::ToolCallDone {
        id: call.id->0,
        name: call.name->0,
        arguments: call.arguments,
    }
}

/// The calls in front of the first that is not whole.
pub open spec fn leading_whole(calls: Seq<PartialView>) -> Seq<PartialView>
    decreases calls.len(),
{
    if calls.len() == 0 || !whole(calls[0]) {
        Seq::empty()
    } else {
        seq![calls[0]] + leading_whole(calls.skip(1))
    }
}

/// All calls are whole.
pub open spec fn all_whole(calls: Seq<PartialView>) -> bool {
    forall|i: int| 0 <= i < calls.len() ==> whole(#[trigger] calls[i])
}

/// What a call that is not whole lacks.
pub open spec fn lacking(call: PartialView) -> Seq<char> {
    if call.id is None {
        "tool call id missing at stream end"@
    } else {
        "tool call name missing at stream end"@
    }
}

/// The answer of a stream that has ended: its text, where there is any, then its calls.
pub open spec fn whole_answer(answer: AnswerView) -> ModelResponseView {
    ModelResponseView {
        message: MessageView::Assistant(
            openai::text_blocks(Some(answer.text)) + answer.calls.map_values(
                |c: PartialView| AssistantBlockView::ToolCall(whole_call(c)),
            ),
        ),
        finish_reason: answer.finish_reason,
        usage: answer.usage,
    }
}

/// The events at the end of the stream: one for each call in order, up to the first that is not
/// whole, and the whole answer where all are.
pub open spec fn end_events(answer: AnswerView) -> Seq<ResponseEventView> {
    let done = leading_whole(answer.calls).map_values(|c: PartialView| done_event(c));
    if all_whole(answer.calls) {
        done.push(ResponseEventView::MessageDone(whole_answer(answer)))
    } else {
        done
    }
}

/// The error at the end of the stream: what the first call that is not whole lacks.
pub open spec fn end_error(answer: AnswerView) -> Option<Seq<char>> {
    if all_whole(answer.calls) {
        None
    } else {
        Some(lacking(answer.calls[leading_whole(answer.calls).len() as int]))
    }
}

// ==================== The assembler ====================

/// What came out of a step: events to hand on, in order, and the error behind them, if any.
pub struct Assembled {
    pub events: Vec<ResponseEvent>,
    pub error: Option<ModelError>,
}

impl Assembled {
    /// The step gave `events`, and `error` where that is some protocol error.
    pub open spec fn tells(
        &self,
        events: Seq<ResponseEventView>,
        error: Option<Seq<char>>,
    ) -> bool {
        &&& views::of(self.events@) == events
        &&& match (self.error, error) {
            (None, None) => true,
            (Some(ModelError::StreamProtocol(what)), Some(words)) => what@ == words,
            _ => false,
        }
    }
}

/// The call at `index`, which is opened where it is the first that is missing. An index that
/// leaves a call out is an error.
pub fn ensure_partial(tool_calls: &mut Vec<PartialToolCall>, index: usize) -> (found: Result<
    &mut PartialToolCall,
    ModelError,
>)
    ensures
        index > old(tool_calls)@.len() <==> found is Err,
        match found {
            Ok(call) => {
                &&& index < opened(views::of(old(tool_calls)@), index as int).len()
                &&& call@ == opened(views::of(old(tool_calls)@), index as int)[index as int]
                &&& views::of(final(tool_calls)@) == opened(
                    views::of(old(tool_calls)@),
                    index as int,
                ).update(index as int, final(call)@)
            },
            Err(e) => {
                &&& e matches ModelError::StreamProtocol(what) && what@
                    == "tool call delta index skipped unexpectedly"@
                &&& final(tool_calls)@ == old(tool_calls)@
            },
        },
{
    if index > tool_calls.len() {
        return Err(ModelError::StreamProtocol("tool call delta index skipped unexpectedly"));
    }
    if index == tool_calls.len() {
        tool_calls.push(PartialToolCall::default());
    }
    Ok(&mut tool_calls[index])
}

/// Tells of the call once, as soon as its identifier and its name are known.
pub fn maybe_emit_start(partial: &mut PartialToolCall, events: &mut Vec<ResponseEvent>)
    ensures
        final(partial)@ == (PartialView {
            announced_start: old(partial)@.announced_start || whole(old(partial)@),
            ..old(partial)@
        }),
        views::of(final(events)@) == views::of(old(events)@) + start_events(
            old(partial)@,
            old(partial)@,
        ),
{
    assert(views::of(events@) + Seq::<ResponseEventView>::empty() =~= views::of(events@));
    if partial.announced_start {
        return;
    }
    match (&partial.id, &partial.name) {
        (Some(id), Some(name)) => {
            let event = ResponseEvent::ToolCallStart { id: id.clone(), name: name.clone() };
            let ghost before = events@;
            events.push(event);
            proof {
                assert(views::of(events@) =~= views::of(before) + seq![event@]);
            }
            partial.announced_start = true;
        },
        _ => {},
    }
}

/// Puts the chunks of a streamed answer together.
pub struct StreamAssembler {
    text: String,
    tool_calls: Vec<PartialToolCall>,
    finish_reason: Option<String>,
    usage: Option<TokenUsage>,
}

impl View for StreamAssembler {
    type V = AnswerView;

    closed spec fn view(&self) -> AnswerView {
        AnswerView {
            text: self.text@,
            calls: views::of(self.tool_calls@),
            finish_reason: views::option(self.finish_reason),
            usage: self.usage,
        }
    }
}

impl StreamAssembler {
    /// An assembler to which nothing has come.
    pub fn new() -> (assembler: Self)
        ensures
            assembler@ == before_all().answer,
    {
        StreamAssembler {
            text: String::new(),
            tool_calls: Vec::new(),
            finish_reason: None,
            usage: None,
        }
    }

    /// Takes one addition to a tool call.
    fn take_delta(
        &mut self,
        delta: &ChatCompletionMessageToolCallChunk,
        events: &mut Vec<ResponseEvent>,
    ) -> (taken: Result<(), ModelError>)
        ensures
            ({
                let a = after_delta(
                    Assembly {
                        answer: old(self)@,
                        events: views::of(old(events)@),
                        error: None,
                    },
                    delta@,
                );
                &&& final(self)@ == a.answer
                &&& views::of(final(events)@) == a.events
                &&& match (taken, a.error) {
                    (Ok(_), None) => true,
                    (Err(ModelError::StreamProtocol(what)), Some(words)) => what@ == words,
                    _ => false,
                }
            }),
    {
        let index: usize = delta.index as usize;
        let ghost calls = opened(views::of(self.tool_calls@), index as int);
        let ghost before = self@;
        let ghost told = views::of(events@);
        let partial = match ensure_partial(&mut self.tool_calls, index) {
            Ok(partial) => partial,
            Err(e) => {
                return Err(e);
            },
        };
        let ghost call = partial@;
        match &delta.id {
            Some(id) => {
                partial.id = Some(id.clone());
            },
            None => {},
        }
        match &delta.function {
            Some(function) => {
                match &function.name {
                    Some(name) => {
                        partial.name = Some(name.clone());
                    },
                    None => {},
                }
                match &function.arguments {
                    Some(arguments) => {
                        partial.arguments.append(arguments.as_str());
                    },
                    None => {},
                }
            },
            None => {},
        }
        assert(call.arguments + Seq::<char>::empty() =~= call.arguments);
        assert(partial@.arguments == call.arguments + delta@.arguments);
        maybe_emit_start(partial, events);
        Ok(())
    }

    /// Takes what a chunk adds to the first answer.
    fn take_choice(&mut self, choice: &ChatChoiceStream, events: &mut Vec<ResponseEvent>) -> (taken:
        Result<(), ModelError>)
        ensures
            ({
                let a = after_choice(
                    Assembly {
                        answer: old(self)@,
                        events: views::of(old(events)@),
                        error: None,
                    },
                    choice@,
                );
                &&& final(self)@ == a.answer
                &&& views::of(final(events)@) == a.events
                &&& match (taken, a.error) {
                    (Ok(_), None) => true,
                    (Err(ModelError::StreamProtocol(what)), Some(words)) => what@ == words,
                    _ => false,
                }
            }),
    {
        if choice.index != 0 {
            return Ok(());
        }
        let ghost start = Assembly { answer: self@, events: views::of(events@), error: None };
        match &choice.delta.content {
            Some(content) => {
                if !content.as_str().is_empty() {
                    self.text.append(content.as_str());
                    events.push(ResponseEvent::TextDelta(content.clone()));
                }
            },
            None => {},
        }
        let ghost told = after_text(start, choice@.content);
        assert(told.answer == self@ && told.events == views::of(events@));
        match &choice.delta.tool_calls {
            Some(calls) => {
                let ghost deltas = views::of(calls@);
                for i in 0..calls.len()
                    invariant
                        deltas == views::of(calls@),
                        choice@.calls == deltas,
                        choice@.index == 0,
                        told == after_text(start, choice@.content),
                        start == (Assembly {
                            answer: old(self)@,
                            events: views::of(old(events)@),
                            error: None,
                        }),
                        ({
                            let a = after_deltas(told, deltas.take(i as int));
                            &&& a.answer == self@
                            &&& a.events == views::of(events@)
                            &&& a.error is None
                        }),
                {
                    proof {
                        assert(deltas.take(i + 1).drop_last() =~= deltas.take(i as int));
                        assert(deltas.take(i + 1).last() == calls@[i as int]@);
                    }
                    match self.take_delta(&calls[i], events) {
                        Ok(_) => {},
                        Err(e) => {
                            proof {
                                lemma_error_stays(told, deltas, i + 1);
                            }
                            return Err(e);
                        },
                    }
                }
                assert(deltas.take(deltas.len() as int) =~= deltas);
            },
            None => {},
        }
        match choice.finish_reason {
            Some(reason) => {
                self.finish_reason = Some(openai::finish_reason_to_string(reason));
            },
            None => {},
        }
        Ok(())
    }

    /// Takes a chunk: gives the events that it makes, and the error where it breaks the protocol.
    /// After an error the stream is over.
    pub fn feed(&mut self, chunk: &CreateChatCompletionStreamResponse) -> (step: Assembled)
        ensures
            ({
                let a = after_chunk(
                    Assembly { answer: old(self)@, events: Seq::empty(), error: None },
                    chunk@,
                );
                &&& final(self)@ == a.answer
                &&& step.tells(a.events, a.error)
            }),
    {
        let mut events: Vec<ResponseEvent> = Vec::new();
        match chunk.usage {
            Some(usage) => {
                self.usage = Some(openai::token_usage_from_completion(usage));
            },
            None => {},
        }
        let ghost start = after_usage(
            Assembly { answer: old(self)@, events: Seq::empty(), error: None },
            chunk.usage,
        );
        let ghost choices = views::of(chunk.choices@);
        for i in 0..chunk.choices.len()
            invariant
                choices == views::of(chunk.choices@),
                start == after_usage(
                    Assembly { answer: old(self)@, events: Seq::empty(), error: None },
                    chunk.usage,
                ),
                ({
                    let a = after_choices(start, choices.take(i as int));
                    &&& a.answer == self@
                    &&& a.events == views::of(events@)
                    &&& a.error is None
                }),
        {
            proof {
                assert(choices.take(i + 1).drop_last() =~= choices.take(i as int));
                assert(choices.take(i + 1).last() == chunk.choices@[i as int]@);
            }
            match self.take_choice(&chunk.choices[i], &mut events) {
                Ok(_) => {},
                Err(e) => {
                    proof {
                        lemma_error_outlasts_choices(start, choices, i + 1);
                    }
                    return Assembled { events, error: Some(e) };
                },
            }
        }
        assert(choices.take(choices.len() as int) =~= choices);
        Assembled { events, error: None }
    }

    /// Ends the stream: gives the events for the calls and the whole answer, or the error where
    /// a call is not whole.
    pub fn finish(self) -> (step: Assembled)
        ensures
            step.tells(end_events(self@), end_error(self@)),
    {
        let mut events: Vec<ResponseEvent> = Vec::new();
        let mut blocks: Vec<AssistantBlock> = Vec::new();
        let ghost answer = self@;
        let StreamAssembler { text, tool_calls, finish_reason, usage } = self;
        if !text.as_str().is_empty() {
            blocks.push(AssistantBlock::Text(text));
        }
        let ghost first = views::of(blocks@);
        let ghost calls = views::of(tool_calls@);
        let ghost done = |c: PartialView| done_event(c);
        let ghost blocked = |c: PartialView| AssistantBlockView::ToolCall(whole_call(c));
        assert(first =~= openai::text_blocks(Some(answer.text)));
        assert(calls.skip(0) =~= calls);
        assert(calls.take(0) + leading_whole(calls) =~= leading_whole(calls));
        for i in 0..tool_calls.len()
            invariant
                calls == views::of(tool_calls@),
                answer == self@,
                answer.calls == calls,
                done == (|c: PartialView| done_event(c)),
                blocked == (|c: PartialView| AssistantBlockView::ToolCall(whole_call(c))),
                forall|j: int| 0 <= j < i ==> whole(#[trigger] calls[j]),
                leading_whole(calls) == calls.take(i as int) + leading_whole(
                    calls.skip(i as int),
                ),
                views::of(events@) == calls.take(i as int).map_values(done),
                views::of(blocks@) == first + calls.take(i as int).map_values(blocked),
        {
            let call = &tool_calls[i];
            let ghost rest = calls.skip(i as int);
            proof {
                assert(rest[0] == call@);
                assert(rest.skip(1) =~= calls.skip(i + 1));
                if !whole(call@) {
                    assert(!whole(calls[i as int]));
                    assert(leading_whole(calls) =~= calls.take(i as int));
                } else {
                    assert(calls.take(i as int) + (seq![rest[0]] + leading_whole(calls.skip(i + 1)))
                        =~= calls.take(i + 1) + leading_whole(calls.skip(i + 1)));
                    assert(calls.take(i + 1) =~= calls.take(i as int).push(call@));
                }
            }
            let id = match &call.id {
                Some(id) => id,
                None => {
                    return Assembled {
                        events,
                        error: Some(
                            ModelError::StreamProtocol("tool call id missing at stream end"),
                        ),
                    };
                },
            };
            let name = match &call.name {
                Some(name) => name,
                None => {
                    return Assembled {
                        events,
                        error: Some(
                            ModelError::StreamProtocol("tool call name missing at stream end"),
                        ),
                    };
                },
            };
            events.push(
                ResponseEvent::ToolCallDone {
                    id: id.clone(),
                    name: name.clone(),
                    arguments: call.arguments.clone(),
                },
            );
            blocks.push(
                AssistantBlock::ToolCall(ToolCall::new(id, name, &call.arguments)),
            );
            proof {
                assert(views::of(events@) =~= calls.take(i + 1).map_values(done));
                assert(views::of(blocks@) =~= first + calls.take(i + 1).map_values(blocked));
            }
        }
        proof {
            assert(calls.take(calls.len() as int) =~= calls);
            assert(leading_whole(calls) =~= calls);
        }
        let response = ModelResponse { message: Message::Assistant(blocks), finish_reason, usage };
        assert(response@ == whole_answer(answer));
        events.push(ResponseEvent::MessageDone(response));
        Assembled { events, error: None }
    }
}

/// After an error nothing changes any more.
proof fn lemma_error_stays(a: Assembly, deltas: Seq<CallDeltaView>, n: int)
    requires
        0 <= n <= deltas.len(),
        after_deltas(a, deltas.take(n)).error is Some,
    ensures
        after_deltas(a, deltas) == after_deltas(a, deltas.take(n)),
    decreases deltas.len() - n,
{
    if n == deltas.len() {
        assert(deltas.take(n) =~= deltas);
    } else {
        assert(deltas.take(n + 1).drop_last() =~= deltas.take(n));
        lemma_error_stays(a, deltas, n + 1);
    }
}

/// After an error nothing changes any more.
proof fn lemma_error_ends_choice(a: Assembly, choice: ChoiceView)
    requires
        a.error is Some,
    ensures
        after_choice(a, choice) == a,
{
    if choice.index == 0 {
        assert(choice.calls.take(0) =~= Seq::<CallDeltaView>::empty());
        lemma_error_stays(a, choice.calls, 0);
    }
}

/// After an error nothing changes any more.
proof fn lemma_error_outlasts_choices(a: Assembly, choices: Seq<ChoiceView>, n: int)
    requires
        0 <= n <= choices.len(),
        after_choices(a, choices.take(n)).error is Some,
    ensures
        after_choices(a, choices) == after_choices(a, choices.take(n)),
    decreases choices.len() - n,
{
    if n == choices.len() {
        assert(choices.take(n) =~= choices);
    } else {
        let b = after_choices(a, choices.take(n));
        assert(choices.take(n + 1).drop_last() =~= choices.take(n));
        assert(choices.take(n + 1).last() == choices[n]);
        lemma_error_ends_choice(b, choices[n]);
        lemma_error_outlasts_choices(a, choices, n + 1);
    }
}

// ==================== Laws ====================

/// The same answer and error, with `told` in front of the events.
pub open spec fn behind(told: Seq<ResponseEventView>, a: Assembly) -> Assembly {
    Assembly { events: told + a.events, ..a }
}

proof fn lemma_deltas_behind(told: Seq<ResponseEventView>, a: Assembly, deltas: Seq<CallDeltaView>)
    ensures
        after_deltas(behind(told, a), deltas) == behind(told, after_deltas(a, deltas)),
    decreases deltas.len(),
{
    if deltas.len() > 0 {
        lemma_deltas_behind(told, a, deltas.drop_last());
        let b = after_deltas(a, deltas.drop_last());
        let delta = deltas.last();
        if b.error is None && delta.index <= b.answer.calls.len() {
            let calls = opened(b.answer.calls, delta.index as int);
            let call = calls[delta.index as int];
            let more = start_events(call, extended(call, delta));
            assert((told + b.events) + more =~= told + (b.events + more));
        }
    }
}

proof fn lemma_choices_behind(told: Seq<ResponseEventView>, a: Assembly, choices: Seq<ChoiceView>)
    ensures
        after_choices(behind(told, a), choices) == behind(told, after_choices(a, choices)),
    decreases choices.len(),
{
    if choices.len() > 0 {
        lemma_choices_behind(told, a, choices.drop_last());
        let b = after_choices(a, choices.drop_last());
        let choice = choices.last();
        let content = choice.content;
        assert((told + b.events).push(ResponseEventView::TextDelta(content)) =~= told
            + b.events.push(ResponseEventView::TextDelta(content)));
        assert(after_text(behind(told, b), content) == behind(told, after_text(b, content)));
        lemma_deltas_behind(told, after_text(b, content), choice.calls);
    }
}

/// Feeding chunk after chunk adds up: the events of a chunk come behind those that were told
/// before it, and do not depend on them.
pub proof fn law_events_add_up(a: Assembly, chunk: ChunkView)
    requires
        a.error is None,
    ensures
        after_chunk(a, chunk) == behind(
            a.events,
            after_chunk(Assembly { events: Seq::empty(), ..a }, chunk),
        ),
{
    let fresh = Assembly { events: Seq::empty(), ..a };
    assert(a.events + Seq::<ResponseEventView>::empty() =~= a.events);
    assert(a == behind(a.events, fresh));
    assert(after_usage(a, chunk.usage) == behind(a.events, after_usage(fresh, chunk.usage)));
    lemma_choices_behind(a.events, after_usage(fresh, chunk.usage), chunk.choices);
}

/// The texts of the text events, one behind the other.
pub open spec fn told_text(events: Seq<ResponseEventView>) -> Seq<char>
    decreases events.len(),
{
    if events.len() == 0 {
        Seq::empty()
    } else {
        match events.last() {
            ResponseEventView::TextDelta(t) => told_text(events.drop_last()) + t,
            _ => told_text(events.drop_last()),
        }
    }
}

/// How many calls were told of.
pub open spec fn told_starts(events: Seq<ResponseEventView>) -> nat
    decreases events.len(),
{
    if events.len() == 0 {
        0
    } else {
        match events.last() {
            ResponseEventView::ToolCallStart { .. } => told_starts(events.drop_last()) + 1,
            _ => told_starts(events.drop_last()),
        }
    }
}

/// How many calls are marked as told of.
pub open spec fn announced(calls: Seq<PartialView>) -> nat
    decreases calls.len(),
{
    if calls.len() == 0 {
        0
    } else if calls.last().announced_start {
        announced(calls.drop_last()) + 1
    } else {
        announced(calls.drop_last())
    }
}

/// What holds of an assembly at all times: the events tell all of the text, each call has been
/// told of once if and only if its identifier and its name have come.
pub open spec fn faithful(a: Assembly) -> bool {
    &&& told_text(a.events) == a.answer.text
    &&& told_starts(a.events) == announced(a.answer.calls)
    &&& forall|i: int|
        0 <= i < a.answer.calls.len() ==> (#[trigger] a.answer.calls[i]).announced_start == whole(
            a.answer.calls[i],
        )
}

/// Marking one call adds one to the calls that are marked.
proof fn lemma_announced_update(calls: Seq<PartialView>, k: int, call: PartialView)
    requires
        0 <= k < calls.len(),
    ensures
        announced(calls.update(k, call)) == announced(calls) + (if call.announced_start {
            1int
        } else {
            0
        }) - (if calls[k].announced_start {
            1int
        } else {
            0
        }),
    decreases calls.len(),
{
    let changed = calls.update(k, call);
    if k == calls.len() - 1 {
        assert(changed.drop_last() =~= calls.drop_last());
    } else {
        assert(changed.drop_last() =~= calls.drop_last().update(k, call));
        lemma_announced_update(calls.drop_last(), k, call);
    }
}

proof fn lemma_faithful_delta(a: Assembly, delta: CallDeltaView)
    requires
        faithful(a),
    ensures
        faithful(after_delta(a, delta)),
{
    let b = after_delta(a, delta);
    if a.error is None && delta.index <= a.answer.calls.len() {
        let k = delta.index as int;
        let calls = opened(a.answer.calls, k);
        let grown = extended(calls[k], delta);
        if k == a.answer.calls.len() {
            assert(calls.drop_last() =~= a.answer.calls);
        }
        assert(announced(calls) == announced(a.answer.calls));
        lemma_announced_update(calls, k, grown);
        let told = start_events(calls[k], grown);
        if told.len() == 0 {
            assert(b.events =~= a.events);
        } else {
            assert(b.events.drop_last() =~= a.events);
            assert(b.events.last() == told[0]);
        }
    }
}

proof fn lemma_faithful_deltas(a: Assembly, deltas: Seq<CallDeltaView>)
    requires
        faithful(a),
    ensures
        faithful(after_deltas(a, deltas)),
    decreases deltas.len(),
{
    if deltas.len() > 0 {
        lemma_faithful_deltas(a, deltas.drop_last());
        lemma_faithful_delta(after_deltas(a, deltas.drop_last()), deltas.last());
    }
}

proof fn lemma_faithful_choices(a: Assembly, choices: Seq<ChoiceView>)
    requires
        faithful(a),
    ensures
        faithful(after_choices(a, choices)),
    decreases choices.len(),
{
    if choices.len() > 0 {
        lemma_faithful_choices(a, choices.drop_last());
        let b = after_choices(a, choices.drop_last());
        let choice = choices.last();
        let told = after_text(b, choice.content);
        if b.error is None && choice.content.len() > 0 {
            assert(told.events.drop_last() =~= b.events);
        }
        assert(faithful(told));
        lemma_faithful_deltas(told, choice.calls);
    }
}

/// Whatever chunks come, the text events tell all of the text and nothing else, and each call
/// is told of once if and only if its identifier and its name have come.
pub proof fn law_events_tell_the_answer(chunks: Seq<ChunkView>)
    ensures
        faithful(after_chunks(before_all(), chunks)),
    decreases chunks.len(),
{
    if chunks.len() > 0 {
        law_events_tell_the_answer(chunks.drop_last());
        let a = after_chunks(before_all(), chunks.drop_last());
        lemma_faithful_choices(after_usage(a, chunks.last().usage), chunks.last().choices);
    }
}

/// A stream that ends without an error has told of each of its calls exactly once.
pub proof fn law_a_whole_answer_was_announced(chunks: Seq<ChunkView>)
    requires
        end_error(after_chunks(before_all(), chunks).answer) is None,
    ensures
        ({
            let a = after_chunks(before_all(), chunks);
            told_starts(a.events) == a.answer.calls.len()
        }),
{
    law_events_tell_the_answer(chunks);
    lemma_all_announced(after_chunks(before_all(), chunks).answer.calls);
}

proof fn lemma_all_announced(calls: Seq<PartialView>)
    requires
        forall|i: int| 0 <= i < calls.len() ==> (#[trigger] calls[i]).announced_start,
    ensures
        announced(calls) == calls.len(),
    decreases calls.len(),
{
    if calls.len() > 0 {
        lemma_all_announced(calls.drop_last());
    }
}

/// The additions to tool calls in a list of additions to answers: those of the first answer.
pub open spec fn choice_deltas(choices: Seq<ChoiceView>) -> Seq<CallDeltaView>
    decreases choices.len(),
{
    if choices.len() == 0 {
        Seq::empty()
    } else if choices.last().index == 0 {
        choice_deltas(choices.drop_last()) + choices.last().calls
    } else {
        choice_deltas(choices.drop_last())
    }
}

/// The additions to tool calls in a stream, in order.
pub open spec fn stream_deltas(chunks: Seq<ChunkView>) -> Seq<CallDeltaView>
    decreases chunks.len(),
{
    if chunks.len() == 0 {
        Seq::empty()
    } else {
        stream_deltas(chunks.drop_last()) + choice_deltas(chunks.last().choices)
    }
}

/// The arguments that the additions bring to the call at `index`, one behind the other.
pub open spec fn fragments(deltas: Seq<CallDeltaView>, index: int) -> Seq<char>
    decreases deltas.len(),
{
    if deltas.len() == 0 {
        Seq::empty()
    } else if deltas.last().index == index {
        fragments(deltas.drop_last(), index) + deltas.last().arguments
    } else {
        fragments(deltas.drop_last(), index)
    }
}

/// The arguments of each call are what came for it.
pub open spec fn carries(calls: Seq<PartialView>, deltas: Seq<CallDeltaView>) -> bool {
    &&& forall|k: int|
        0 <= k < calls.len() ==> (#[trigger] calls[k]).arguments == fragments(deltas, k)
    &&& forall|k: int| k >= calls.len() ==> #[trigger] fragments(deltas, k) == Seq::<char>::empty()
}

proof fn lemma_carries_deltas(a: Assembly, came: Seq<CallDeltaView>, deltas: Seq<CallDeltaView>)
    requires
        carries(a.answer.calls, came),
        after_deltas(a, deltas).error is None,
    ensures
        a.error is None,
        carries(after_deltas(a, deltas).answer.calls, came + deltas),
    decreases deltas.len(),
{
    if deltas.len() == 0 {
        assert(came + deltas =~= came);
    } else {
        let b = after_deltas(a, deltas.drop_last());
        let delta = deltas.last();
        let all = came + deltas;
        lemma_carries_deltas(a, came, deltas.drop_last());
        assert(all.drop_last() =~= came + deltas.drop_last());
        assert(all.last() == delta);
        let calls = after_delta(b, delta).answer.calls;
        assert forall|k: int| 0 <= k < calls.len() implies (#[trigger] calls[k]).arguments
            == fragments(all, k) by {
            if k < b.answer.calls.len() {
                assert(b.answer.calls[k].arguments == fragments(all.drop_last(), k));
            } else {
                assert(fragments(all.drop_last(), k) == Seq::<char>::empty());
            }
        }
        assert forall|k: int| k >= calls.len() implies #[trigger] fragments(all, k) == Seq::<
            char,
        >::empty() by {
            assert(fragments(all.drop_last(), k) == Seq::<char>::empty());
        }
    }
}

proof fn lemma_carries_choices(a: Assembly, came: Seq<CallDeltaView>, choices: Seq<ChoiceView>)
    requires
        carries(a.answer.calls, came),
        after_choices(a, choices).error is None,
    ensures
        a.error is None,
        carries(after_choices(a, choices).answer.calls, came + choice_deltas(choices)),
    decreases choices.len(),
{
    if choices.len() == 0 {
        assert(came + choice_deltas(choices) =~= came);
    } else {
        let b = after_choices(a, choices.drop_last());
        let choice = choices.last();
        if b.error is Some {
            lemma_error_ends_choice(b, choice);
        }
        lemma_carries_choices(a, came, choices.drop_last());
        if choice.index == 0 {
            let told = after_text(b, choice.content);
            lemma_carries_deltas(told, came + choice_deltas(choices.drop_last()), choice.calls);
            assert(came + choice_deltas(choices) =~= (came + choice_deltas(choices.drop_last()))
                + choice.calls);
        }
    }
}

/// In a stream without an error, the arguments of each call are the fragments that came for it,
/// one behind the other in the order in which they came.
pub proof fn law_arguments_are_what_came(chunks: Seq<ChunkView>)
    requires
        after_chunks(before_all(), chunks).error is None,
    ensures
        carries(after_chunks(before_all(), chunks).answer.calls, stream_deltas(chunks)),
    decreases chunks.len(),
{
    if chunks.len() > 0 {
        let a = after_chunks(before_all(), chunks.drop_last());
        let chunk = chunks.last();
        let counted = after_usage(a, chunk.usage);
        if a.error is Some {
            assert(chunk.choices.take(0) =~= Seq::<ChoiceView>::empty());
            lemma_error_outlasts_choices(counted, chunk.choices, 0);
        }
        law_arguments_are_what_came(chunks.drop_last());
        lemma_carries_choices(counted, stream_deltas(chunks.drop_last()), chunk.choices);
    }
}

/// The contents of the additions to the first answer in a list of additions to answers, in order.
pub open spec fn choice_contents(choices: Seq<ChoiceView>) -> Seq<Seq<char>>
    decreases choices.len(),
{
    if choices.len() == 0 {
        Seq::empty()
    } else if choices.last().index == 0 {
        choice_contents(choices.drop_last()).push(choices.last().content)
    } else {
        choice_contents(choices.drop_last())
    }
}

/// The contents of the additions to the first answer in a stream, in order.
pub open spec fn stream_contents(chunks: Seq<ChunkView>) -> Seq<Seq<char>>
    decreases chunks.len(),
{
    if chunks.len() == 0 {
        Seq::empty()
    } else {
        stream_contents(chunks.drop_last()) + choice_contents(chunks.last().choices)
    }
}

/// Texts one behind the other.
pub open spec fn strung(texts: Seq<Seq<char>>) -> Seq<char>
    decreases texts.len(),
{
    if texts.len() == 0 {
        Seq::empty()
    } else {
        strung(texts.drop_last()) + texts.last()
    }
}

/// The texts of the text events, in order.
pub open spec fn told_texts(events: Seq<ResponseEventView>) -> Seq<Seq<char>>
    decreases events.len(),
{
    if events.len() == 0 {
        Seq::empty()
    } else {
        match events.last() {
            ResponseEventView::TextDelta(t) => told_texts(events.drop_last()).push(t),
            _ => told_texts(events.drop_last()),
        }
    }
}

proof fn lemma_deltas_add_no_text(a: Assembly, deltas: Seq<CallDeltaView>)
    ensures
        after_deltas(a, deltas).answer.text == a.answer.text,
        told_texts(after_deltas(a, deltas).events) == told_texts(a.events),
        after_deltas(a, deltas).answer.finish_reason == a.answer.finish_reason,
        after_deltas(a, deltas).answer.usage == a.answer.usage,
        a.error is Some ==> after_deltas(a, deltas) == a,
    decreases deltas.len(),
{
    if deltas.len() > 0 {
        lemma_deltas_add_no_text(a, deltas.drop_last());
        let b = after_deltas(a, deltas.drop_last());
        let delta = deltas.last();
        let c = after_delta(b, delta);
        if b.error is None && delta.index <= b.answer.calls.len() {
            let calls = opened(b.answer.calls, delta.index as int);
            let call = calls[delta.index as int];
            let told = start_events(call, extended(call, delta));
            if told.len() == 0 {
                assert(c.events =~= b.events);
            } else {
                assert(c.events.drop_last() =~= b.events);
                assert(c.events.last() == told[0]);
            }
        }
    }
}

proof fn lemma_choices_add_contents(a: Assembly, came: Seq<Seq<char>>, choices: Seq<ChoiceView>)
    requires
        a.answer.text == strung(came),
        told_texts(a.events) == came.filter(|t: Seq<char>| t.len() > 0),
        after_choices(a, choices).error is None,
    ensures
        a.error is None,
        after_choices(a, choices).answer.text == strung(came + choice_contents(choices)),
        told_texts(after_choices(a, choices).events) == (came + choice_contents(choices)).filter(
            |t: Seq<char>| t.len() > 0,
        ),
    decreases choices.len(),
{
    if choices.len() == 0 {
        assert(came + choice_contents(choices) =~= came);
    } else {
        let b = after_choices(a, choices.drop_last());
        let choice = choices.last();
        if b.error is Some {
            lemma_error_ends_choice(b, choice);
        }
        lemma_choices_add_contents(a, came, choices.drop_last());
        if choice.index == 0 {
            let told = after_text(b, choice.content);
            lemma_deltas_add_no_text(told, choice.calls);
            let more = came + choice_contents(choices);
            assert(more.drop_last() =~= came + choice_contents(choices.drop_last()));
            assert(more.last() == choice.content);
            reveal(Seq::filter);
            if choice.content.len() > 0 {
                assert(told.events.drop_last() =~= b.events);
            } else {
                assert(strung(more) =~= strung(more.drop_last()));
            }
        }
    }
}

/// In a stream without an error, the text of the answer is the contents of all additions to the
/// first answer, one behind the other in the order in which they came; and each of them was told
/// as it came, but for the empty ones.
pub proof fn law_text_is_what_came(chunks: Seq<ChunkView>)
    requires
        after_chunks(before_all(), chunks).error is None,
    ensures
        after_chunks(before_all(), chunks).answer.text == strung(stream_contents(chunks)),
        told_texts(after_chunks(before_all(), chunks).events) == stream_contents(chunks).filter(
            |t: Seq<char>| t.len() > 0,
        ),
    decreases chunks.len(),
{
    reveal(Seq::filter);
    if chunks.len() > 0 {
        let a = after_chunks(before_all(), chunks.drop_last());
        let chunk = chunks.last();
        let counted = after_usage(a, chunk.usage);
        if a.error is Some {
            assert(chunk.choices.take(0) =~= Seq::<ChoiceView>::empty());
            lemma_error_outlasts_choices(counted, chunk.choices, 0);
        }
        law_text_is_what_came(chunks.drop_last());
        lemma_choices_add_contents(counted, stream_contents(chunks.drop_last()), chunk.choices);
    }
}

/// The identifier that came last for the call at `index`.
pub open spec fn last_id(deltas: Seq<CallDeltaView>, index: int) -> Option<Seq<char>>
    decreases deltas.len(),
{
    if deltas.len() == 0 {
        None
    } else if deltas.last().index == index && deltas.last().id is Some {
        deltas.last().id
    } else {
        last_id(deltas.drop_last(), index)
    }
}

/// The name that came last for the call at `index`.
pub open spec fn last_name(deltas: Seq<CallDeltaView>, index: int) -> Option<Seq<char>>
    decreases deltas.len(),
{
    if deltas.len() == 0 {
        None
    } else if deltas.last().index == index && deltas.last().name is Some {
        deltas.last().name
    } else {
        last_name(deltas.drop_last(), index)
    }
}

/// Something came for the call at `index`.
pub open spec fn came_for(deltas: Seq<CallDeltaView>, index: int) -> bool {
    exists|j: int| 0 <= j < deltas.len() && (#[trigger] deltas[j]).index == index
}

/// Every call but the first is begun only when something has come for the one before it.
pub open spec fn in_order(deltas: Seq<CallDeltaView>) -> bool {
    forall|j: int|
        0 <= j < deltas.len() && (#[trigger] deltas[j]).index > 0 ==> came_for(
            deltas.take(j),
            deltas[j].index - 1,
        )
}

/// What the calls of an answer hold of the additions that came for them.
pub open spec fn gathered(calls: Seq<PartialView>, deltas: Seq<CallDeltaView>) -> bool {
    &&& forall|k: int| 0 <= k < calls.len() <==> #[trigger] came_for(deltas, k)
    &&& forall|k: int|
        0 <= k < calls.len() ==> (#[trigger] calls[k]).id == last_id(deltas, k) && calls[k].name
            == last_name(deltas, k)
    &&& forall|k: int| #[trigger] last_id(deltas, k) is Some ==> came_for(deltas, k)
    &&& forall|k: int| #[trigger] last_name(deltas, k) is Some ==> came_for(deltas, k)
}

/// Each start that was told names a call by an identifier and a name that had come for it.
pub open spec fn starts_are_true(events: Seq<ResponseEventView>, deltas: Seq<CallDeltaView>) -> bool {
    forall|e: int|
        0 <= e < events.len() ==> ((#[trigger] events[e]) matches ResponseEventView::ToolCallStart {
            id,
            name,
        } ==> exists|j: int, k: int|
            0 <= j <= deltas.len() && #[trigger] last_id(deltas.take(j), k) == Some(id)
                && last_name(deltas.take(j), k) == Some(name))
}

proof fn lemma_came_for_more(deltas: Seq<CallDeltaView>, delta: CallDeltaView, k: int)
    ensures
        came_for(deltas.push(delta), k) <==> came_for(deltas, k) || delta.index == k,
{
    let more = deltas.push(delta);
    if came_for(deltas, k) {
        let j = choose|j: int| 0 <= j < deltas.len() && (#[trigger] deltas[j]).index == k;
        assert(more[j].index == k);
    }
    if delta.index == k {
        assert(more[deltas.len() as int].index == k);
    }
    if came_for(more, k) {
        let j = choose|j: int| 0 <= j < more.len() && (#[trigger] more[j]).index == k;
        if j < deltas.len() {
            assert(deltas[j].index == k);
        }
    }
}

proof fn lemma_in_order_more(deltas: Seq<CallDeltaView>, delta: CallDeltaView)
    ensures
        in_order(deltas.push(delta)) <==> in_order(deltas) && (delta.index > 0 ==> came_for(
            deltas,
            delta.index - 1,
        )),
{
    let more = deltas.push(delta);
    assert(more.take(deltas.len() as int) =~= deltas);
    if in_order(more) {
        assert forall|j: int| 0 <= j < deltas.len() && (#[trigger] deltas[j]).index > 0 implies
            came_for(deltas.take(j), deltas[j].index - 1) by {
            assert(more[j] == deltas[j]);
            assert(more.take(j) =~= deltas.take(j));
        }
        assert(more[deltas.len() as int] == delta);
    }
    if in_order(deltas) && (delta.index > 0 ==> came_for(deltas, delta.index - 1)) {
        assert forall|j: int| 0 <= j < more.len() && (#[trigger] more[j]).index > 0 implies
            came_for(more.take(j), more[j].index - 1) by {
            if j < deltas.len() {
                assert(deltas[j] == more[j]);
                assert(more.take(j) =~= deltas.take(j));
            }
        }
    }
}

proof fn lemma_starts_stay_true(
    events: Seq<ResponseEventView>,
    deltas: Seq<CallDeltaView>,
    delta: CallDeltaView,
)
    requires
        starts_are_true(events, deltas),
    ensures
        starts_are_true(events, deltas.push(delta)),
{
    let more = deltas.push(delta);
    assert forall|e: int| 0 <= e < events.len() implies ((#[trigger] events[e]) matches
    ResponseEventView::ToolCallStart { id, name } ==> exists|j: int, k: int|
        0 <= j <= more.len() && #[trigger] last_id(more.take(j), k) == Some(id) && last_name(
            more.take(j),
            k,
        ) == Some(name)) by {
        if let ResponseEventView::ToolCallStart { id, name } = events[e] {
            let (j, k) = choose|j: int, k: int|
                0 <= j <= deltas.len() && #[trigger] last_id(deltas.take(j), k) == Some(id)
                    && last_name(deltas.take(j), k) == Some(name);
            assert(more.take(j) =~= deltas.take(j));
            assert(last_id(more.take(j), k) == Some(id));
        }
    }
}

/// One more addition.
proof fn lemma_gathered_delta(a: Assembly, came: Seq<CallDeltaView>, delta: CallDeltaView)
    requires
        a.error is None,
        in_order(came),
        gathered(a.answer.calls, came),
        starts_are_true(a.events, came),
    ensures
        after_delta(a, delta).error is None <==> in_order(came.push(delta)),
        after_delta(a, delta).error is None ==> gathered(
            after_delta(a, delta).answer.calls,
            came.push(delta),
        ) && starts_are_true(after_delta(a, delta).events, came.push(delta)),
{
    let more = came.push(delta);
    let b = after_delta(a, delta);
    let at = delta.index as int;
    lemma_in_order_more(came, delta);
    assert(came_for(came, at - 1) <==> 0 <= at - 1 < a.answer.calls.len());
    assert(more.drop_last() =~= came);
    if b.error is None {
        let calls = opened(a.answer.calls, at);
        let grown = extended(calls[at], delta);
        assert forall|k: int| 0 <= k < b.answer.calls.len() <==> #[trigger] came_for(more, k) by {
            lemma_came_for_more(came, delta, k);
            assert(came_for(came, k) <==> 0 <= k < a.answer.calls.len());
        }
        assert forall|k: int| 0 <= k < b.answer.calls.len() implies (
        #[trigger] b.answer.calls[k]).id == last_id(more, k) && b.answer.calls[k].name
            == last_name(more, k) by {
            if k == a.answer.calls.len() {
                assert(!came_for(came, k));
                assert(last_id(came, k) is None);
                assert(last_name(came, k) is None);
            } else {
                assert(a.answer.calls[k].id == last_id(came, k));
            }
        }
        assert forall|k: int| #[trigger] last_id(more, k) is Some implies came_for(more, k) by {
            lemma_came_for_more(came, delta, k);
            if last_id(came, k) is Some {
                assert(came_for(came, k));
            }
        }
        assert forall|k: int| #[trigger] last_name(more, k) is Some implies came_for(more, k) by {
            lemma_came_for_more(came, delta, k);
            if last_name(came, k) is Some {
                assert(came_for(came, k));
            }
        }
        lemma_starts_stay_true(a.events, came, delta);
        assert(b.answer.calls[at] == grown);
        assert forall|e: int| 0 <= e < b.events.len() implies ((#[trigger] b.events[e]) matches
        ResponseEventView::ToolCallStart { id, name } ==> exists|j: int, k: int|
            0 <= j <= more.len() && #[trigger] last_id(more.take(j), k) == Some(id) && last_name(
                more.take(j),
                k,
            ) == Some(name)) by {
            if e < a.events.len() {
                assert(b.events[e] == a.events[e]);
            } else if let ResponseEventView::ToolCallStart { id, name } = b.events[e] {
                assert(b.events[e] == start_events(calls[at], grown)[e - a.events.len()]);
                assert(more.take(more.len() as int) =~= more);
                assert(last_id(more.take(more.len() as int), at) == Some(id));
            }
        }
    }
}

proof fn lemma_gathered_deltas(a: Assembly, came: Seq<CallDeltaView>, deltas: Seq<CallDeltaView>)
    requires
        a.error is None,
        in_order(came),
        gathered(a.answer.calls, came),
        starts_are_true(a.events, came),
    ensures
        after_deltas(a, deltas).error is None <==> in_order(came + deltas),
        after_deltas(a, deltas).error is None ==> gathered(
            after_deltas(a, deltas).answer.calls,
            came + deltas,
        ) && starts_are_true(after_deltas(a, deltas).events, came + deltas),
    decreases deltas.len(),
{
    if deltas.len() == 0 {
        assert(came + deltas =~= came);
    } else {
        let before = came + deltas.drop_last();
        lemma_gathered_deltas(a, came, deltas.drop_last());
        assert(came + deltas =~= before.push(deltas.last()));
        lemma_in_order_more(before, deltas.last());
        let b = after_deltas(a, deltas.drop_last());
        if b.error is None {
            lemma_gathered_delta(b, before, deltas.last());
        }
    }
}

proof fn lemma_starts_with_text(
    events: Seq<ResponseEventView>,
    deltas: Seq<CallDeltaView>,
    content: Seq<char>,
)
    requires
        starts_are_true(events, deltas),
    ensures
        starts_are_true(events.push(ResponseEventView::TextDelta(content)), deltas),
{
    let more = events.push(ResponseEventView::TextDelta(content));
    assert forall|e: int| 0 <= e < more.len() implies ((#[trigger] more[e]) matches
    ResponseEventView::ToolCallStart { id, name } ==> exists|j: int, k: int|
        0 <= j <= deltas.len() && #[trigger] last_id(deltas.take(j), k) == Some(id) && last_name(
            deltas.take(j),
            k,
        ) == Some(name)) by {
        if e < events.len() {
            assert(more[e] == events[e]);
        }
    }
}

proof fn lemma_in_order_prefix(a: Seq<CallDeltaView>, b: Seq<CallDeltaView>)
    requires
        in_order(a + b),
    ensures
        in_order(a),
    decreases b.len(),
{
    if b.len() == 0 {
        assert(a + b =~= a);
    } else {
        assert(a + b =~= (a + b.drop_last()).push(b.last()));
        lemma_in_order_more(a + b.drop_last(), b.last());
        lemma_in_order_prefix(a, b.drop_last());
    }
}

proof fn lemma_gathered_choices(a: Assembly, came: Seq<CallDeltaView>, choices: Seq<ChoiceView>)
    requires
        a.error is None,
        in_order(came),
        gathered(a.answer.calls, came),
        starts_are_true(a.events, came),
    ensures
        after_choices(a, choices).error is None <==> in_order(came + choice_deltas(choices)),
        after_choices(a, choices).error is None ==> gathered(
            after_choices(a, choices).answer.calls,
            came + choice_deltas(choices),
        ) && starts_are_true(after_choices(a, choices).events, came + choice_deltas(choices)),
    decreases choices.len(),
{
    if choices.len() == 0 {
        assert(came + choice_deltas(choices) =~= came);
    } else {
        let before = came + choice_deltas(choices.drop_last());
        let b = after_choices(a, choices.drop_last());
        let choice = choices.last();
        lemma_gathered_choices(a, came, choices.drop_last());
        if b.error is Some {
            lemma_error_ends_choice(b, choice);
        }
        if choice.index == 0 {
            assert(came + choice_deltas(choices) =~= before + choice.calls);
            if b.error is Some {
                if in_order(before + choice.calls) {
                    lemma_in_order_prefix(before, choice.calls);
                }
            } else {
                let told = after_text(b, choice.content);
                lemma_starts_with_text(b.events, before, choice.content);
                lemma_gathered_deltas(told, before, choice.calls);
            }
        }
    }
}

/// A stream breaks the protocol if and only if it begins a call before anything has come for the
/// one before it. As long as it does not, there is a call for each index that something came for
/// and no other, under the identifier and the name that came last for it; and each start that was
/// told names a call by an identifier and a name that had come for it.
pub proof fn law_calls_are_what_came(chunks: Seq<ChunkView>)
    ensures
        ({
            let a = after_chunks(before_all(), chunks);
            &&& a.error is None <==> in_order(stream_deltas(chunks))
            &&& a.error is None ==> gathered(a.answer.calls, stream_deltas(chunks))
            &&& a.error is None ==> starts_are_true(a.events, stream_deltas(chunks))
        }),
    decreases chunks.len(),
{
    if chunks.len() > 0 {
        law_calls_are_what_came(chunks.drop_last());
        let a = after_chunks(before_all(), chunks.drop_last());
        let chunk = chunks.last();
        let counted = after_usage(a, chunk.usage);
        let before = stream_deltas(chunks.drop_last());
        if a.error is Some {
            assert(chunk.choices.take(0) =~= Seq::<ChoiceView>::empty());
            lemma_error_outlasts_choices(counted, chunk.choices, 0);
            if in_order(stream_deltas(chunks)) {
                lemma_in_order_prefix(before, choice_deltas(chunk.choices));
            }
        } else {
            lemma_gathered_choices(counted, before, chunk.choices);
        }
    }
}

/// The reason that came last among some additions to answers, for the first answer.
pub open spec fn choice_reason(
    before: Option<FinishReason>,
    choices: Seq<ChoiceView>,
) -> Option<FinishReason>
    decreases choices.len(),
{
    if choices.len() == 0 {
        before
    } else if choices.last().index == 0 && choices.last().finish_reason is Some {
        choices.last().finish_reason
    } else {
        choice_reason(before, choices.drop_last())
    }
}

/// The reason that came last in a stream, for the first answer.
pub open spec fn stream_reason(chunks: Seq<ChunkView>) -> Option<FinishReason>
    decreases chunks.len(),
{
    if chunks.len() == 0 {
        None
    } else {
        choice_reason(stream_reason(chunks.drop_last()), chunks.last().choices)
    }
}

/// The token counts that came last in a stream.
pub open spec fn stream_usage(chunks: Seq<ChunkView>) -> Option<CompletionUsage>
    decreases chunks.len(),
{
    if chunks.len() == 0 {
        None
    } else if chunks.last().usage is Some {
        chunks.last().usage
    } else {
        stream_usage(chunks.drop_last())
    }
}

/// `word` is the word for the reason, where there is one.
pub open spec fn says_why(word: Option<Seq<char>>, reason: Option<FinishReason>) -> bool {
    match reason {
        None => word is None,
        Some(FinishReason::Stop) => word == Some("stop"@),
        Some(FinishReason::Length) => word == Some("length"@),
        Some(FinishReason::ToolCalls) => word == Some("tool_calls"@),
        Some(FinishReason::ContentFilter) => word == Some("content_filter"@),
        Some(FinishReason::FunctionCall) => word == Some("function_call"@),
    }
}

proof fn lemma_choices_give_reason(
    a: Assembly,
    came: Option<FinishReason>,
    choices: Seq<ChoiceView>,
)
    requires
        says_why(a.answer.finish_reason, came),
        after_choices(a, choices).error is None,
    ensures
        a.error is None,
        says_why(after_choices(a, choices).answer.finish_reason, choice_reason(came, choices)),
        after_choices(a, choices).answer.usage == a.answer.usage,
    decreases choices.len(),
{
    if choices.len() > 0 {
        let b = after_choices(a, choices.drop_last());
        let choice = choices.last();
        if b.error is Some {
            lemma_error_ends_choice(b, choice);
        }
        lemma_choices_give_reason(a, came, choices.drop_last());
        if choice.index == 0 {
            lemma_deltas_add_no_text(after_text(b, choice.content), choice.calls);
        }
    }
}

/// In a stream without an error, the finish reason and the token counts are those that came last.
pub proof fn law_the_last_reason_and_counts_stand(chunks: Seq<ChunkView>)
    requires
        after_chunks(before_all(), chunks).error is None,
    ensures
        says_why(
            after_chunks(before_all(), chunks).answer.finish_reason,
            stream_reason(chunks),
        ),
        match stream_usage(chunks) {
            Some(u) => after_chunks(before_all(), chunks).answer.usage == Some(
                TokenUsage {
                    input_tokens: Some(u.prompt_tokens),
                    output_tokens: Some(u.completion_tokens),
                    total_tokens: Some(u.total_tokens),
                },
            ),
            None => after_chunks(before_all(), chunks).answer.usage is None,
        },
    decreases chunks.len(),
{
    if chunks.len() > 0 {
        let a = after_chunks(before_all(), chunks.drop_last());
        let chunk = chunks.last();
        let counted = after_usage(a, chunk.usage);
        if a.error is Some {
            assert(chunk.choices.take(0) =~= Seq::<ChoiceView>::empty());
            lemma_error_outlasts_choices(counted, chunk.choices, 0);
        }
        law_the_last_reason_and_counts_stand(chunks.drop_last());
        lemma_choices_give_reason(
            counted,
            stream_reason(chunks.drop_last()),
            chunk.choices,
        );
    }
}

proof fn lemma_leading_whole(calls: Seq<PartialView>)
    ensures
        leading_whole(calls).len() <= calls.len(),
        leading_whole(calls) == calls.take(leading_whole(calls).len() as int),
        forall|i: int|
            0 <= i < leading_whole(calls).len() ==> (#[trigger] calls[i]).id is Some
                && calls[i].name is Some,
        leading_whole(calls).len() < calls.len() ==> !whole(
            calls[leading_whole(calls).len() as int],
        ),
    decreases calls.len(),
{
    if calls.len() == 0 || !whole(calls[0]) {
        assert(calls.take(0) =~= Seq::<PartialView>::empty());
    } else {
        let rest = calls.skip(1);
        lemma_leading_whole(rest);
        let n = leading_whole(calls).len() as int;
        assert(leading_whole(calls) =~= calls.take(n));
        assert forall|i: int| 0 <= i < n implies (#[trigger] calls[i]).id is Some
            && calls[i].name is Some by {
            if i > 0 {
                assert(calls[i] == rest[i - 1]);
            }
        }
    }
}

/// At the end of a stream each call is told with its identifier, its name and its arguments, in
/// order. Where all of them have an identifier and a name, the answer comes behind: its text first,
/// where there is any, and then the same calls, with the reason and the counts. Else the error
/// names what the first call lacks that lacks something, and that call and those behind it are not
/// told.
pub proof fn law_the_end_tells_the_whole_answer(answer: AnswerView)
    ensures
        ({
            let events = end_events(answer);
            let n = answer.calls.len() as int;
            let texts: int = if answer.text.len() > 0 {
                1
            } else {
                0
            };
            if forall|k: int|
                0 <= k < n ==> (#[trigger] answer.calls[k]).id is Some && answer.calls[k].name
                    is Some {
                &&& end_error(answer) is None
                &&& events.len() == n + 1
                &&& forall|k: int|
                    #![trigger answer.calls[k]]
                    0 <= k < n ==> events[k] == (ResponseEventView::ToolCallDone {
                        id: answer.calls[k].id->0,
                        name: answer.calls[k].name->0,
                        arguments: answer.calls[k].arguments,
                    })
                &&& events[n] matches ResponseEventView::MessageDone(response)
                &&& response.finish_reason == answer.finish_reason
                &&& response.usage == answer.usage
                &&& response.message matches MessageView::Assistant(blocks)
                &&& blocks.len() == texts + n
                &&& texts == 1 ==> blocks[0] == AssistantBlockView::Text(answer.text)
                &&& forall|k: int|
                    #![trigger answer.calls[k]]
                    0 <= k < n ==> blocks[texts + k] == AssistantBlockView::ToolCall(
                        (ToolCallView {
                            id: answer.calls[k].id->0,
                            name: answer.calls[k].name->0,
                            arguments: answer.calls[k].arguments,
                        }),
                    )
            } else {
                &&& 0 <= events.len() < n
                &&& forall|k: int|
                    #![trigger answer.calls[k]]
                    0 <= k < events.len() ==> answer.calls[k].id is Some && answer.calls[k].name
                        is Some && events[k] == (ResponseEventView::ToolCallDone {
                        id: answer.calls[k].id->0,
                        name: answer.calls[k].name->0,
                        arguments: answer.calls[k].arguments,
                    })
                &&& if answer.calls[events.len() as int].id is None {
                    end_error(answer) == Some("tool call id missing at stream end"@)
                } else {
                    &&& answer.calls[events.len() as int].name is None
                    &&& end_error(answer) == Some("tool call name missing at stream end"@)
                }
            }
        }),
{
    let calls = answer.calls;
    lemma_leading_whole(calls);
    let n = leading_whole(calls).len() as int;
    if forall|k: int| 0 <= k < calls.len() ==> (#[trigger] calls[k]).id is Some && calls[k].name is Some {
        assert(all_whole(calls));
        assert(n == calls.len());
    } else {
        let k = choose|k: int|
            0 <= k < calls.len() && !((#[trigger] calls[k]).id is Some && calls[k].name is Some);
        assert(!whole(calls[k]));
        assert(!all_whole(calls));
        assert(n < calls.len()) by {
            if n == calls.len() {
                assert(calls[k].id is Some);
            }
        }
    }
}

/// What comes out of a whole stream is what came in: a message of the assistant whose text is all
/// contents one behind the other, where there is any, and then the calls in order, each with the
/// identifier and the name that came last for it and all fragments of its arguments.
pub proof fn law_a_stream_gives_the_answer_that_came(chunks: Seq<ChunkView>)
    requires
        after_chunks(before_all(), chunks).error is None,
        end_error(after_chunks(before_all(), chunks).answer) is None,
    ensures
        ({
            let deltas = stream_deltas(chunks);
            let said = strung(stream_contents(chunks));
            let texts: int = if said.len() > 0 {
                1
            } else {
                0
            };
            let events = end_events(after_chunks(before_all(), chunks).answer);
            &&& events.len() > 0
            &&& events.last() matches ResponseEventView::MessageDone(response)
            &&& says_why(response.finish_reason, stream_reason(chunks))
            &&& response.message matches MessageView::Assistant(blocks)
            &&& texts == 1 ==> blocks.len() > 0 && blocks[0] == AssistantBlockView::Text(said)
            &&& forall|k: int|
                texts <= k < blocks.len() ==> ((#[trigger] blocks[k]) matches
                    AssistantBlockView::ToolCall(call) && last_id(deltas, k - texts) == Some(
                    call.id,
                ) && last_name(deltas, k - texts) == Some(call.name) && fragments(
                    deltas,
                    k - texts,
                ) == call.arguments)
            &&& forall|k: int| k >= 0 ==> (#[trigger] came_for(deltas, k) <==> texts + k
                < blocks.len())
        }),
{
    let answer = after_chunks(before_all(), chunks).answer;
    law_text_is_what_came(chunks);
    law_calls_are_what_came(chunks);
    law_arguments_are_what_came(chunks);
    law_the_last_reason_and_counts_stand(chunks);
    law_the_end_tells_the_whole_answer(answer);
    let deltas = stream_deltas(chunks);
    let said = strung(stream_contents(chunks));
    let texts: int = if said.len() > 0 {
        1
    } else {
        0
    };
    let n = answer.calls.len() as int;
    let events = end_events(answer);
    assert(events.len() == n + 1);
    assert(events.last() == events[n]);
    let blocks = events[n]->MessageDone_0.message->Assistant_0;
    assert forall|k: int| texts <= k < blocks.len() implies ((#[trigger] blocks[k]) matches
    AssistantBlockView::ToolCall(call) && last_id(deltas, k - texts) == Some(call.id) && last_name(
        deltas,
        k - texts,
    ) == Some(call.name) && fragments(deltas, k - texts) == call.arguments) by {
        let call = answer.calls[k - texts];
        assert(blocks[texts + (k - texts)] == blocks[k]);
        assert(call.arguments == fragments(deltas, k - texts));
        assert(call.id == last_id(deltas, k - texts));
    }
}

} // verus!
