//! The agent: a turn of a conversation, step by step.
//!
//! ```text
//! until the turn is over {
//!     a request goes to the model
//!     its answer streams in, item by item
//!     if it calls tools, they are run and their results go into the session
//!     else the turn is over
//! }
//! ```
//!
//! The agent decides, and the caller acts: every step takes the reply to the last action and
//! gives the next one.

use crate::event::{Event, EventView};
use crate::item;
use crate::item::{Item, ItemEventView, ItemRequestView, ItemView, ModelRequest, ResponseEvent};
use crate::item::TextMessageView;
use crate::model::{
    AssistantBlockView, ModelError, ModelResponseView, ResponseEventView, TokenUsage, ToolCall,
    ToolCallView, ToolResult, ToolResultView, ToolSpecView,
};
use crate::session;
use crate::session::{Session, SessionView};
use crate::text;
use crate::text::IntoText;
use crate::tools;
use crate::tools::{ToolError, ToolRegistry};
use crate::views;
use vstd::prelude::*;

verus! {

broadcast use crate::views::group_views;

// ==================== Operations and outcomes ====================

/// What an agent is asked to do.
#[derive(Debug, PartialEq, Eq)]
pub enum Op {
    /// User text that starts a turn.
    UserTurn(String),
    /// Shut down.
    Shutdown,
}

impl Op {
    /// The operation that starts a turn.
    pub fn user_turn<T: IntoText>(text: T) -> (op: Self)
        ensures
            op matches Op::UserTurn(t) && t@ == text.text(),
    {
        Op::UserTurn(text.into_text())
    }
}

/// How a turn ended.
#[derive(Debug, PartialEq, Eq)]
pub enum TurnOutcome {
    Completed { usage: Option<TokenUsage> },
    Interrupted,
    Failed(String),
    MaxTurnsReached { max_turns: usize },
}

/// What a [`TurnOutcome`] says.
pub enum OutcomeView {
    Completed { usage: Option<TokenUsage> },
    Interrupted,
    Failed(Seq<char>),
    MaxTurnsReached { max_turns: usize },
}

impl View for TurnOutcome {
    type V = OutcomeView;

    open spec fn view(&self) -> OutcomeView {
        match self {
            TurnOutcome::Completed { usage } => OutcomeView::Completed { usage: *usage },
            TurnOutcome::Interrupted => OutcomeView::Interrupted,
            TurnOutcome::Failed(why) => OutcomeView::Failed(why@),
            TurnOutcome::MaxTurnsReached { max_turns } => OutcomeView::MaxTurnsReached {
                max_turns: *max_turns,
            },
        }
    }
}

impl Clone for TurnOutcome {
    fn clone(&self) -> (copy: Self)
        ensures
            copy == *self,
    {
        match self {
            TurnOutcome::Completed { usage } => TurnOutcome::Completed { usage: *usage },
            TurnOutcome::Interrupted => TurnOutcome::Interrupted,
            TurnOutcome::Failed(why) => TurnOutcome::Failed(why.clone()),
            TurnOutcome::MaxTurnsReached { max_turns } => TurnOutcome::MaxTurnsReached {
                max_turns: *max_turns,
            },
        }
    }
}

/// Why an agent cannot be asked.
#[derive(Debug, Clone, Copy, PartialEq, Eq)]
pub enum AgentHandleError {
    Closed,
}

impl AgentHandleError {
    /// The error in words.
    pub fn message(&self) -> (words: String)
        ensures
            words@ == "agent is closed"@,
    {
        "agent is closed".to_owned()
    }
}

// ==================== Actions and replies ====================

/// What the caller of an agent has to do next.
pub enum Action {
    /// Forget every cancellation so far.
    RenewCancel,
    /// See whether the turn was cancelled.
    CheckCancel,
    /// Send the request to the model.
    OpenStream(ModelRequest),
    /// Wait for the next event of the answer.
    NextEvent,
    /// Run the tool that the call names.
    Execute(ToolCall),
    /// Nothing: the turn is over.
    Finish(TurnOutcome),
}

/// What came of an action.
pub enum Reply {
    /// Every cancellation so far is forgotten.
    Renewed,
    /// Whether the turn was cancelled.
    Cancelled(bool),
    /// Whether the request went out.
    Opened(Result<(), ModelError>),
    /// The next event, or the error in its place, or the end of the stream.
    Next(Option<Result<ResponseEvent, ModelError>>),
    /// What the tool returned.
    Returned(Result<String, ToolError>),
}

/// What a [`Reply`] says.
pub enum ReplyView {
    Renewed,
    Cancelled(bool),
    Opened,
    NotOpened(Seq<char>),
    Event(ItemEventView),
    Broken(Seq<char>),
    Ended,
    Returned { content: Seq<char>, is_error: bool },
}

impl View for Reply {
    type V = ReplyView;

    open spec fn view(&self) -> ReplyView {
        match self {
            Reply::Renewed => ReplyView::Renewed,
            Reply::Cancelled(b) => ReplyView::Cancelled(*b),
            Reply::Opened(Ok(_)) => ReplyView::Opened,
            Reply::Opened(Err(e)) => ReplyView::NotOpened(e.words()),
            Reply::Next(Some(Ok(event))) => ReplyView::Event(event@),
            Reply::Next(Some(Err(e))) => ReplyView::Broken(e.words()),
            Reply::Next(None) => ReplyView::Ended,
            Reply::Returned(Ok(content)) => ReplyView::Returned {
                content: content@,
                is_error: false,
            },
            Reply::Returned(Err(e)) => ReplyView::Returned { content: e.words(), is_error: true },
        }
    }
}

// ==================== The state of a turn ====================

/// What a turn waits for.
pub enum Phase {
    /// That the cancellations from before it are forgotten.
    Renewing,
    /// Whether it was cancelled.
    Checking,
    /// Whether the request went out.
    Opening,
    /// The next event of the answer.
    Streaming,
    /// What a tool returns.
    Executing,
    /// Nothing: it is over, or none has begun.
    Over,
}

/// What an agent knows.
pub struct AgentView {
    pub session: SessionView,
    /// The tools on offer.
    pub tools: Seq<ToolSpecView>,
    /// How many requests a turn may make.
    pub max_turns: usize,
    /// How many requests of this turn have been answered, and the calls in the answers run.
    pub turn: usize,
    pub phase: Phase,
    /// The tool calls in the answer that streams in.
    pub calls: Seq<ToolCallView>,
    /// The results of the first of these calls.
    pub results: Seq<ToolResultView>,
    /// What was told.
    pub events: Seq<EventView>,
    /// How the turn ended, where it is over.
    pub outcome: Option<OutcomeView>,
}

/// The words of the error for a stream that ends too early.
pub open spec fn cut_short() -> Seq<char> {
    "stream protocol error: "@ + "stream ended without Completed event"@
}

impl AgentView {
    /// The agent after one more event was told.
    pub open spec fn told(self, event: EventView) -> AgentView {
        AgentView { events: self.events.push(event), ..self }
    }

    /// The agent after its turn ended.
    pub open spec fn over(self, outcome: OutcomeView) -> AgentView {
        AgentView { phase: Phase::Over, outcome: Some(outcome), ..self }
    }

    /// The agent after its turn failed.
    pub open spec fn failed(self, why: Seq<char>) -> AgentView {
        self.told(EventView::Error(why)).over(OutcomeView::Failed(why))
    }

    /// The agent after its turn was interrupted.
    pub open spec fn interrupted(self) -> AgentView {
        self.told(EventView::TurnInterrupted).over(OutcomeView::Interrupted)
    }

    /// The agent where another request is due: it may make one, or the turn ends here.
    pub open spec fn next_round(self) -> AgentView {
        if self.turn < self.max_turns {
            AgentView { phase: Phase::Checking, ..self }
        } else {
            self.told(
                EventView::Error(
                    "max turns reached ("@ + text::decimal_of(self.max_turns as nat) + ")"@,
                ),
            ).over(OutcomeView::MaxTurnsReached { max_turns: self.max_turns })
        }
    }

    /// The agent at the start of a turn on a message of the user.
    pub open spec fn begun(self, text: Seq<char>) -> AgentView {
        AgentView {
            session: self.session.with_item(ItemView::Message(TextMessageView::User(text))),
            turn: 0,
            phase: Phase::Renewing,
            outcome: None,
            ..self
        }
    }

    /// The agent after the cancellations from before the turn were forgotten.
    pub open spec fn renewed(self) -> AgentView {
        self.told(EventView::TurnStarted).next_round()
    }

    /// The agent after the request was made.
    pub open spec fn requested(self) -> AgentView {
        AgentView { session: self.session.within_budget(), phase: Phase::Opening, ..self }
    }

    /// The agent after the whole answer came.
    pub open spec fn answered(self, usage: Option<TokenUsage>) -> AgentView {
        let counted = AgentView {
            session: match usage {
                Some(u) => self.session.with_usage(u),
                None => self.session,
            },
            ..self
        };
        if self.calls.len() == 0 {
            counted.told(EventView::TurnComplete { usage }).over(OutcomeView::Completed { usage })
        } else {
            AgentView { results: Seq::empty(), ..counted }.proceeded()
        }
    }

    /// The agent after an event of the answer.
    pub open spec fn heard(self, event: ItemEventView) -> AgentView {
        match event {
            ItemEventView::TextDelta(t) => self.told(EventView::TextDelta(t)),
            ItemEventView::ToolCallStart { id, name } => self.told(
                EventView::ToolCallBegin { id, name },
            ),
            ItemEventView::TextDone(t) => AgentView {
                session: self.session.with_item(
                    ItemView::Message(TextMessageView::Assistant(t)),
                ),
                ..self
            }.told(EventView::TextDone(t)),
            ItemEventView::ToolCallReady(call) => AgentView {
                session: self.session.with_item(ItemView::ToolCall(call)),
                calls: self.calls.push(call),
                ..self
            },
            ItemEventView::Completed { usage, .. } => self.answered(usage),
            ItemEventView::Cancelled => self.interrupted(),
        }
    }

    /// The first call without a result.
    pub open spec fn due_call(self) -> ToolCallView {
        self.calls[self.results.len() as int]
    }

    /// The agent with the result of the first call that had none.
    pub open spec fn with_result(self, content: Seq<char>, is_error: bool) -> AgentView {
        let call = self.due_call();
        AgentView {
            results: self.results.push(
                ToolResultView {
                    tool_call_id: call.id,
                    tool_name: call.name,
                    content,
                    is_error,
                },
            ),
            ..self
        }.told(
            EventView::ToolCallEnd { id: call.id, name: call.name, output: content, is_error },
        )
    }

    /// The agent when every call has its result: these go into the session, and the model gets to
    /// see them.
    pub open spec fn with_all_results(self) -> AgentView {
        AgentView {
            session: SessionView {
                items: self.session.items + result_items(self.results),
                ..self.session
            },
            turn: (self.turn + 1) as usize,
            ..self
        }.next_round()
    }

    /// The agent as far as it comes with its calls by itself: up to one whose tool is on offer,
    /// which is to be run, or to their end. A call of a tool that is not on offer gets its result
    /// at once.
    pub open spec fn proceeded(self) -> AgentView
        decreases self.calls.len() - self.results.len(),
    {
        if self.results.len() >= self.calls.len() {
            self.with_all_results()
        } else if tools::offers(self.tools, self.due_call().name) {
            AgentView { phase: Phase::Executing, ..self }
        } else {
            self.with_result("unknown tool: "@ + self.due_call().name, true).proceeded()
        }
    }

    /// The agent after a tool returned.
    pub open spec fn executed(self, content: Seq<char>, is_error: bool) -> AgentView {
        self.with_result(content, is_error).proceeded()
    }

    /// The reply is one that the agent waits for. The tokens in it can be counted.
    pub open spec fn awaits(self, reply: ReplyView) -> bool {
        match reply {
            ReplyView::Renewed => self.phase is Renewing,
            ReplyView::Cancelled(_) => self.phase is Checking,
            ReplyView::Opened => self.phase is Opening,
            ReplyView::NotOpened(_) => self.phase is Opening,
            ReplyView::Event(event) => self.phase is Streaming && (
            event matches ItemEventView::Completed { usage: Some(u), .. } ==> u.countable()),
            ReplyView::Broken(_) => self.phase is Streaming,
            ReplyView::Ended => self.phase is Streaming,
            ReplyView::Returned { .. } => self.phase is Executing,
        }
    }

    /// The agent after a reply that it waited for.
    pub open spec fn after(self, reply: ReplyView) -> AgentView {
        match reply {
            ReplyView::Renewed => self.renewed(),
            ReplyView::Cancelled(cancelled) => if cancelled {
                self.interrupted()
            } else {
                self.requested()
            },
            ReplyView::Opened => AgentView {
                calls: Seq::empty(),
                phase: Phase::Streaming,
                ..self
            },
            ReplyView::NotOpened(why) => self.failed(why),
            ReplyView::Event(event) => self.heard(event),
            ReplyView::Broken(why) => self.failed(why),
            ReplyView::Ended => self.failed(cut_short()),
            ReplyView::Returned { content, is_error } => self.executed(content, is_error),
        }
    }

    /// The action that the agent asks for.
    pub open spec fn asks(self, action: Action) -> bool {
        match self.phase {
            Phase::Renewing => action is RenewCancel,
            Phase::Checking => action is CheckCancel,
            Phase::Opening => action matches Action::OpenStream(request) && request@
                == self.session.request(self.tools),
            Phase::Streaming => action is NextEvent,
            Phase::Executing => action matches Action::Execute(call) && call@ == self.due_call(),
            Phase::Over => action matches Action::Finish(outcome) && Some(outcome@)
                == self.outcome,
        }
    }

    /// What holds of an agent at all times.
    pub open spec fn well_formed(self) -> bool {
        &&& self.turn <= self.max_turns
        &&& !(self.phase is Over || self.phase is Renewing) ==> self.turn < self.max_turns
        &&& self.phase is Executing ==> self.results.len() < self.calls.len() && tools::offers(
            self.tools,
            self.due_call().name,
        )
    }
}

/// Results as items of a conversation.
pub open spec fn result_items(results: Seq<ToolResultView>) -> Seq<ItemView> {
    results.map_values(|r: ToolResultView| ItemView::ToolResult(r))
}

// ==================== Agent ====================

/// An agent: a session, the tools on offer, and the state of the turn that is under way.
pub struct Agent<T> {
    session: Session,
    registry: ToolRegistry<T>,
    max_turns: usize,
    turn: usize,
    phase: Phase,
    calls: Vec<ToolCall>,
    results: Vec<ToolResult>,
    events: Vec<Event>,
    outcome: Option<TurnOutcome>,
}

impl<T> View for Agent<T> {
    type V = AgentView;

    closed spec fn view(&self) -> AgentView {
        AgentView {
            session: self.session@,
            tools: tools::shown(self.registry@),
            max_turns: self.max_turns,
            turn: self.turn,
            phase: self.phase,
            calls: views::of(self.calls@),
            results: views::of(self.results@),
            events: views::of(self.events@),
            outcome: views::option(self.outcome),
        }
    }
}

impl<T> Agent<T> {
    /// The tools on offer, and how they are shown.
    pub closed spec fn entries(&self) -> Seq<tools::Entry<T>> {
        self.registry@
    }

    /// An agent on a session, which may make `max_turns` requests in a turn.
    pub fn new(session: Session, registry: ToolRegistry<T>, max_turns: usize) -> (agent: Self)
        ensures
            agent@ == (AgentView {
                session: session@,
                tools: tools::shown(registry@),
                max_turns,
                turn: 0,
                phase: Phase::Over,
                calls: Seq::empty(),
                results: Seq::empty(),
                events: Seq::empty(),
                outcome: None,
            }),
            agent@.well_formed(),
            agent.entries() == registry@,
    {
        Agent {
            session,
            registry,
            max_turns,
            turn: 0,
            phase: Phase::Over,
            calls: Vec::new(),
            results: Vec::new(),
            events: Vec::new(),
            outcome: None,
        }
    }

    /// The session.
    pub fn session(&self) -> (session: &Session)
        ensures
            session@ == self@.session,
    {
        &self.session
    }

    /// The tools on offer.
    pub fn registry(&self) -> (registry: &ToolRegistry<T>)
        ensures
            registry@ == self.entries(),
            tools::shown(registry@) == self@.tools,
    {
        &self.registry
    }

    /// Hands over what was told since the last time.
    pub fn take_events(&mut self) -> (events: Vec<Event>)
        ensures
            views::of(events@) == old(self)@.events,
            final(self)@ == (AgentView { events: Seq::empty(), ..old(self)@ }),
            final(self).entries() == old(self).entries(),
    {
        let mut events: Vec<Event> = Vec::new();
        std::mem::swap(&mut events, &mut self.events);
        events
    }

    /// Tells an event.
    fn emit(&mut self, event: Event)
        ensures
            final(self)@ == old(self)@.told(event@),
            final(self).entries() == old(self).entries(),
    {
        self.events.push(event);
    }

    /// Ends the turn.
    fn end(&mut self, outcome: TurnOutcome) -> (action: Action)
        ensures
            final(self)@ == old(self)@.over(outcome@),
            action == Action::Finish(outcome),
            final(self).entries() == old(self).entries(),
    {
        self.phase = Phase::Over;
        self.outcome = Some(outcome.clone());
        Action::Finish(outcome)
    }

    /// Ends the turn with an error.
    fn fail(&mut self, why: String) -> (action: Action)
        ensures
            final(self)@ == old(self)@.failed(why@),
            final(self)@.asks(action),
            final(self).entries() == old(self).entries(),
    {
        self.emit(Event::Error(why.clone()));
        self.end(TurnOutcome::Failed(why))
    }

    /// Ends the turn as interrupted.
    fn interrupt(&mut self) -> (action: Action)
        ensures
            final(self)@ == old(self)@.interrupted(),
            final(self)@.asks(action),
            final(self).entries() == old(self).entries(),
    {
        self.emit(Event::TurnInterrupted);
        self.end(TurnOutcome::Interrupted)
    }

    /// Asks for another request, or ends the turn where it may not make one.
    fn start_round(&mut self) -> (action: Action)
        ensures
            final(self)@ == old(self)@.next_round(),
            final(self)@.asks(action),
            final(self).entries() == old(self).entries(),
    {
        if self.turn < self.max_turns {
            self.phase = Phase::Checking;
            Action::CheckCancel
        } else {
            let max_turns: usize = self.max_turns;
            let error = text::joined3(
                "max turns reached (",
                text::decimal(max_turns as u128).as_str(),
                ")",
            );
            self.emit(Event::Error(error));
            self.end(TurnOutcome::MaxTurnsReached { max_turns })
        }
    }

    /// Takes an operation: a message of the user starts a turn, and there is nothing to do for a
    /// shutdown.
    pub fn submit(&mut self, op: Op) -> (action: Action)
        ensures
            match op {
                Op::UserTurn(text) => final(self)@ == old(self)@.begun(text@) && final(self)@.asks(
                    action,
                ),
                Op::Shutdown => final(self)@ == old(self)@ && action == Action::Finish(
                    TurnOutcome::Completed { usage: None },
                ),
            },
            old(self)@.well_formed() ==> final(self)@.well_formed(),
            final(self).entries() == old(self).entries(),
    {
        match op {
            Op::UserTurn(text) => {
                self.session.push(Item::user(text));
                self.turn = 0;
                self.phase = Phase::Renewing;
                self.outcome = None;
                Action::RenewCancel
            },
            Op::Shutdown => Action::Finish(TurnOutcome::Completed { usage: None }),
        }
    }

    /// Takes the reply to the last action and gives the next one.
    pub fn advance(&mut self, reply: Reply) -> (action: Action)
        requires
            old(self)@.well_formed(),
            old(self)@.awaits(reply@),
        ensures
            final(self)@ == old(self)@.after(reply@),
            final(self)@.well_formed(),
            final(self)@.asks(action),
            final(self).entries() == old(self).entries(),
    {
        match reply {
            Reply::Renewed => {
                self.emit(Event::TurnStarted);
                self.start_round()
            },
            Reply::Cancelled(cancelled) => {
                if cancelled {
                    return self.interrupt();
                }
                self.session.truncate_to_budget();
                self.phase = Phase::Opening;
                let specs = self.registry.specs();
                Action::OpenStream(self.session.build_request(specs.as_slice()))
            },
            Reply::Opened(Ok(_)) => {
                self.calls = Vec::new();
                self.phase = Phase::Streaming;
                Action::NextEvent
            },
            Reply::Opened(Err(e)) => self.fail(e.message()),
            Reply::Next(Some(Ok(event))) => self.hear(event),
            Reply::Next(Some(Err(e))) => self.fail(e.message()),
            Reply::Next(None) => {
                let e = ModelError::StreamProtocol("stream ended without Completed event");
                self.fail(e.message())
            },
            Reply::Returned(returned) => self.take_returned(returned),
        }
    }

    /// Takes an event of the answer.
    fn hear(&mut self, event: ResponseEvent) -> (action: Action)
        requires
            old(self)@.well_formed(),
            old(self)@.awaits(ReplyView::Event(event@)),
        ensures
            final(self)@ == old(self)@.heard(event@),
            final(self)@.well_formed(),
            final(self)@.asks(action),
            final(self).entries() == old(self).entries(),
    {
        match event {
            ResponseEvent::TextDelta(delta) => {
                self.emit(Event::TextDelta(delta));
                Action::NextEvent
            },
            ResponseEvent::ToolCallStart { id, name } => {
                self.emit(Event::ToolCallBegin { id, name });
                Action::NextEvent
            },
            ResponseEvent::ToolCallReady { id, name, arguments } => {
                let call = ToolCall::new(id, name, arguments);
                self.session.push(Item::tool_call(call.clone()));
                self.calls.push(call);
                Action::NextEvent
            },
            ResponseEvent::Cancelled => self.interrupt(),
            ResponseEvent::TextDone(text) => {
                self.session.push(Item::assistant(&text));
                self.emit(Event::TextDone(text));
                Action::NextEvent
            },
            ResponseEvent::Completed { usage, finish_reason: _ } => {
                match usage {
                    Some(u) => self.session.record_usage(u),
                    None => {},
                }
                if self.calls.len() == 0 {
                    self.emit(Event::TurnComplete { usage });
                    return self.end(TurnOutcome::Completed { usage });
                }
                self.results = Vec::new();
                self.proceed()
            },
        }
    }

    /// Takes what a tool returned, and goes on with the calls.
    fn take_returned(&mut self, returned: Result<String, ToolError>) -> (action: Action)
        requires
            old(self)@.well_formed(),
            old(self)@.phase is Executing,
        ensures
            final(self)@ == (match returned {
                Ok(content) => old(self)@.executed(content@, false),
                Err(e) => old(self)@.executed(e.words(), true),
            }),
            final(self)@.well_formed(),
            final(self)@.asks(action),
            final(self).entries() == old(self).entries(),
    {
        let call = self.calls[self.results.len()].clone();
        proof {
            assert(call@ == self@.due_call());
            tools::law_what_is_shown_is_found(self.registry@, call.name@);
        }
        let result = self.registry.execute(&call.id, call.name.as_str(), returned);
        self.keep_result(call, result);
        self.proceed()
    }

    /// Keeps the result of the first call that has none, and tells of it.
    fn keep_result(&mut self, call: ToolCall, result: ToolResult)
        requires
            call@ == old(self)@.due_call(),
            result@.tool_call_id == call@.id,
            result@.tool_name == call@.name,
        ensures
            final(self)@ == old(self)@.with_result(result@.content, result@.is_error),
            final(self).entries() == old(self).entries(),
    {
        let is_error: bool = result.is_error;
        self.emit(
            Event::ToolCallEnd {
                id: call.id,
                name: call.name,
                output: result.content.clone(),
                is_error,
            },
        );
        self.results.push(result);
    }

    /// Goes on with the calls: up to one whose tool is on offer, which is to be run, or to their
    /// end. A call of a tool that is not on offer gets its result at once.
    fn proceed(&mut self) -> (action: Action)
        requires
            old(self)@.turn < old(self)@.max_turns,
        ensures
            final(self)@ == old(self)@.proceeded(),
            final(self)@.well_formed(),
            final(self)@.asks(action),
            final(self).entries() == old(self).entries(),
    {
        let ghost all = self@.proceeded();
        while self.results.len() < self.calls.len()
            invariant
                all == old(self)@.proceeded(),
                self@.proceeded() == all,
                self@.turn < self@.max_turns,
                self.entries() == old(self).entries(),
            decreases self@.calls.len() - self@.results.len(),
        {
            let call = self.calls[self.results.len()].clone();
            proof {
                assert(call@ == self@.due_call());
                tools::law_what_is_shown_is_found(self.registry@, call.name@);
            }
            if self.registry.contains(call.name.as_str()) {
                self.phase = Phase::Executing;
                return Action::Execute(call);
            }
            let result = ToolResult::error(
                &call.id,
                &call.name,
                text::joined("unknown tool: ", call.name.as_str()),
            );
            self.keep_result(call, result);
        }
        self.end_calls()
    }

    /// Puts the results of the calls into the session, and asks for another request.
    fn end_calls(&mut self) -> (action: Action)
        requires
            old(self)@.turn < old(self)@.max_turns,
        ensures
            final(self)@ == old(self)@.with_all_results(),
            final(self)@.well_formed(),
            final(self)@.asks(action),
            final(self).entries() == old(self).entries(),
    {
        let ghost before = self@;
        let ghost items = before.session.items;
        let ghost results = before.results;
        assert(items + result_items(results.take(0)) =~= items);
        let n: usize = self.results.len();
        for i in 0..n
            invariant
                n == results.len(),
                results == views::of(self.results@),
                self.entries() == old(self).entries(),
                self@ == (AgentView {
                    session: SessionView {
                        items: items + result_items(results.take(i as int)),
                        ..before.session
                    },
                    ..before
                }),
        {
            self.session.push(Item::tool_result(self.results[i].clone()));
            proof {
                assert(items + result_items(results.take(i + 1)) =~= (items + result_items(
                    results.take(i as int),
                )).push(ItemView::ToolResult(results[i as int])));
            }
        }
        assert(results.take(results.len() as int) =~= results);
        self.turn = self.turn + 1;
        self.start_round()
    }

    /// Takes what came over the operation channel: a turn to run, or the end.
    pub fn next_op(&mut self, op: Option<Op>) -> (step: OpStep)
        ensures
            match op {
                Some(Op::UserTurn(text)) => {
                    &&& step matches OpStep::Turn(action) && final(self)@.asks(action)
                    &&& final(self)@ == old(self)@.begun(text@)
                },
                Some(Op::Shutdown) => step == (OpStep::Stop { cancel: true }) && final(self)@
                    == old(self)@,
                None => step == (OpStep::Stop { cancel: false }) && final(self)@ == old(self)@,
            },
            old(self)@.well_formed() ==> final(self)@.well_formed(),
            final(self).entries() == old(self).entries(),
    {
        match op {
            Some(Op::UserTurn(text)) => OpStep::Turn(self.submit(Op::UserTurn(text))),
            Some(Op::Shutdown) => OpStep::Stop { cancel: true },
            None => OpStep::Stop { cancel: false },
        }
    }
}

/// What the loop over operations does next.
pub enum OpStep {
    /// Runs a turn that starts with the action.
    Turn(Action),
    /// Ends, and first cancels what is under way where that was asked for.
    Stop { cancel: bool },
}

// ==================== Runs ====================

/// The agent after some replies.
pub open spec fn run(a: AgentView, replies: Seq<ReplyView>) -> AgentView
    decreases replies.len(),
{
    if replies.len() == 0 {
        a
    } else {
        run(a, replies.drop_last()).after(replies.last())
    }
}

/// The agent waits for each of the replies when it comes.
pub open spec fn fits(a: AgentView, replies: Seq<ReplyView>) -> bool
    decreases replies.len(),
{
    replies.len() > 0 ==> {
        &&& fits(a, replies.drop_last())
        &&& run(a, replies.drop_last()).awaits(replies.last())
    }
}

/// The event tells that a turn is over.
pub open spec fn is_ending(event: EventView) -> bool {
    event is TurnComplete || event is TurnInterrupted || event is Error
}

/// The event tells of the outcome.
pub open spec fn tells_of(event: EventView, outcome: OutcomeView) -> bool {
    match outcome {
        OutcomeView::Completed { usage } => event == (EventView::TurnComplete { usage }),
        OutcomeView::Interrupted => event is TurnInterrupted,
        OutcomeView::Failed(why) => event == EventView::Error(why),
        OutcomeView::MaxTurnsReached { max_turns } => event == EventView::Error(
            "max turns reached ("@ + text::decimal_of(max_turns as nat) + ")"@,
        ),
    }
}

/// What was told from `start` on is one turn: it begins with its start; while it is under way no
/// end is told, and when it is over the last event, and no other, tells of its outcome.
pub open spec fn tells_one_turn(a: AgentView, start: int) -> bool {
    &&& 0 <= start < a.events.len()
    &&& a.events[start] == EventView::TurnStarted
    &&& forall|i: int| start <= i < a.events.len() - 1 ==> !is_ending(#[trigger] a.events[i])
    &&& if a.phase is Over {
        a.outcome matches Some(outcome) && tells_of(a.events.last(), outcome)
    } else {
        a.outcome is None && !is_ending(a.events.last())
    }
}

/// The number of requests that the replies let go out.
pub open spec fn requests(replies: Seq<ReplyView>) -> nat
    decreases replies.len(),
{
    if replies.len() == 0 {
        0
    } else if replies.last() == ReplyView::Cancelled(false) {
        requests(replies.drop_last()) + 1
    } else {
        requests(replies.drop_last())
    }
}

/// The text is the latest that the user said.
pub open spec fn latest_said(items: Seq<ItemView>, text: Seq<char>) -> bool {
    exists|k: int|
        {
            &&& 0 <= k < items.len()
            &&& #[trigger] items[k] == ItemView::Message(TextMessageView::User(text))
            &&& forall|i: int| k < i < items.len() ==> !(#[trigger] items[i]).is_user()
        }
}

/// Each result is that of the call in its place.
pub open spec fn answers(results: Seq<ToolResultView>, calls: Seq<ToolCallView>) -> bool {
    &&& results.len() <= calls.len()
    &&& forall|i: int|
        0 <= i < results.len() ==> (#[trigger] results[i]).tool_call_id == calls[i].id
            && results[i].tool_name == calls[i].name
}

// ==================== Laws ====================

proof fn lemma_one_more_event(a: AgentView, start: int, event: EventView)
    requires
        tells_one_turn(a, start),
        !(a.phase is Over),
    ensures
        a.told(event).events[start] == EventView::TurnStarted,
        forall|i: int|
            start <= i < a.told(event).events.len() - 1 ==> !is_ending(
                #[trigger] a.told(event).events[i],
            ),
{
    let events = a.told(event).events;
    assert forall|i: int| start <= i < events.len() - 1 implies !is_ending(
        #[trigger] events[i],
    ) by {
        assert(events[i] == a.events[i]);
        if i == a.events.len() - 1 {
            assert(a.events[i] == a.events.last());
        }
    }
}

proof fn lemma_proceeding_tells_one_turn(a: AgentView, start: int)
    requires
        tells_one_turn(a, start),
        !(a.phase is Over),
    ensures
        tells_one_turn(a.proceeded(), start),
    decreases a.calls.len() - a.results.len(),
{
    if a.results.len() >= a.calls.len() {
        let c = AgentView {
            session: SessionView {
                items: a.session.items + result_items(a.results),
                ..a.session
            },
            turn: (a.turn + 1) as usize,
            ..a
        };
        assert(tells_one_turn(c, start));
        lemma_round_tells_one_turn(c, start);
    } else if !tools::offers(a.tools, a.due_call().name) {
        let why = "unknown tool: "@ + a.due_call().name;
        lemma_result_tells_one_turn(a, start, why, true);
        lemma_proceeding_tells_one_turn(a.with_result(why, true), start);
    }
}

proof fn lemma_round_tells_one_turn(a: AgentView, start: int)
    requires
        tells_one_turn(a, start),
        !(a.phase is Over),
    ensures
        tells_one_turn(a.next_round(), start),
{
    if a.turn >= a.max_turns {
        lemma_one_more_event(
            a,
            start,
            EventView::Error(
                "max turns reached ("@ + text::decimal_of(a.max_turns as nat) + ")"@,
            ),
        );
    }
}

proof fn lemma_result_tells_one_turn(
    a: AgentView,
    start: int,
    content: Seq<char>,
    is_error: bool,
)
    requires
        tells_one_turn(a, start),
        !(a.phase is Over),
    ensures
        tells_one_turn(a.with_result(content, is_error), start),
{
    lemma_one_more_event(a, start, a.with_result(content, is_error).events.last());
}

proof fn lemma_step_tells_one_turn(a: AgentView, start: int, reply: ReplyView)
    requires
        tells_one_turn(a, start),
        !(a.phase is Renewing),
        a.awaits(reply),
    ensures
        tells_one_turn(a.after(reply), start),
{
    let b = a.after(reply);
    match reply {
        ReplyView::Returned { content, is_error } => {
            lemma_result_tells_one_turn(a, start, content, is_error);
            lemma_proceeding_tells_one_turn(a.with_result(content, is_error), start);
        },
        _ => {
            if a.calls.len() > 0 && (reply matches ReplyView::Event(event) && event is Completed) {
                let usage = reply->Event_0->usage;
                let d = AgentView {
                    session: match usage {
                        Some(u) => a.session.with_usage(u),
                        None => a.session,
                    },
                    results: Seq::empty(),
                    ..a
                };
                assert(tells_one_turn(d, start));
                lemma_proceeding_tells_one_turn(d, start);
            } else if b.events.len() > a.events.len() {
                lemma_one_more_event(a, start, b.events.last());
                assert(b.events =~= a.told(b.events.last()).events);
            } else {
                assert(b.events =~= a.events);
            }
        },
    }
}

/// Whatever comes, a turn tells that it started, tells nothing of an end while it is under way,
/// and tells its outcome exactly once, last of all. Before the cancellations from before it are
/// forgotten, it tells nothing.
pub proof fn law_a_turn_tells_one_ending(a: AgentView, said: Seq<char>, replies: Seq<ReplyView>)
    requires
        fits(a.begun(said), replies),
    ensures
        ({
            let b = run(a.begun(said), replies);
            if b.phase is Renewing {
                b.events == a.events && b.outcome is None
            } else {
                tells_one_turn(b, a.events.len() as int)
            }
        }),
    decreases replies.len(),
{
    let start = a.events.len() as int;
    if replies.len() > 0 {
        law_a_turn_tells_one_ending(a, said, replies.drop_last());
        law_a_turn_renews_first(a, said, replies);
        let b = run(a.begun(said), replies.drop_last());
        if b.phase is Renewing {
            let c = AgentView { phase: Phase::Checking, ..b }.told(EventView::TurnStarted);
            assert(tells_one_turn(c, start));
            lemma_round_tells_one_turn(c, start);
            assert(b.renewed() == c.next_round());
        } else {
            lemma_step_tells_one_turn(b, start, replies.last());
        }
    }
}

proof fn lemma_proceeding(a: AgentView)
    requires
        a.turn < a.max_turns,
    ensures
        ({
            let b = a.proceeded();
            &&& b.well_formed()
            &&& b.max_turns == a.max_turns
            &&& b.tools == a.tools
            &&& b.calls == a.calls
            &&& match b.phase {
                Phase::Executing => b.turn == a.turn,
                Phase::Checking => b.turn == a.turn + 1,
                Phase::Over => true,
                _ => false,
            }
        }),
    decreases a.calls.len() - a.results.len(),
{
    if a.results.len() < a.calls.len() && !tools::offers(a.tools, a.due_call().name) {
        lemma_proceeding(a.with_result("unknown tool: "@ + a.due_call().name, true));
    }
}

proof fn lemma_requests(a: AgentView, said: Seq<char>, replies: Seq<ReplyView>)
    requires
        fits(a.begun(said), replies),
    ensures
        ({
            let b = run(a.begun(said), replies);
            &&& b.well_formed()
            &&& b.max_turns == a.max_turns
            &&& b.tools == a.tools
            &&& match b.phase {
                Phase::Renewing => requests(replies) == 0 && b.turn == 0,
                Phase::Checking => requests(replies) == b.turn,
                Phase::Over => requests(replies) <= b.max_turns,
                _ => requests(replies) == b.turn + 1,
            }
        }),
    decreases replies.len(),
{
    if replies.len() > 0 {
        lemma_requests(a, said, replies.drop_last());
        let b = run(a.begun(said), replies.drop_last());
        match replies.last() {
            ReplyView::Returned { content, is_error } => {
                lemma_proceeding(b.with_result(content, is_error));
            },
            ReplyView::Event(ItemEventView::Completed { usage, .. }) => {
                lemma_proceeding(
                    AgentView {
                        session: match usage {
                            Some(u) => b.session.with_usage(u),
                            None => b.session,
                        },
                        results: Seq::empty(),
                        ..b
                    },
                );
            },
            _ => {},
        }
    }
}

/// A turn sends no more requests to the model than it may.
pub proof fn law_a_turn_keeps_its_limit(a: AgentView, said: Seq<char>, replies: Seq<ReplyView>)
    requires
        fits(a.begun(said), replies),
    ensures
        requests(replies) <= a.max_turns,
{
    lemma_requests(a, said, replies);
}

proof fn lemma_push_keeps_latest(items: Seq<ItemView>, said: Seq<char>, item: ItemView)
    requires
        latest_said(items, said),
        !item.is_user(),
    ensures
        latest_said(items.push(item), said),
{
    let k = choose|k: int|
        {
            &&& 0 <= k < items.len()
            &&& #[trigger] items[k] == ItemView::Message(TextMessageView::User(said))
            &&& forall|i: int| k < i < items.len() ==> !(#[trigger] items[i]).is_user()
        };
    let more = items.push(item);
    assert(more[k] == items[k]);
    assert forall|i: int| k < i < more.len() implies !(#[trigger] more[i]).is_user() by {
        if i < items.len() {
            assert(more[i] == items[i]);
        }
    }
}

proof fn lemma_results_keep_latest(
    items: Seq<ItemView>,
    said: Seq<char>,
    results: Seq<ToolResultView>,
)
    requires
        latest_said(items, said),
    ensures
        latest_said(items + result_items(results), said),
    decreases results.len(),
{
    if results.len() == 0 {
        assert(items + result_items(results) =~= items);
    } else {
        lemma_results_keep_latest(items, said, results.drop_last());
        let before = items + result_items(results.drop_last());
        lemma_push_keeps_latest(before, said, ItemView::ToolResult(results.last()));
        assert(items + result_items(results) =~= before.push(ItemView::ToolResult(results.last())));
    }
}

proof fn lemma_truncating_keeps_latest(items: Seq<ItemView>, said: Seq<char>, budget: nat)
    requires
        latest_said(items, said),
    ensures
        latest_said(session::truncated(items, budget), said),
{
    let k = choose|k: int|
        {
            &&& 0 <= k < items.len()
            &&& #[trigger] items[k] == ItemView::Message(TextMessageView::User(said))
            &&& forall|i: int| k < i < items.len() ==> !(#[trigger] items[i]).is_user()
        };
    session::law_truncation_keeps_the_latest_user_message(items, budget, k);
    session::law_truncation_drops_the_oldest(items, budget);
    let left = session::truncated(items, budget);
    let gone = items.len() - left.len();
    assert(left[k - gone] == items[k]);
    assert forall|i: int| k - gone < i < left.len() implies !(#[trigger] left[i]).is_user() by {
        assert(left[i] == items[i + gone]);
    }
}

proof fn lemma_proceeding_keeps_latest(a: AgentView, said: Seq<char>)
    requires
        latest_said(a.session.items, said),
    ensures
        latest_said(a.proceeded().session.items, said),
    decreases a.calls.len() - a.results.len(),
{
    if a.results.len() >= a.calls.len() {
        lemma_results_keep_latest(a.session.items, said, a.results);
    } else if !tools::offers(a.tools, a.due_call().name) {
        lemma_proceeding_keeps_latest(
            a.with_result("unknown tool: "@ + a.due_call().name, true),
            said,
        );
    }
}

/// All through a turn the session holds what the user said to start it, as the latest that the
/// user said, however much is dropped to keep the budget. So every request of the turn carries it.
pub proof fn law_a_turn_never_forgets_the_question(
    a: AgentView,
    said: Seq<char>,
    replies: Seq<ReplyView>,
)
    requires
        fits(a.begun(said), replies),
    ensures
        latest_said(run(a.begun(said), replies).session.items, said),
    decreases replies.len(),
{
    if replies.len() == 0 {
        let items = a.begun(said).session.items;
        assert(items[a.session.items.len() as int] == ItemView::Message(
            TextMessageView::User(said),
        ));
    } else {
        law_a_turn_never_forgets_the_question(a, said, replies.drop_last());
        let b = run(a.begun(said), replies.drop_last());
        let items = b.session.items;
        match replies.last() {
            ReplyView::Cancelled(cancelled) => {
                lemma_truncating_keeps_latest(items, said, b.session.max_context_tokens as nat);
            },
            ReplyView::Event(ItemEventView::TextDone(t)) => {
                lemma_push_keeps_latest(
                    items,
                    said,
                    ItemView::Message(TextMessageView::Assistant(t)),
                );
            },
            ReplyView::Event(ItemEventView::ToolCallReady(call)) => {
                lemma_push_keeps_latest(items, said, ItemView::ToolCall(call));
            },
            ReplyView::Event(ItemEventView::Completed { usage, .. }) => {
                lemma_proceeding_keeps_latest(
                    AgentView {
                        session: match usage {
                            Some(u) => b.session.with_usage(u),
                            None => b.session,
                        },
                        results: Seq::empty(),
                        ..b
                    },
                    said,
                );
            },
            ReplyView::Returned { content, is_error } => {
                lemma_proceeding_keeps_latest(b.with_result(content, is_error), said);
            },
            _ => {},
        }
    }
}

/// A request that goes out keeps the budget, or nothing more may be dropped of it, and the system
/// prompt stands in front of it.
pub proof fn law_a_request_keeps_the_budget(a: AgentView)
    ensures
        ({
            let b = a.requested();
            let request = b.session.request(b.tools);
            &&& request.items[0] == ItemView::Message(
                TextMessageView::System(a.session.system_prompt),
            )
            &&& session::settled(
                request.items.skip(1),
                a.session.max_context_tokens as nat,
            )
        }),
{
    let b = a.requested();
    session::law_truncation_settles(a.session.items, a.session.max_context_tokens as nat);
    assert(b.session.request(b.tools).items.skip(1) =~= b.session.items);
}

/// The tools that an agent shows to the model are those that it holds.
pub proof fn law_what_is_shown_is_held<T>(agent: Agent<T>)
    ensures
        agent@.tools == tools::shown(agent.entries()),
{
}

/// The agent asks for a tool to be run only if the tool is on offer.
pub proof fn law_only_known_tools_run(
    a: AgentView,
    said: Seq<char>,
    replies: Seq<ReplyView>,
    action: Action,
)
    requires
        fits(a.begun(said), replies),
        run(a.begun(said), replies).asks(action),
    ensures
        action matches Action::Execute(call) ==> tools::offers(a.tools, call@.name),
{
    lemma_requests(a, said, replies);
}

proof fn lemma_proceeding_answers(a: AgentView)
    requires
        answers(a.results, a.calls),
    ensures
        ({
            let b = a.proceeded();
            &&& b.calls == a.calls
            &&& answers(b.results, a.calls)
            &&& if b.phase is Executing {
                b.session == a.session
            } else {
                &&& b.results.len() == a.calls.len()
                &&& b.session.items == a.session.items + result_items(b.results)
            }
        }),
    decreases a.calls.len() - a.results.len(),
{
    if a.results.len() < a.calls.len() && !tools::offers(a.tools, a.due_call().name) {
        lemma_proceeding_answers(a.with_result("unknown tool: "@ + a.due_call().name, true));
    }
}

/// In every state of a turn the results that are there belong to the calls in their places.
pub proof fn law_results_answer_their_calls(
    a: AgentView,
    said: Seq<char>,
    replies: Seq<ReplyView>,
)
    requires
        fits(a.begun(said), replies),
    ensures
        ({
            let b = run(a.begun(said), replies);
            b.phase is Executing ==> answers(b.results, b.calls)
        }),
    decreases replies.len(),
{
    if replies.len() > 0 {
        law_results_answer_their_calls(a, said, replies.drop_last());
        lemma_requests(a, said, replies.drop_last());
        lemma_step_answers(run(a.begun(said), replies.drop_last()), replies.last());
    }
}

/// The reply leads on to the calls of an answer: the answer is whole and has some, or a tool
/// returned.
pub open spec fn leads_to_calls(a: AgentView, reply: ReplyView) -> bool {
    ||| reply is Returned
    ||| (reply matches ReplyView::Event(event) && event is Completed && a.calls.len() > 0)
}

proof fn lemma_step_answers(a: AgentView, reply: ReplyView)
    requires
        a.well_formed(),
        a.awaits(reply),
        a.phase is Executing ==> answers(a.results, a.calls),
    ensures
        ({
            let b = a.after(reply);
            &&& b.phase is Executing ==> answers(b.results, b.calls)
            &&& leads_to_calls(a, reply) && !(b.phase is Executing) ==> {
                &&& b.results.len() == a.calls.len()
                &&& answers(b.results, a.calls)
                &&& b.session.items == a.session.items + result_items(b.results)
            }
        }),
{
    match reply {
        ReplyView::Returned { content, is_error } => {
            lemma_proceeding_answers(a.with_result(content, is_error));
        },
        ReplyView::Event(ItemEventView::Completed { usage, .. }) => {
            lemma_proceeding_answers(
                AgentView {
                    session: match usage {
                        Some(u) => a.session.with_usage(u),
                        None => a.session,
                    },
                    results: Seq::empty(),
                    ..a
                },
            );
        },
        _ => {},
    }
}

/// When the calls of an answer are done with, the session holds a result for each of them, in
/// their order, behind all that it held.
pub proof fn law_every_call_gets_its_result(
    a: AgentView,
    said: Seq<char>,
    replies: Seq<ReplyView>,
    reply: ReplyView,
)
    requires
        fits(a.begun(said), replies),
        run(a.begun(said), replies).awaits(reply),
        leads_to_calls(run(a.begun(said), replies), reply),
        !(run(a.begun(said), replies).after(reply).phase is Executing),
    ensures
        ({
            let b = run(a.begun(said), replies);
            let c = b.after(reply);
            &&& c.results.len() == b.calls.len()
            &&& answers(c.results, b.calls)
            &&& c.session.items == b.session.items + result_items(c.results)
        }),
{
    law_results_answer_their_calls(a, said, replies);
    lemma_requests(a, said, replies);
    lemma_step_answers(run(a.begun(said), replies), reply);
}

/// An answer that is cut off leaves nothing of its unfinished parts in the session: the events
/// that tell of progress do not touch it, and neither does an end by interruption or error.
pub proof fn law_unfinished_parts_are_not_kept(a: AgentView, reply: ReplyView)
    requires
        match reply {
            ReplyView::Event(event) => event is TextDelta || event is ToolCallStart
                || event is Cancelled,
            ReplyView::Broken(_) => true,
            ReplyView::Ended => true,
            ReplyView::NotOpened(_) => true,
            ReplyView::Cancelled(cancelled) => cancelled,
            _ => false,
        },
    ensures
        a.after(reply).session == a.session,
{
}

/// The agent with `told` in front of what it told.
pub open spec fn behind(told: Seq<EventView>, a: AgentView) -> AgentView {
    AgentView { events: told + a.events, ..a }
}

proof fn lemma_proceeding_behind(told: Seq<EventView>, a: AgentView)
    ensures
        behind(told, a).proceeded() == behind(told, a.proceeded()),
    decreases a.calls.len() - a.results.len(),
{
    if a.results.len() >= a.calls.len() {
        assert(behind(told, a).proceeded().events =~= told + a.proceeded().events);
    } else if !tools::offers(a.tools, a.due_call().name) {
        let why = "unknown tool: "@ + a.due_call().name;
        assert(behind(told, a).with_result(why, true).events =~= told + a.with_result(
            why,
            true,
        ).events);
        lemma_proceeding_behind(told, a.with_result(why, true));
    }
}

/// What is told in a step does not depend on what was told before, and comes behind it. So the
/// events may be handed over at any time.
pub proof fn law_telling_adds_up(a: AgentView, reply: ReplyView)
    ensures
        a.after(reply) == behind(
            a.events,
            (AgentView { events: Seq::empty(), ..a }).after(reply),
        ),
{
    let fresh = AgentView { events: Seq::empty(), ..a };
    assert(a == behind(a.events, fresh)) by {
        assert(a.events + fresh.events =~= a.events);
    }
    match reply {
        ReplyView::Returned { content, is_error } => {
            assert(a.with_result(content, is_error).events =~= a.events + fresh.with_result(
                content,
                is_error,
            ).events);
            lemma_proceeding_behind(a.events, fresh.with_result(content, is_error));
        },
        _ => {
            if let ReplyView::Event(ItemEventView::Completed { usage, .. }) = reply {
                lemma_proceeding_behind(
                    a.events,
                    AgentView {
                        session: match usage {
                            Some(u) => fresh.session.with_usage(u),
                            None => fresh.session,
                        },
                        results: Seq::empty(),
                        ..fresh
                    },
                );
            }
            assert(a.after(reply).events =~= a.events + fresh.after(reply).events);
        },
    }
}

// ==================== Cancelling ====================

/// Whether there is a cancellation after some replies. `before` says whether there was one before
/// them, and `cancels` in which places someone cancelled while the reply was waited for.
pub open spec fn is_cancelled(before: bool, replies: Seq<ReplyView>, cancels: Set<int>) -> bool
    decreases replies.len(),
{
    if replies.len() == 0 {
        before
    } else if replies.last() is Renewed {
        false
    } else {
        is_cancelled(before, replies.drop_last(), cancels) || cancels.contains(replies.len() - 1)
    }
}

/// The replies that say whether there is a cancellation are true.
pub open spec fn cancellations_are_true(
    before: bool,
    replies: Seq<ReplyView>,
    cancels: Set<int>,
) -> bool
    decreases replies.len(),
{
    replies.len() > 0 ==> {
        &&& cancellations_are_true(before, replies.drop_last(), cancels)
        &&& replies.last() matches ReplyView::Cancelled(cancelled) ==> cancelled == is_cancelled(
            before,
            replies,
            cancels,
        )
    }
}

/// Every turn first has the cancellations from before it forgotten, and does so once. It does not
/// ask whether it was cancelled before that.
pub proof fn law_a_turn_renews_first(a: AgentView, said: Seq<char>, replies: Seq<ReplyView>)
    requires
        fits(a.begun(said), replies),
    ensures
        run(a.begun(said), replies).phase is Renewing <==> replies.len() == 0,
        replies.len() > 0 ==> replies[0] is Renewed,
        forall|i: int| 0 < i < replies.len() ==> !((#[trigger] replies[i]) is Renewed),
        forall|action: Action|
            #![trigger run(a.begun(said), replies).asks(action)]
            run(a.begun(said), replies).asks(action) && action is CheckCancel ==> replies.len() > 0
                && replies[0] is Renewed,
    decreases replies.len(),
{
    if replies.len() > 0 {
        let rest = replies.drop_last();
        law_a_turn_renews_first(a, said, rest);
        lemma_requests(a, said, rest);
        lemma_requests(a, said, replies);
        let b = run(a.begun(said), rest);
        match replies.last() {
            ReplyView::Returned { content, is_error } => {
                lemma_proceeding(b.with_result(content, is_error));
            },
            ReplyView::Event(ItemEventView::Completed { usage, .. }) => {
                lemma_proceeding(
                    AgentView {
                        session: match usage {
                            Some(u) => b.session.with_usage(u),
                            None => b.session,
                        },
                        results: Seq::empty(),
                        ..b
                    },
                );
            },
            _ => {},
        }
        if rest.len() > 0 {
            assert(replies[0] == rest[0]);
        }
        assert forall|i: int| 0 < i < replies.len() implies !((
        #[trigger] replies[i]) is Renewed) by {
            if i < rest.len() {
                assert(replies[i] == rest[i]);
            }
        }
    }
}

/// A cancellation from before a turn does not leak into it: whether there was one makes no
/// difference to whether the turn counts as cancelled at any time, nor to what it is told.
pub proof fn law_an_old_cancellation_does_not_leak(
    a: AgentView,
    said: Seq<char>,
    replies: Seq<ReplyView>,
    before: bool,
    cancels: Set<int>,
)
    requires
        fits(a.begun(said), replies),
    ensures
        replies.len() > 0 ==> is_cancelled(before, replies, cancels) == is_cancelled(
            false,
            replies,
            cancels,
        ),
        cancellations_are_true(before, replies, cancels) == cancellations_are_true(
            false,
            replies,
            cancels,
        ),
    decreases replies.len(),
{
    if replies.len() > 0 {
        law_an_old_cancellation_does_not_leak(a, said, replies.drop_last(), before, cancels);
        law_a_turn_renews_first(a, said, replies);
    }
}

/// A turn that nobody cancels, and whose answers are not cut off as cancelled, is not interrupted
/// and tells of no interruption, whether or not there was a cancellation before it. There is none
/// after it.
pub proof fn law_a_turn_that_nobody_cancels_is_not_interrupted(
    a: AgentView,
    said: Seq<char>,
    replies: Seq<ReplyView>,
    before: bool,
)
    requires
        fits(a.begun(said), replies),
        cancellations_are_true(before, replies, Set::empty()),
        forall|i: int|
            0 <= i < replies.len() ==> #[trigger] replies[i] != ReplyView::Event(
                ItemEventView::Cancelled,
            ),
    ensures
        ({
            let b = run(a.begun(said), replies);
            &&& replies.len() > 0 ==> !is_cancelled(before, replies, Set::empty())
            &&& !(b.outcome matches Some(outcome) && outcome is Interrupted)
            &&& forall|i: int|
                a.events.len() <= i < b.events.len() ==> !((
                #[trigger] b.events[i]) is TurnInterrupted)
        }),
    decreases replies.len(),
{
    let b = run(a.begun(said), replies);
    if replies.len() > 0 {
        let rest = replies.drop_last();
        assert forall|i: int| 0 <= i < rest.len() implies #[trigger] rest[i] != ReplyView::Event(
            ItemEventView::Cancelled,
        ) by {
            assert(rest[i] == replies[i]);
        }
        law_a_turn_that_nobody_cancels_is_not_interrupted(a, said, rest, before);
        law_a_turn_renews_first(a, said, replies);
        lemma_requests(a, said, rest);
        let c = run(a.begun(said), rest);
        assert(replies[replies.len() - 1] == replies.last());
        match replies.last() {
            ReplyView::Returned { content, is_error } => {
                lemma_proceeding_outcome(c.with_result(content, is_error));
            },
            ReplyView::Event(ItemEventView::Completed { usage, .. }) => {
                lemma_proceeding_outcome(
                    AgentView {
                        session: match usage {
                            Some(u) => c.session.with_usage(u),
                            None => c.session,
                        },
                        results: Seq::empty(),
                        ..c
                    },
                );
            },
            _ => {},
        }
        law_a_turn_tells_one_ending(a, said, replies);
        assert forall|i: int| a.events.len() <= i < b.events.len() implies !((
        #[trigger] b.events[i]) is TurnInterrupted) by {
            if i < b.events.len() - 1 {
                assert(!is_ending(b.events[i]));
            } else {
                assert(b.events[i] == b.events.last());
            }
        }
    }
}

proof fn lemma_proceeding_outcome(a: AgentView)
    requires
        !(a.outcome matches Some(outcome) && outcome is Interrupted),
    ensures
        !(a.proceeded().outcome matches Some(outcome) && outcome is Interrupted),
    decreases a.calls.len() - a.results.len(),
{
    if a.results.len() < a.calls.len() && !tools::offers(a.tools, a.due_call().name) {
        lemma_proceeding_outcome(a.with_result("unknown tool: "@ + a.due_call().name, true));
    }
}

/// The replies of a turn that gets a text for an answer.
pub open spec fn text_turn(
    cancelled: bool,
    text: Seq<char>,
    usage: Option<TokenUsage>,
    finish_reason: Option<Seq<char>>,
) -> Seq<ReplyView> {
    seq![
        ReplyView::Renewed,
        ReplyView::Cancelled(cancelled),
        ReplyView::Opened,
        ReplyView::Event(ItemEventView::TextDone(text)),
        ReplyView::Event(ItemEventView::Completed { usage, finish_reason }),
    ]
}

/// A turn that gets a text for an answer, and that nobody cancels, completes, whether or not there
/// was a cancellation before it.
pub proof fn law_a_text_turn_completes(
    a: AgentView,
    said: Seq<char>,
    before: bool,
    cancelled: bool,
    text: Seq<char>,
    usage: Option<TokenUsage>,
    finish_reason: Option<Seq<char>>,
)
    requires
        a.max_turns >= 1,
        usage matches Some(u) ==> u.countable(),
        cancellations_are_true(
            before,
            text_turn(cancelled, text, usage, finish_reason),
            Set::empty(),
        ),
    ensures
        ({
            let replies = text_turn(cancelled, text, usage, finish_reason);
            let b = run(a.begun(said), replies);
            &&& !cancelled
            &&& fits(a.begun(said), replies)
            &&& b.outcome == Some(OutcomeView::Completed { usage })
            &&& b.events == a.events + seq![
                EventView::TurnStarted,
                EventView::TextDone(text),
                EventView::TurnComplete { usage },
            ]
            &&& !is_cancelled(before, replies, Set::empty())
        }),
{
    let r5 = text_turn(cancelled, text, usage, finish_reason);
    let r4 = r5.drop_last();
    let r3 = r4.drop_last();
    let r2 = r3.drop_last();
    let r1 = r2.drop_last();
    assert(r4 =~= r5.take(4) && r3 =~= r5.take(3) && r2 =~= r5.take(2) && r1 =~= r5.take(1));
    assert(r1.drop_last() =~= Seq::empty());
    assert(r1.last() is Renewed);
    assert(!is_cancelled(before, r1, Set::empty()));
    assert(!is_cancelled(before, r2, Set::empty()));
    assert(cancellations_are_true(before, r4, Set::empty()));
    assert(cancellations_are_true(before, r3, Set::empty()));
    assert(cancellations_are_true(before, r2, Set::empty()));
    assert(r2.last() == ReplyView::Cancelled(cancelled));
    assert(!is_cancelled(before, r3, Set::empty()));
    assert(!is_cancelled(before, r4, Set::empty()));
    let b = a.begun(said);
    assert(run(b, r1.drop_last()) == b);
    assert(fits(b, r1.drop_last()));
    assert(fits(b, r1));
    assert(fits(b, r2));
    assert(run(b, r2) == b.renewed().requested());
    assert(fits(b, r3));
    assert(fits(b, r4));
    assert(run(b, r4).phase is Streaming && run(b, r4).calls.len() == 0);
    assert(run(b, r5).events =~= a.events + seq![
        EventView::TurnStarted,
        EventView::TextDone(text),
        EventView::TurnComplete { usage },
    ]);
}

// ==================== What a turn keeps and tells ====================

proof fn lemma_run_on(a: AgentView, first: Seq<ReplyView>, more: Seq<ReplyView>)
    ensures
        run(a, first + more) == run(run(a, first), more),
        fits(a, first + more) <==> fits(a, first) && fits(run(a, first), more),
    decreases more.len(),
{
    let all = first + more;
    if more.len() == 0 {
        assert(all =~= first);
    } else {
        lemma_run_on(a, first, more.drop_last());
        assert(all.drop_last() =~= first + more.drop_last());
        assert(all.last() == more.last());
    }
}

/// The replies that bring the events of an answer, one by one.
pub open spec fn brought(events: Seq<ItemEventView>) -> Seq<ReplyView> {
    events.map_values(|e: ItemEventView| ReplyView::Event(e))
}

/// The finished texts and calls among the events of an answer, in order.
pub open spec fn finished(events: Seq<ItemEventView>) -> Seq<AssistantBlockView>
    decreases events.len(),
{
    if events.len() == 0 {
        Seq::empty()
    } else {
        match events.last() {
            ItemEventView::TextDone(t) => finished(events.drop_last()).push(
                AssistantBlockView::Text(t),
            ),
            ItemEventView::ToolCallReady(call) => finished(events.drop_last()).push(
                AssistantBlockView::ToolCall(call),
            ),
            _ => finished(events.drop_last()),
        }
    }
}

/// The finished calls among the events of an answer, in order.
pub open spec fn finished_calls(events: Seq<ItemEventView>) -> Seq<ToolCallView>
    decreases events.len(),
{
    if events.len() == 0 {
        Seq::empty()
    } else {
        match events.last() {
            ItemEventView::ToolCallReady(call) => finished_calls(events.drop_last()).push(call),
            _ => finished_calls(events.drop_last()),
        }
    }
}

/// What is told while the events of an answer come in: every piece of text, every call that
/// begins, and every finished text.
pub open spec fn progress(events: Seq<ItemEventView>) -> Seq<EventView>
    decreases events.len(),
{
    if events.len() == 0 {
        Seq::empty()
    } else {
        match events.last() {
            ItemEventView::TextDelta(t) => progress(events.drop_last()).push(
                EventView::TextDelta(t),
            ),
            ItemEventView::ToolCallStart { id, name } => progress(events.drop_last()).push(
                EventView::ToolCallBegin { id, name },
            ),
            ItemEventView::TextDone(t) => progress(events.drop_last()).push(EventView::TextDone(t)),
            _ => progress(events.drop_last()),
        }
    }
}

/// `items` are what was there before and behind it the blocks in order: each text as a message of
/// the assistant with exactly that text, and each call as that call.
pub open spec fn holds_blocks(
    items: Seq<ItemView>,
    before: Seq<ItemView>,
    blocks: Seq<AssistantBlockView>,
) -> bool {
    &&& items.len() == before.len() + blocks.len()
    &&& forall|i: int| 0 <= i < before.len() ==> items[i] == #[trigger] before[i]
    &&& forall|k: int|
        0 <= k < blocks.len() ==> match #[trigger] blocks[k] {
            AssistantBlockView::Text(t) => items[before.len() + k] == ItemView::Message(
                TextMessageView::Assistant(t),
            ),
            AssistantBlockView::ToolCall(call) => items[before.len() + k] == ItemView::ToolCall(
                call,
            ),
        }
}

/// While an answer streams in, the session gains its finished texts and calls in order, each text
/// as a message of the assistant and each call as that call, and nothing else. The calls are
/// remembered, and all progress is told. As long as the answer neither ends nor is cancelled, the
/// agent waits for more.
pub proof fn law_an_answer_is_kept_as_it_comes(a: AgentView, events: Seq<ItemEventView>)
    requires
        a.phase is Streaming,
        forall|i: int|
            0 <= i < events.len() ==> !((#[trigger] events[i]) is Completed)
                && !(events[i] is Cancelled),
    ensures
        ({
            let b = run(a, brought(events));
            &&& fits(a, brought(events))
            &&& holds_blocks(b.session.items, a.session.items, finished(events))
            &&& b.session.system_prompt == a.session.system_prompt
            &&& b.session.total_tokens == a.session.total_tokens
            &&& b.session.max_context_tokens == a.session.max_context_tokens
            &&& b.calls == a.calls + finished_calls(events)
            &&& b.events == a.events + progress(events)
            &&& b.phase is Streaming
            &&& b.tools == a.tools
            &&& b.max_turns == a.max_turns
            &&& b.turn == a.turn
            &&& b.results == a.results
            &&& b.outcome == a.outcome
        }),
    decreases events.len(),
{
    if events.len() == 0 {
        assert(a.calls + finished_calls(events) =~= a.calls);
        assert(a.events + progress(events) =~= a.events);
    } else {
        let rest = events.drop_last();
        assert forall|i: int| 0 <= i < rest.len() implies !((#[trigger] rest[i]) is Completed)
            && !(rest[i] is Cancelled) by {
            assert(rest[i] == events[i]);
        }
        law_an_answer_is_kept_as_it_comes(a, rest);
        let event = events.last();
        assert(event == events[events.len() - 1]);
        assert(brought(events).drop_last() =~= brought(rest));
        assert(brought(events).last() == ReplyView::Event(event));
        let b = run(a, brought(rest));
        let c = run(a, brought(events));
        assert(c == b.after(ReplyView::Event(event)));
        assert(c.calls =~= a.calls + finished_calls(events));
        assert(c.events =~= a.events + progress(events));
        let items = c.session.items;
        let blocks = finished(events);
        assert forall|i: int| 0 <= i < a.session.items.len() implies items[i]
            == #[trigger] a.session.items[i] by {
            assert(b.session.items[i] == a.session.items[i]);
        }
        assert forall|k: int| 0 <= k < blocks.len() implies match #[trigger] blocks[k] {
            AssistantBlockView::Text(t) => items[a.session.items.len() + k] == ItemView::Message(
                TextMessageView::Assistant(t),
            ),
            AssistantBlockView::ToolCall(call) => items[a.session.items.len() + k]
                == ItemView::ToolCall(call),
        } by {
            if k < finished(rest).len() {
                assert(blocks[k] == finished(rest)[k]);
            }
        }
    }
}

/// A whole answer without calls ends the turn as completed, with the counts that came, and leaves
/// the history as it is. A whole answer with calls does not: a tool is run, or another request is
/// made, or the limit is reached.
pub proof fn law_an_answer_without_calls_completes_the_turn(
    a: AgentView,
    usage: Option<TokenUsage>,
    finish_reason: Option<Seq<char>>,
)
    requires
        a.phase is Streaming,
        a.outcome is None,
        a.turn < a.max_turns,
    ensures
        ({
            let b = a.after(ReplyView::Event(ItemEventView::Completed { usage, finish_reason }));
            if a.calls.len() == 0 {
                &&& b.phase is Over
                &&& b.outcome == Some(OutcomeView::Completed { usage })
                &&& b.events == a.events.push(EventView::TurnComplete { usage })
                &&& b.session.items == a.session.items
            } else {
                match b.outcome {
                    None => b.phase is Executing || b.phase is Checking,
                    Some(outcome) => b.phase is Over && outcome == (
                    OutcomeView::MaxTurnsReached { max_turns: a.max_turns }) && a.turn + 1
                        == a.max_turns,
                }
            }
        }),
{
    if a.calls.len() > 0 {
        let counted = AgentView {
            session: match usage {
                Some(u) => a.session.with_usage(u),
                None => a.session,
            },
            results: Seq::empty(),
            ..a
        };
        lemma_proceeding_reaches(counted);
    }
}

/// Where the agent comes by itself with its calls.
proof fn lemma_proceeding_reaches(a: AgentView)
    requires
        a.outcome is None,
        a.turn < a.max_turns,
    ensures
        ({
            let b = a.proceeded();
            match b.outcome {
                None => b.phase is Executing || b.phase is Checking,
                Some(outcome) => b.phase is Over && outcome == (OutcomeView::MaxTurnsReached {
                    max_turns: a.max_turns,
                }) && a.turn + 1 == a.max_turns,
            }
        }),
    decreases a.calls.len() - a.results.len(),
{
    if a.results.len() < a.calls.len() && !tools::offers(a.tools, a.due_call().name) {
        lemma_proceeding_reaches(a.with_result("unknown tool: "@ + a.due_call().name, true));
    }
}

/// The tokens of an answer are counted once, and nothing else changes the count.
pub proof fn law_tokens_are_counted_with_the_answer(a: AgentView, reply: ReplyView)
    ensures
        a.after(reply).session.total_tokens == (match reply {
            ReplyView::Event(ItemEventView::Completed { usage: Some(u), .. }) => {
                a.session.with_usage(u).total_tokens
            },
            _ => a.session.total_tokens,
        }),
        a.after(reply).session.system_prompt == a.session.system_prompt,
        a.after(reply).session.max_context_tokens == a.session.max_context_tokens,
        a.after(reply).tools == a.tools,
        a.after(reply).max_turns == a.max_turns,
{
    match reply {
        ReplyView::Returned { content, is_error } => {
            lemma_proceeding_keeps_counts(a.with_result(content, is_error));
        },
        ReplyView::Event(ItemEventView::Completed { usage, .. }) => {
            lemma_proceeding_keeps_counts(
                AgentView {
                    session: match usage {
                        Some(u) => a.session.with_usage(u),
                        None => a.session,
                    },
                    results: Seq::empty(),
                    ..a
                },
            );
        },
        _ => {},
    }
}

proof fn lemma_proceeding_keeps_counts(a: AgentView)
    ensures
        a.proceeded().session.total_tokens == a.session.total_tokens,
        a.proceeded().session.system_prompt == a.session.system_prompt,
        a.proceeded().session.max_context_tokens == a.session.max_context_tokens,
        a.proceeded().tools == a.tools,
        a.proceeded().max_turns == a.max_turns,
    decreases a.calls.len() - a.results.len(),
{
    if a.results.len() < a.calls.len() && !tools::offers(a.tools, a.due_call().name) {
        lemma_proceeding_keeps_counts(a.with_result("unknown tool: "@ + a.due_call().name, true));
    }
}

/// A turn begins with what the user said as the last item of the history, and nothing else of the
/// session has changed.
pub proof fn law_a_turn_begins_with_the_question(a: AgentView, said: Seq<char>)
    ensures
        ({
            let b = a.begun(said);
            &&& b.session.items.len() == a.session.items.len() + 1
            &&& b.session.items.last() == ItemView::Message(TextMessageView::User(said))
            &&& forall|i: int|
                0 <= i < a.session.items.len() ==> b.session.items[i]
                    == #[trigger] a.session.items[i]
            &&& b.session.system_prompt == a.session.system_prompt
            &&& b.session.total_tokens == a.session.total_tokens
            &&& b.session.max_context_tokens == a.session.max_context_tokens
            &&& b.events == a.events
            &&& b.tools == a.tools
            &&& b.max_turns == a.max_turns
            &&& b.outcome is None
        }),
{
}

/// The agent asks for the thing that is due. A request holds the system prompt, then the whole
/// history, and all tools; the tool that is to be run is that of the first call without a result;
/// and the outcome that is handed out is that of the turn.
pub proof fn law_the_agent_asks_for_what_is_due(a: AgentView, action: Action)
    requires
        a.asks(action),
    ensures
        match action {
            Action::RenewCancel => a.phase is Renewing,
            Action::CheckCancel => a.phase is Checking,
            Action::OpenStream(request) => {
                &&& a.phase is Opening
                &&& request@.items.len() == a.session.items.len() + 1
                &&& request@.items[0] == ItemView::Message(
                    TextMessageView::System(a.session.system_prompt),
                )
                &&& forall|i: int|
                    0 <= i < a.session.items.len() ==> request@.items[i + 1]
                        == #[trigger] a.session.items[i]
                &&& request@.tools == a.tools
                &&& request@.temperature is None
            },
            Action::NextEvent => a.phase is Streaming,
            Action::Execute(call) => a.phase is Executing && call@ == a.calls[a.results.len() as int],
            Action::Finish(outcome) => a.phase is Over && a.outcome == Some(outcome@),
        },
{
}

/// What each reply but those that bring events or results does: the turn starts, a request goes
/// out with the history cut to the budget, a new answer begins without calls, and a turn that is
/// cancelled or fails ends there, says so, and leaves the history as it is.
pub proof fn law_replies_do_what_they_say(a: AgentView, reply: ReplyView)
    ensures
        ({
            let b = a.after(reply);
            match reply {
                ReplyView::Renewed => {
                    &&& b.session == a.session
                    &&& b.events.len() > a.events.len()
                    &&& b.events.take(a.events.len() as int) == a.events
                    &&& b.events[a.events.len() as int] is TurnStarted
                    &&& a.turn < a.max_turns ==> b.phase is Checking && b.events.len()
                        == a.events.len() + 1
                    &&& a.turn >= a.max_turns ==> b.outcome == Some(
                        OutcomeView::MaxTurnsReached { max_turns: a.max_turns },
                    )
                },
                ReplyView::Cancelled(false) => {
                    &&& b.session.items == session::truncated(
                        a.session.items,
                        a.session.max_context_tokens as nat,
                    )
                    &&& b.phase is Opening
                    &&& b.events == a.events
                    &&& b.outcome == a.outcome
                },
                ReplyView::Opened => {
                    &&& b.session == a.session
                    &&& b.phase is Streaming
                    &&& b.calls.len() == 0
                    &&& b.events == a.events
                    &&& b.outcome == a.outcome
                },
                ReplyView::Cancelled(true) | ReplyView::Event(ItemEventView::Cancelled) => {
                    &&& b.session == a.session
                    &&& b.outcome == Some(OutcomeView::Interrupted)
                    &&& b.events == a.events.push(EventView::TurnInterrupted)
                    &&& b.phase is Over
                },
                ReplyView::NotOpened(why) | ReplyView::Broken(why) => {
                    &&& b.session == a.session
                    &&& b.outcome == Some(OutcomeView::Failed(why))
                    &&& b.events == a.events.push(EventView::Error(why))
                    &&& b.phase is Over
                },
                ReplyView::Ended => {
                    let why = "stream protocol error: "@ + "stream ended without Completed event"@;
                    &&& b.session == a.session
                    &&& b.outcome == Some(OutcomeView::Failed(why))
                    &&& b.events == a.events.push(EventView::Error(why))
                    &&& b.phase is Over
                },
                _ => true,
            }
        }),
{
    if reply is Renewed {
        assert(a.after(reply).events.take(a.events.len() as int) =~= a.events);
    }
}

/// A turn whose answer brings no calls: the history afterwards is the end of the history from
/// before (all of it, where it keeps the budget together with the question), then what the user
/// said, then each finished text of the answer as a message of the assistant.
#[verifier::rlimit(50)]
pub proof fn law_a_turn_keeps_the_question_and_the_answer(
    a: AgentView,
    said: Seq<char>,
    events: Seq<ItemEventView>,
    usage: Option<TokenUsage>,
    finish_reason: Option<Seq<char>>,
)
    requires
        a.max_turns >= 1,
        usage matches Some(u) ==> u.countable(),
        forall|i: int|
            0 <= i < events.len() ==> !((#[trigger] events[i]) is Completed)
                && !(events[i] is Cancelled),
        finished_calls(events).len() == 0,
    ensures
        ({
            let replies = seq![
                ReplyView::Renewed,
                ReplyView::Cancelled(false),
                ReplyView::Opened,
            ] + brought(events) + seq![
                ReplyView::Event(ItemEventView::Completed { usage, finish_reason }),
            ];
            let b = run(a.begun(said), replies);
            let asked = a.session.items.push(ItemView::Message(TextMessageView::User(said)));
            &&& fits(a.begun(said), replies)
            &&& b.outcome == Some(OutcomeView::Completed { usage })
            &&& exists|n: int|
                #![trigger a.session.items.skip(n)]
                {
                    &&& 0 <= n <= a.session.items.len()
                    &&& session::estimated(asked) <= a.session.max_context_tokens ==> n == 0
                    &&& holds_blocks(
                        b.session.items,
                        a.session.items.skip(n).push(
                            ItemView::Message(TextMessageView::User(said)),
                        ),
                        finished(events),
                    )
                }
            &&& b.events == a.events.push(EventView::TurnStarted) + progress(events) + seq![
                EventView::TurnComplete { usage },
            ]
        }),
{
    let first = seq![ReplyView::Renewed, ReplyView::Cancelled(false), ReplyView::Opened];
    let completed = ReplyView::Event(ItemEventView::Completed { usage, finish_reason });
    let question = ItemView::Message(TextMessageView::User(said));
    let asked = a.session.items.push(question);
    let left = session::truncated(asked, a.session.max_context_tokens as nat);
    let s = a.begun(said);
    lemma_opening(a, said);
    let opened = run(s, first);
    law_an_answer_is_kept_as_it_comes(opened, events);
    let heard = run(opened, brought(events));
    lemma_run_on(s, first, brought(events));
    let replies = (first + brought(events)).push(completed);
    assert(first + brought(events) + seq![completed] =~= replies);
    assert(replies.drop_last() =~= first + brought(events));
    assert(run(s, replies) == heard.after(completed));
    assert(fits(s, replies));
    law_an_answer_without_calls_completes_the_turn(heard, usage, finish_reason);
    let b = run(s, replies);
    lemma_question_is_left(a.session.items, question, a.session.max_context_tokens as nat);
    let n = asked.len() - left.len();
    assert(opened.session.items == a.session.items.skip(n).push(question));
    assert(b.events =~= a.events.push(EventView::TurnStarted) + progress(events) + seq![
        EventView::TurnComplete { usage },
    ]);
}

/// How a turn that is not cancelled comes to its first answer.
proof fn lemma_opening(a: AgentView, said: Seq<char>)
    requires
        a.max_turns >= 1,
    ensures
        ({
            let first = seq![ReplyView::Renewed, ReplyView::Cancelled(false), ReplyView::Opened];
            let b = run(a.begun(said), first);
            &&& fits(a.begun(said), first)
            &&& b.session.items == session::truncated(
                a.session.items.push(ItemView::Message(TextMessageView::User(said))),
                a.session.max_context_tokens as nat,
            )
            &&& b.events == a.events.push(EventView::TurnStarted)
            &&& b.calls.len() == 0
            &&& b.phase is Streaming
            &&& b.turn == 0
            &&& b.max_turns == a.max_turns
            &&& b.outcome is None
        }),
{
    let first = seq![ReplyView::Renewed, ReplyView::Cancelled(false), ReplyView::Opened];
    let two = seq![ReplyView::Renewed, ReplyView::Cancelled(false)];
    let one = seq![ReplyView::Renewed];
    let s = a.begun(said);
    assert(first.drop_last() =~= two);
    assert(two.drop_last() =~= one);
    assert(one.drop_last() =~= Seq::<ReplyView>::empty());
    assert(run(s, Seq::<ReplyView>::empty()) == s);
    assert(fits(s, Seq::<ReplyView>::empty()));
    assert(one.last() is Renewed);
    assert(run(s, one) == s.renewed());
    assert(fits(s, one));
    assert(two.last() == ReplyView::Cancelled(false));
    assert(run(s, two) == s.renewed().requested());
    assert(fits(s, two));
    assert(first.last() is Opened);
}

/// Truncation leaves the end of the history and the question behind it.
proof fn lemma_question_is_left(items: Seq<ItemView>, question: ItemView, budget: nat)
    ensures
        ({
            let asked = items.push(question);
            let left = session::truncated(asked, budget);
            let n = asked.len() - left.len();
            &&& 0 <= n <= items.len()
            &&& left == items.skip(n).push(question)
            &&& session::estimated(asked) <= budget ==> n == 0
        }),
{
    let asked = items.push(question);
    session::law_truncation_drops_the_oldest(asked, budget);
    session::law_truncation_leaves_something(asked, budget);
    session::law_truncation_settles(asked, budget);
    let left = session::truncated(asked, budget);
    assert(left =~= items.skip(asked.len() - left.len()).push(question));
}

/// The result is that of a call whose tool is not among the tools, and says so.
pub open spec fn refused(
    tools: Seq<ToolSpecView>,
    call: ToolCallView,
    result: ToolResultView,
) -> bool {
    &&& result.tool_call_id == call.id
    &&& result.tool_name == call.name
    &&& result.content == "unknown tool: "@ + call.name
    &&& result.is_error
    &&& forall|i: int| 0 <= i < tools.len() ==> (#[trigger] tools[i]).name != call.name
}

/// Which results the agent has when it has come as far as it comes by itself, in the places from
/// the first that was missing on: those of calls whose tools are not on offer, up to the first
/// whose tool is.
proof fn lemma_proceeding_results(a: AgentView)
    requires
        a.results.len() <= a.calls.len(),
    ensures
        ({
            let b = a.proceeded();
            let n = a.results.len() as int;
            let m = b.results.len() as int;
            &&& n <= m <= a.calls.len()
            &&& b.calls == a.calls
            &&& forall|j: int| 0 <= j < n ==> b.results[j] == #[trigger] a.results[j]
            &&& forall|j: int|
                n <= j < m ==> refused(a.tools, a.calls[j], #[trigger] b.results[j])
            &&& if b.phase is Executing {
                &&& m < a.calls.len()
                &&& tools::offers(a.tools, a.calls[m].name)
                &&& b.session == a.session
            } else {
                &&& m == a.calls.len()
                &&& b.session.items.len() == a.session.items.len() + m
                &&& forall|i: int|
                    0 <= i < a.session.items.len() ==> b.session.items[i]
                        == #[trigger] a.session.items[i]
                &&& forall|j: int|
                    #![trigger b.results[j]]
                    0 <= j < m ==> b.session.items[a.session.items.len() + j]
                        == ItemView::ToolResult(b.results[j])
            }
        }),
    decreases a.calls.len() - a.results.len(),
{
    if a.results.len() < a.calls.len() && !tools::offers(a.tools, a.due_call().name) {
        let more = a.with_result("unknown tool: "@ + a.due_call().name, true);
        lemma_proceeding_results(more);
        let b = a.proceeded();
        let n = a.results.len() as int;
        assert(b == more.proceeded());
        assert(more.session == a.session && more.calls == a.calls && more.tools == a.tools);
        assert(b.results[n] == more.results[n]);
        assert(refused(a.tools, a.calls[n], b.results[n]));
        assert forall|j: int| 0 <= j < n implies b.results[j] == #[trigger] a.results[j] by {
            assert(more.results[j] == a.results[j]);
        }
        assert forall|j: int| n <= j < b.results.len() implies refused(
            a.tools,
            a.calls[j],
            #[trigger] b.results[j],
        ) by {}
    }
}

/// What a tool returned becomes the result of the call that was run, word for word, and the calls
/// behind it whose tools are not on offer get a result that says so. When every call has its
/// result, they all go into the history in their order, behind what was there; before that the
/// history does not change.
pub proof fn law_results_are_what_the_tools_returned(
    a: AgentView,
    content: Seq<char>,
    is_error: bool,
)
    requires
        a.phase is Executing,
        a.results.len() < a.calls.len(),
    ensures
        ({
            let b = a.after(ReplyView::Returned { content, is_error });
            let n = a.results.len() as int;
            let m = b.results.len() as int;
            &&& n < m <= a.calls.len()
            &&& b.calls == a.calls
            &&& forall|j: int| 0 <= j < n ==> b.results[j] == #[trigger] a.results[j]
            &&& b.results[n] == (ToolResultView {
                tool_call_id: a.calls[n].id,
                tool_name: a.calls[n].name,
                content,
                is_error,
            })
            &&& forall|j: int|
                #![trigger b.results[j]]
                n < j < m ==> refused(a.tools, a.calls[j], b.results[j])
            &&& if b.phase is Executing {
                &&& m < a.calls.len()
                &&& exists|i: int|
                    0 <= i < a.tools.len() && (#[trigger] a.tools[i]).name == a.calls[m].name
                &&& b.session == a.session
            } else {
                &&& m == a.calls.len()
                &&& b.session.items.len() == a.session.items.len() + m
                &&& forall|i: int|
                    0 <= i < a.session.items.len() ==> b.session.items[i]
                        == #[trigger] a.session.items[i]
                &&& forall|j: int|
                    #![trigger b.results[j]]
                    0 <= j < m ==> b.session.items[a.session.items.len() + j]
                        == ItemView::ToolResult(b.results[j])
            }
        }),
{
    let kept = a.with_result(content, is_error);
    lemma_proceeding_results(kept);
    let b = kept.proceeded();
    let n = a.results.len() as int;
    assert(b.results[n] == kept.results[n]);
    assert forall|j: int| 0 <= j < n implies b.results[j] == #[trigger] a.results[j] by {
        assert(kept.results[j] == a.results[j]);
    }
}

/// When an answer with calls is whole, each call whose tool is not on offer gets a result that says
/// so, up to the first call whose tool is: that one is to be run. Where there is no such call, the
/// results go into the history at once.
pub proof fn law_calls_are_gone_through_in_order(
    a: AgentView,
    usage: Option<TokenUsage>,
    finish_reason: Option<Seq<char>>,
)
    requires
        a.phase is Streaming,
        a.calls.len() > 0,
    ensures
        ({
            let b = a.after(ReplyView::Event(ItemEventView::Completed { usage, finish_reason }));
            let m = b.results.len() as int;
            &&& m <= a.calls.len()
            &&& b.calls == a.calls
            &&& forall|j: int|
                #![trigger b.results[j]]
                0 <= j < m ==> refused(a.tools, a.calls[j], b.results[j])
            &&& if b.phase is Executing {
                &&& m < a.calls.len()
                &&& exists|i: int|
                    0 <= i < a.tools.len() && (#[trigger] a.tools[i]).name == a.calls[m].name
                &&& b.session.items == a.session.items
            } else {
                &&& m == a.calls.len()
                &&& b.session.items.len() == a.session.items.len() + m
                &&& forall|i: int|
                    0 <= i < a.session.items.len() ==> b.session.items[i]
                        == #[trigger] a.session.items[i]
                &&& forall|j: int|
                    #![trigger b.results[j]]
                    0 <= j < m ==> b.session.items[a.session.items.len() + j]
                        == ItemView::ToolResult(b.results[j])
            }
        }),
{
    let counted = AgentView {
        session: match usage {
            Some(u) => a.session.with_usage(u),
            None => a.session,
        },
        results: Seq::empty(),
        ..a
    };
    assert(counted.session.items == a.session.items);
    lemma_proceeding_results(counted);
    let b = counted.proceeded();
    assert(b == a.after(ReplyView::Event(ItemEventView::Completed { usage, finish_reason })));
}

/// The results of calls whose tools are not on offer are told too, one behind the other, as soon as
/// the answer is whole.
pub proof fn law_refused_calls_are_told(
    a: AgentView,
    usage: Option<TokenUsage>,
    finish_reason: Option<Seq<char>>,
)
    requires
        a.phase is Streaming,
        a.calls.len() > 0,
    ensures
        ({
            let b = a.after(ReplyView::Event(ItemEventView::Completed { usage, finish_reason }));
            let m = b.results.len() as int;
            &&& b.events.len() >= a.events.len() + m
            &&& forall|i: int| 0 <= i < a.events.len() ==> b.events[i] == #[trigger] a.events[i]
            &&& forall|j: int|
                #![trigger b.results[j]]
                0 <= j < m ==> b.events[a.events.len() + j] == (EventView::ToolCallEnd {
                    id: b.results[j].tool_call_id,
                    name: b.results[j].tool_name,
                    output: b.results[j].content,
                    is_error: b.results[j].is_error,
                })
        }),
{
    lemma_proceeding_tells_results(
        AgentView {
            session: match usage {
                Some(u) => a.session.with_usage(u),
                None => a.session,
            },
            results: Seq::empty(),
            ..a
        },
    );
}

/// Every result is told with its call and what came out, right behind what was told before.
pub proof fn law_a_result_is_told(a: AgentView, content: Seq<char>, is_error: bool)
    requires
        a.phase is Executing,
        a.results.len() < a.calls.len(),
    ensures
        ({
            let b = a.after(ReplyView::Returned { content, is_error });
            let call = a.calls[a.results.len() as int];
            let n = a.results.len() as int;
            let m = b.results.len() as int;
            &&& b.events.len() >= a.events.len() + (m - n)
            &&& forall|i: int| 0 <= i < a.events.len() ==> b.events[i] == #[trigger] a.events[i]
            &&& forall|j: int|
                #![trigger b.results[j]]
                n <= j < m ==> b.events[a.events.len() + (j - n)] == (EventView::ToolCallEnd {
                    id: b.results[j].tool_call_id,
                    name: b.results[j].tool_name,
                    output: b.results[j].content,
                    is_error: b.results[j].is_error,
                })
        }),
{
    let kept = a.with_result(content, is_error);
    lemma_proceeding_results(kept);
    lemma_proceeding_tells_results(kept);
    let b = kept.proceeded();
    let n = a.results.len() as int;
    assert forall|i: int| 0 <= i < a.events.len() implies b.events[i] == #[trigger] a.events[i] by {
        assert(b.events[i] == kept.events[i]);
    }
    assert(b.events[a.events.len() as int] == kept.events[a.events.len() as int]);
    assert(b.results[n] == kept.results[n]);
}

proof fn lemma_proceeding_tells_results(a: AgentView)
    requires
        a.results.len() <= a.calls.len(),
    ensures
        ({
            let b = a.proceeded();
            let n = a.results.len() as int;
            let m = b.results.len() as int;
            &&& b.events.len() >= a.events.len() + (m - n)
            &&& forall|i: int| 0 <= i < a.events.len() ==> b.events[i] == #[trigger] a.events[i]
            &&& forall|j: int|
                #![trigger b.results[j]]
                n <= j < m ==> b.events[a.events.len() + (j - n)] == (EventView::ToolCallEnd {
                    id: b.results[j].tool_call_id,
                    name: b.results[j].tool_name,
                    output: b.results[j].content,
                    is_error: b.results[j].is_error,
                })
        }),
    decreases a.calls.len() - a.results.len(),
{
    if a.results.len() < a.calls.len() && !tools::offers(a.tools, a.due_call().name) {
        let more = a.with_result("unknown tool: "@ + a.due_call().name, true);
        lemma_proceeding_tells_results(more);
        lemma_proceeding_results(more);
        let b = a.proceeded();
        let n = a.results.len() as int;
        assert(b.results[n] == more.results[n]);
        assert(b.events[a.events.len() as int] == more.events[a.events.len() as int]);
        assert forall|i: int| 0 <= i < a.events.len() implies b.events[i]
            == #[trigger] a.events[i] by {
            assert(b.events[i] == more.events[i]);
        }
    }
}

/// A turn ends at its limit only when it has made all the requests that it may.
pub proof fn law_the_limit_is_used_up(a: AgentView, said: Seq<char>, replies: Seq<ReplyView>)
    requires
        fits(a.begun(said), replies),
        run(a.begun(said), replies).outcome matches Some(outcome) && outcome is MaxTurnsReached,
    ensures
        requests(replies) == a.max_turns,
        run(a.begun(said), replies).outcome == Some(
            OutcomeView::MaxTurnsReached { max_turns: a.max_turns },
        ),
{
    lemma_limit(a, said, replies);
}

proof fn lemma_limit(a: AgentView, said: Seq<char>, replies: Seq<ReplyView>)
    requires
        fits(a.begun(said), replies),
    ensures
        ({
            let b = run(a.begun(said), replies);
            &&& !(b.phase is Over) ==> b.outcome is None
            &&& (b.outcome is Some && b.outcome->0 is MaxTurnsReached) ==> requests(replies)
                == a.max_turns && b.outcome == Some(
                OutcomeView::MaxTurnsReached { max_turns: a.max_turns },
            )
        }),
    decreases replies.len(),
{
    if replies.len() > 0 {
        let rest = replies.drop_last();
        lemma_limit(a, said, rest);
        lemma_requests(a, said, rest);
        let b = run(a.begun(said), rest);
        match replies.last() {
            ReplyView::Returned { content, is_error } => {
                lemma_proceeding_reaches(b.with_result(content, is_error));
            },
            ReplyView::Event(ItemEventView::Completed { usage, .. }) => {
                lemma_proceeding_reaches(
                    AgentView {
                        session: match usage {
                            Some(u) => b.session.with_usage(u),
                            None => b.session,
                        },
                        results: Seq::empty(),
                        ..b
                    },
                );
            },
            _ => {},
        }
    }
}

proof fn lemma_blocks_are_finished(blocks: Seq<AssistantBlockView>)
    ensures
        finished(blocks.map_values(|b: AssistantBlockView| item::block_event(b))) == blocks,
    decreases blocks.len(),
{
    let made = |b: AssistantBlockView| item::block_event(b);
    if blocks.len() > 0 {
        lemma_blocks_are_finished(blocks.drop_last());
        assert(blocks.map_values(made).drop_last() =~= blocks.drop_last().map_values(made));
        assert(blocks.map_values(made).last() == item::block_event(blocks.last()));
        assert(blocks.drop_last().push(blocks.last()) =~= blocks);
    } else {
        assert(finished(blocks.map_values(made)) =~= blocks);
    }
}

/// What the session gains from an answer that came whole is the blocks of that answer in order,
/// right behind what was there: each text as a message of the assistant with exactly that text, and
/// each call as that call. Only the results of the calls come behind them.
pub proof fn law_a_whole_answer_is_kept(a: AgentView, response: ModelResponseView)
    requires
        a.phase is Streaming,
        a.calls.len() == 0,
        response.message is Assistant,
        response.usage matches Some(u) ==> u.countable(),
    ensures
        ({
            let blocks = response.message->Assistant_0;
            let replies = brought(item::unfolded(ResponseEventView::MessageDone(response)));
            let b = run(a, replies);
            let n = a.session.items.len() + blocks.len();
            &&& fits(a, replies)
            &&& b.session.items.len() >= n
            &&& holds_blocks(b.session.items.take(n as int), a.session.items, blocks)
            &&& forall|i: int|
                n <= i < b.session.items.len() ==> (#[trigger] b.session.items[i]) is ToolResult
            &&& (forall|k: int| 0 <= k < blocks.len() ==> (#[trigger] blocks[k]) is Text)
                ==> b.session.items.len() == n && b.outcome == Some(
                OutcomeView::Completed { usage: response.usage },
            )
        }),
{
    let blocks = response.message->Assistant_0;
    let events = blocks.map_values(|b: AssistantBlockView| item::block_event(b));
    let usage = response.usage;
    let finish_reason = response.finish_reason;
    let completed = ItemEventView::Completed { usage, finish_reason };
    let all = item::unfolded(ResponseEventView::MessageDone(response));
    assert(all =~= events.push(completed));
    lemma_blocks_are_finished(blocks);
    law_an_answer_is_kept_as_it_comes(a, events);
    let heard = run(a, brought(events));
    assert(brought(all).drop_last() =~= brought(events));
    assert(brought(all).last() == ReplyView::Event(completed));
    let b = run(a, brought(all));
    assert(b == heard.after(ReplyView::Event(completed)));
    assert(fits(a, brought(all)));
    if forall|k: int| 0 <= k < blocks.len() ==> (#[trigger] blocks[k]) is Text {
        lemma_texts_bring_no_calls(blocks);
        assert(heard.calls.len() == 0);
    }
    if heard.calls.len() == 0 {
        assert(b.session.items == heard.session.items);
        assert(b.session.items.take(heard.session.items.len() as int) =~= heard.session.items);
    } else {
        law_calls_are_gone_through_in_order(heard, usage, finish_reason);
        assert(b.session.items.take(heard.session.items.len() as int) =~= heard.session.items);
        assert forall|i: int| heard.session.items.len() <= i < b.session.items.len() implies (
        #[trigger] b.session.items[i]) is ToolResult by {
            let j = i - heard.session.items.len();
            assert(b.session.items[heard.session.items.len() + j] == ItemView::ToolResult(
                b.results[j],
            ));
        }
    }
}

proof fn lemma_texts_bring_no_calls(blocks: Seq<AssistantBlockView>)
    requires
        forall|k: int| 0 <= k < blocks.len() ==> (#[trigger] blocks[k]) is Text,
    ensures
        finished_calls(
            blocks.map_values(|b: AssistantBlockView| item::block_event(b)),
        ).len() == 0,
    decreases blocks.len(),
{
    let made = |b: AssistantBlockView| item::block_event(b);
    if blocks.len() > 0 {
        lemma_texts_bring_no_calls(blocks.drop_last());
        assert(blocks.map_values(made).drop_last() =~= blocks.drop_last().map_values(made));
        assert(blocks.last() == blocks[blocks.len() - 1]);
    }
}

} // verus!
