//! A chat session: a conversation with a service, the tools that it may call, and the questions
//! that these ask.
//!
//! What happens in a session is told in events. The session collects them, and its owner hands
//! them on.

use crate::json;
use crate::json::Json;
use crate::model::{Temperature, ToolCallView, ToolSpecView};
use crate::provider::{
    ChatCompletionRequest, ChatCompletionResponse, ChatMessage, ChatMessageView, ChatRequestView,
    ProviderError, Role, ToolCall, ToolDefinitionView,
};
use crate::text;
use crate::text::IntoText;
use crate::toolkit::{
    AbortEvent, AbortView, PermissionRequest, PermissionRequestView, PermissionResponse,
    PermissionResponseView, Progress, ResultView, ToolResult,
};
use crate::tools;
use crate::tools::ToolRegistry;
use crate::views;
use vstd::prelude::*;

verus! {

broadcast use crate::views::group_views;

// ==================== Identifiers ====================

/// The hexadecimal digit at place `k` of the 32 digits of `id`, counted from the front.
pub open spec fn hex_value(id: u128, k: int) -> int {
    (id as int / vstd::arithmetic::power::pow(16, (31 - k) as nat)) % 16
}

/// The hexadecimal digit of a value below sixteen, in lower case.
pub open spec fn hex_digit(d: int) -> char {
    if d < 10 {
        (('0' as u32) + d) as char
    } else {
        (('a' as u32) + (d - 10)) as char
    }
}

/// How many hyphens stand in front of place `i` of a written identifier.
pub open spec fn hyphens_before(i: int) -> int {
    if i > 23 {
        4
    } else if i > 18 {
        3
    } else if i > 13 {
        2
    } else if i > 8 {
        1
    } else {
        0
    }
}

/// An identifier as it is written: 32 hexadecimal digits in groups of 8, 4, 4, 4 and 12, parted
/// by hyphens.
pub open spec fn hyphenated(id: u128) -> Seq<char> {
    Seq::new(
        36,
        |i: int|
            if i == 8 || i == 13 || i == 18 || i == 23 {
                '-'
            } else {
                hex_digit(hex_value(id, i - hyphens_before(i)))
            },
    )
}

/// `Uuid::new_v4` gives a random identifier. All that holds of every one is that it is marked as
/// version 4, in its 13th digit, and as of the standard variant, in its 17th.
#[verifier::external_body]
fn fresh_id() -> (id: u128)
    ensures
        hex_value(id, 12) == 4,
        8 <= hex_value(id, 16) < 12,
{
    uuid::Uuid::new_v4().as_u128()
}

/// `id` is an identifier that was drawn at random.
pub closed spec fn id_came(id: u128) -> bool {
    call_ensures(fresh_id, (), id)
}

/// `Uuid` writes itself as 32 digits in lower case, with hyphens.
#[verifier::external_body]
fn id_text(id: u128) -> (written: String)
    ensures
        written@ == hyphenated(id),
{
    uuid::Uuid::from_u128(id).to_string()
}

// ==================== State and events ====================

/// What a session is doing.
#[derive(Debug, Clone, Copy, PartialEq, Eq)]
pub enum SessionState {
    Idle,
    Running,
    WaitingForPermission,
    Aborted,
    Completed,
    Failed,
}

/// How a session talks to the service.
#[derive(Debug, PartialEq)]
pub struct SessionConfig {
    pub model: String,
    pub system_prompt: Option<String>,
    pub max_tokens: Option<u32>,
    pub temperature: Option<Temperature>,
}

/// What a [`SessionConfig`] says.
pub struct SessionConfigView {
    pub model: Seq<char>,
    pub system_prompt: Option<Seq<char>>,
    pub max_tokens: Option<u32>,
    pub temperature: Option<Temperature>,
}

impl View for SessionConfig {
    type V = SessionConfigView;

    open spec fn view(&self) -> SessionConfigView {
        SessionConfigView {
            model: self.model@,
            system_prompt: views::option(self.system_prompt),
            max_tokens: self.max_tokens,
            temperature: self.temperature,
        }
    }
}

impl Clone for SessionConfig {
    fn clone(&self) -> (copy: Self)
        ensures
            copy@ == self@,
    {
        SessionConfig {
            model: self.model.clone(),
            system_prompt: text::copy_optional(&self.system_prompt),
            max_tokens: self.max_tokens,
            temperature: self.temperature,
        }
    }
}

impl Default for SessionConfig {
    fn default() -> (config: Self)
        ensures
            config@ == (SessionConfigView {
                model: "gpt-4o"@,
                system_prompt: None,
                max_tokens: None,
                temperature: None,
            }),
    {
        SessionConfig {
            model: "gpt-4o".to_owned(),
            system_prompt: None,
            max_tokens: None,
            temperature: None,
        }
    }
}

/// What happens in a session.
#[derive(Debug, PartialEq)]
pub enum SessionEvent {
    Created { session_id: u128 },
    MessageAdded { role: String, content: String },
    StateChanged { state: SessionState },
    PermissionRequested { request: PermissionRequest },
    PermissionGranted { granted: bool },
    ToolCalled { tool_name: String, args: serde_json::Value },
    ToolResult { tool_name: String, result: ToolResult },
    Aborted { reason: String },
    Progress { message: String },
    Error { message: String },
}

/// What a [`SessionEvent`] says.
pub enum SessionEventView {
    Created { session_id: u128 },
    MessageAdded { role: Seq<char>, content: Seq<char> },
    StateChanged { state: SessionState },
    PermissionRequested { request: PermissionRequestView },
    PermissionGranted { granted: bool },
    ToolCalled { tool_name: Seq<char>, args: Json },
    ToolResult { tool_name: Seq<char>, result: ResultView },
    Aborted { reason: Seq<char> },
    Progress { message: Seq<char> },
    Error { message: Seq<char> },
}

impl View for SessionEvent {
    type V = SessionEventView;

    open spec fn view(&self) -> SessionEventView {
        match self {
            SessionEvent::Created { session_id } => SessionEventView::Created {
                session_id: *session_id,
            },
            SessionEvent::MessageAdded { role, content } => SessionEventView::MessageAdded {
                role: role@,
                content: content@,
            },
            SessionEvent::StateChanged { state } => SessionEventView::StateChanged {
                state: *state,
            },
            SessionEvent::PermissionRequested { request } => {
                SessionEventView::PermissionRequested { request: request@ }
            },
            SessionEvent::PermissionGranted { granted } => SessionEventView::PermissionGranted {
                granted: *granted,
            },
            SessionEvent::ToolCalled { tool_name, args } => SessionEventView::ToolCalled {
                tool_name: tool_name@,
                args: json::json(*args),
            },
            SessionEvent::ToolResult { tool_name, result } => SessionEventView::ToolResult {
                tool_name: tool_name@,
                result: result@,
            },
            SessionEvent::Aborted { reason } => SessionEventView::Aborted { reason: reason@ },
            SessionEvent::Progress { message } => SessionEventView::Progress {
                message: message@,
            },
            SessionEvent::Error { message } => SessionEventView::Error { message: message@ },
        }
    }
}

// ==================== Session ====================

/// A chat session.
pub struct Session<T> {
    id: u128,
    config: SessionConfig,
    tool_registry: ToolRegistry<T>,
    messages: Vec<ChatMessage>,
    state: SessionState,
    pending_permission: bool,
    events: Vec<SessionEvent>,
    aborts: Vec<AbortEvent>,
}

/// What a [`Session`] holds.
pub struct ChatView {
    pub id: u128,
    pub config: SessionConfigView,
    /// The tools as they are shown to the service.
    pub definitions: Seq<ToolDefinitionView>,
    pub messages: Seq<ChatMessageView>,
    pub state: SessionState,
    /// A question is open.
    pub pending_permission: bool,
    /// What was told.
    pub events: Seq<SessionEventView>,
    /// The calls to stop that were sent out.
    pub aborts: Seq<AbortView>,
}

impl<T> View for Session<T> {
    type V = ChatView;

    closed spec fn view(&self) -> ChatView {
        ChatView {
            id: self.id,
            config: self.config@,
            definitions: definitions_of(tools::shown(self.tool_registry@)),
            messages: views::of(self.messages@),
            state: self.state,
            pending_permission: self.pending_permission,
            events: views::of(self.events@),
            aborts: views::of(self.aborts@),
        }
    }
}

/// Tool definitions as they are shown to the service.
pub open spec fn definitions_of(shown: Seq<ToolSpecView>) -> Seq<ToolDefinitionView> {
    shown.map_values(|s: ToolSpecView| tools::definition_of(s))
}

/// There is a tool of the given name among those that are shown.
pub open spec fn defines(definitions: Seq<ToolDefinitionView>, name: Seq<char>) -> bool {
    exists|i: int| 0 <= i < definitions.len() && (#[trigger] definitions[i]).name == name
}

/// The messages that a session starts with: the system prompt, where there is one.
pub open spec fn first_messages(config: SessionConfigView) -> Seq<ChatMessageView> {
    match config.system_prompt {
        Some(prompt) => seq![ChatMessageView::plain(Role::System, prompt)],
        None => Seq::empty(),
    }
}

/// The session as it is when it is new.
pub open spec fn fresh(
    id: u128,
    config: SessionConfigView,
    definitions: Seq<ToolDefinitionView>,
) -> ChatView {
    ChatView {
        id,
        config,
        definitions,
        messages: first_messages(config),
        state: SessionState::Idle,
        pending_permission: false,
        events: Seq::empty(),
        aborts: Seq::empty(),
    }
}

impl ChatView {
    /// The session after one more event was told.
    pub open spec fn told(self, event: SessionEventView) -> ChatView {
        ChatView { events: self.events.push(event), ..self }
    }

    /// The session in another state. That is told, also where it is the state that it was in.
    pub open spec fn in_state(self, state: SessionState) -> ChatView {
        ChatView { state, ..self }.told(SessionEventView::StateChanged { state })
    }

    /// The session with one more message. The event tells its text, or none where it has none.
    pub open spec fn with_message(self, message: ChatMessageView) -> ChatView {
        ChatView { messages: self.messages.push(message), ..self }.told(
            SessionEventView::MessageAdded {
                role: message.role.event_word(),
                content: match message.content {
                    Some(content) => content,
                    None => Seq::empty(),
                },
            },
        )
    }

    /// The request that continues the conversation.
    pub open spec fn request(self) -> ChatRequestView {
        ChatRequestView {
            model: self.config.model,
            messages: self.messages,
            tools: Some(self.definitions),
            temperature: self.config.temperature,
            max_tokens: self.config.max_tokens,
            stream: None,
        }
    }

    /// The session after it was aborted.
    pub open spec fn aborted(self, reason: Seq<char>) -> ChatView {
        let stopped = self.in_state(SessionState::Aborted);
        ChatView {
            aborts: stopped.aborts.push(
                AbortView { session_id: Some(hyphenated(self.id)), reason },
            ),
            ..stopped
        }.told(SessionEventView::Aborted { reason })
    }

    /// The session after the reply to a request: the first answer is added, where there is one.
    pub open spec fn replied(self, choices: Seq<ChatMessageView>) -> ChatView {
        let heard = if choices.len() > 0 {
            self.with_message(choices[0])
        } else {
            self
        };
        heard.in_state(SessionState::Completed)
    }

    /// The session after a tool asked for permission.
    pub open spec fn asking(self, request: PermissionRequestView) -> ChatView {
        ChatView {
            pending_permission: true,
            ..self.in_state(SessionState::WaitingForPermission).told(
                SessionEventView::PermissionRequested { request },
            )
        }
    }

    /// The session after the user answered: no question is open any more.
    pub open spec fn responded(self, granted: bool) -> ChatView {
        ChatView { pending_permission: false, ..self }.told(
            SessionEventView::PermissionGranted { granted },
        )
    }

    /// The answer to hand on when the user answers. There is one only where a question is open.
    pub open spec fn answer(self, granted: bool, reason: Option<Seq<char>>) -> Option<
        PermissionResponseView,
    > {
        if !self.pending_permission {
            None
        } else if granted {
            Some(PermissionResponseView { granted: true, reason: None })
        } else {
            Some(
                PermissionResponseView {
                    granted: false,
                    reason: Some(
                        match reason {
                            Some(words) => words,
                            None => "Permission denied"@,
                        },
                    ),
                },
            )
        }
    }
}

/// The messages of the answers in a response.
pub open spec fn answers(response: ChatCompletionResponse) -> Seq<ChatMessageView> {
    response.choices@.map_values(|c: crate::provider::Choice| c.message@)
}

impl<T> Session<T> {
    /// The tools that the service may call, and how they are shown.
    pub closed spec fn entries(&self) -> Seq<tools::Entry<T>> {
        self.tool_registry@
    }

    /// A new session under a random identifier.
    pub fn new(config: SessionConfig, tool_registry: ToolRegistry<T>) -> (session: Self)
        ensures
            session@ == fresh(
                session@.id,
                config@,
                definitions_of(tools::shown(tool_registry@)),
            ),
            id_came(session@.id),
            hex_value(session@.id, 12) == 4,
            8 <= hex_value(session@.id, 16) < 12,
            session.entries() == tool_registry@,
    {
        Session::with_id(fresh_id(), config, tool_registry)
    }

    /// A new session under the given identifier.
    pub fn with_id(id: u128, config: SessionConfig, tool_registry: ToolRegistry<T>) -> (session:
        Self)
        ensures
            session@ == fresh(
                id,
                config@,
                definitions_of(tools::shown(tool_registry@)),
            ),
            session.entries() == tool_registry@,
    {
        let mut messages: Vec<ChatMessage> = Vec::new();
        match &config.system_prompt {
            Some(prompt) => messages.push(ChatMessage::system(prompt)),
            None => {},
        }
        assert(views::of(messages@) =~= first_messages(config@));
        Session {
            id,
            config,
            tool_registry,
            messages,
            state: SessionState::Idle,
            pending_permission: false,
            events: Vec::new(),
            aborts: Vec::new(),
        }
    }

    /// The identifier of the session.
    pub fn id(&self) -> (id: u128)
        ensures
            id == self@.id,
    {
        self.id
    }

    /// What the session is doing.
    pub fn state(&self) -> (state: SessionState)
        ensures
            state == self@.state,
    {
        self.state
    }

    /// The tools that the service may call.
    pub fn tool_registry(&self) -> (registry: &ToolRegistry<T>)
        ensures
            registry@ == self.entries(),
            definitions_of(tools::shown(registry@)) == self@.definitions,
    {
        &self.tool_registry
    }

    /// Hands over what was told since the last time.
    pub fn take_events(&mut self) -> (events: Vec<SessionEvent>)
        ensures
            views::of(events@) == old(self)@.events,
            final(self)@ == (ChatView { events: Seq::empty(), ..old(self)@ }),
            final(self).entries() == old(self).entries(),
    {
        let mut events: Vec<SessionEvent> = Vec::new();
        std::mem::swap(&mut events, &mut self.events);
        events
    }

    /// Hands over the calls to stop since the last time.
    pub fn take_aborts(&mut self) -> (aborts: Vec<AbortEvent>)
        ensures
            views::of(aborts@) == old(self)@.aborts,
            final(self)@ == (ChatView { aborts: Seq::empty(), ..old(self)@ }),
            final(self).entries() == old(self).entries(),
    {
        let mut aborts: Vec<AbortEvent> = Vec::new();
        std::mem::swap(&mut aborts, &mut self.aborts);
        aborts
    }

    /// Puts the session in a state, and tells so.
    pub fn set_state(&mut self, state: SessionState)
        ensures
            final(self)@ == old(self)@.in_state(state),
            final(self).entries() == old(self).entries(),
    {
        self.state = state;
        self.events.push(SessionEvent::StateChanged { state });
    }

    /// Aborts the session: everything that runs in it is called to stop.
    pub fn abort<R: IntoText>(&mut self, reason: R)
        ensures
            final(self)@ == old(self)@.aborted(reason.text()),
            final(self).entries() == old(self).entries(),
    {
        let reason = reason.into_text();
        self.set_state(SessionState::Aborted);
        self.aborts.push(AbortEvent::for_session(id_text(self.id), &reason));
        self.events.push(SessionEvent::Aborted { reason });
    }

    /// Adds a message, and tells so.
    pub fn add_message(&mut self, message: ChatMessage)
        ensures
            final(self)@ == old(self)@.with_message(message@),
            final(self).entries() == old(self).entries(),
    {
        let content: String = match &message.content {
            Some(content) => content.clone(),
            None => String::new(),
        };
        self.events.push(
            SessionEvent::MessageAdded { role: message.role.as_event().to_owned(), content },
        );
        self.messages.push(message);
    }

    /// The messages.
    pub fn messages(&self) -> (messages: Vec<ChatMessage>)
        ensures
            views::of(messages@) == self@.messages,
    {
        let messages = self.messages.clone();
        assert(views::of(messages@) =~= views::of(self.messages@));
        messages
    }

    /// Adds a message of the user.
    pub fn send_user_message<C: IntoText>(&mut self, content: C)
        ensures
            final(self)@ == old(self)@.with_message(
                ChatMessageView::plain(Role::User, content.text()),
            ),
            final(self).entries() == old(self).entries(),
    {
        self.add_message(ChatMessage::user(content));
    }

    // ==================== Completing ====================

    /// Starts a completion: the session runs, and this is the request to send.
    pub fn complete(&mut self) -> (request: ChatCompletionRequest)
        ensures
            final(self)@ == old(self)@.in_state(SessionState::Running),
            request@ == old(self)@.request(),
            final(self).entries() == old(self).entries(),
    {
        self.set_state(SessionState::Running);
        let mut request = ChatCompletionRequest::new(&self.config.model, self.messages());
        request = request.with_tools(self.tool_registry.to_openai_tools());
        if let Some(max_tokens) = self.config.max_tokens {
            request = request.with_max_tokens(max_tokens);
        }
        if let Some(temperature) = self.config.temperature {
            request = request.with_temperature(temperature);
        }
        request
    }

    /// Ends a completion with the reply of the service. The first answer is added, where there is
    /// one. An error is handed on, and the session stays as it is.
    pub fn completed(&mut self, reply: Result<ChatCompletionResponse, ProviderError>) -> (response:
        Result<ChatCompletionResponse, ProviderError>)
        ensures
            response == reply,
            match reply {
                Ok(r) => final(self)@ == old(self)@.replied(answers(r)),
                Err(_) => final(self)@ == old(self)@,
            },
            final(self).entries() == old(self).entries(),
    {
        match reply {
            Ok(response) => {
                if response.choices.len() > 0 {
                    self.add_message(response.choices[0].message.clone());
                }
                self.set_state(SessionState::Completed);
                Ok(response)
            },
            Err(e) => Err(e),
        }
    }

    // ==================== Permissions ====================

    /// Opens a question: the session waits for the answer. A question that was open before gets
    /// none any more.
    pub fn request_permission(&mut self, request: &PermissionRequest)
        ensures
            final(self)@ == old(self)@.asking(request@),
            final(self).entries() == old(self).entries(),
    {
        self.set_state(SessionState::WaitingForPermission);
        self.events.push(SessionEvent::PermissionRequested { request: request.clone() });
        self.pending_permission = true;
    }

    /// Ends a question with the answer that came. Where none came any more, that is a refusal.
    pub fn permission_received(&mut self, answer: Option<PermissionResponse>) -> (response:
        PermissionResponse)
        ensures
            final(self)@ == old(self)@.in_state(SessionState::Running),
            response@ == (match answer {
                Some(a) => a@,
                None => PermissionResponseView {
                    granted: false,
                    reason: Some("Permission request cancelled"@),
                },
            }),
            final(self).entries() == old(self).entries(),
    {
        self.set_state(SessionState::Running);
        match answer {
            Some(response) => response,
            None => PermissionResponse::denied("Permission request cancelled"),
        }
    }

    /// Answers the open question, where there is one: this is the answer to hand on. That there
    /// was an answer is told in any case.
    pub fn respond_to_permission(&mut self, granted: bool, reason: Option<String>) -> (answer:
        Option<PermissionResponse>)
        ensures
            final(self)@ == old(self)@.responded(granted),
            views::option(answer) == old(self)@.answer(granted, views::option(reason)),
            final(self).entries() == old(self).entries(),
    {
        let answer: Option<PermissionResponse> = if !self.pending_permission {
            None
        } else if granted {
            Some(PermissionResponse::granted())
        } else {
            match reason {
                Some(words) => Some(PermissionResponse::denied(words)),
                None => Some(PermissionResponse::denied("Permission denied")),
            }
        };
        self.pending_permission = false;
        self.events.push(SessionEvent::PermissionGranted { granted });
        answer
    }

    /// Tells how far a tool has come.
    pub fn report_progress(&mut self, progress: Progress)
        ensures
            final(self)@ == old(self)@.told(
                SessionEventView::Progress { message: progress@.message },
            ),
            final(self).entries() == old(self).entries(),
    {
        self.events.push(SessionEvent::Progress { message: progress.message });
    }
}

// ==================== Tool calls ====================

/// The tool calls of an answer, and the results of the first of them.
pub struct ToolRound {
    calls: Vec<ToolCall>,
    results: Vec<ToolResult>,
}

/// What a [`ToolRound`] holds.
pub struct RoundView {
    pub calls: Seq<ToolCallView>,
    pub results: Seq<ResultView>,
}

impl View for ToolRound {
    type V = RoundView;

    closed spec fn view(&self) -> RoundView {
        RoundView { calls: views::of(self.calls@), results: views::of(self.results@) }
    }
}

impl RoundView {
    /// The first call without a result.
    pub open spec fn due(self) -> ToolCallView {
        self.calls[self.results.len() as int]
    }

    /// The round with one more result.
    pub open spec fn with_result(self, result: ResultView) -> RoundView {
        RoundView { results: self.results.push(result), ..self }
    }
}

impl ToolRound {
    /// A round of calls of which none has a result.
    pub fn new(calls: Vec<ToolCall>) -> (round: Self)
        ensures
            round@ == (RoundView { calls: views::of(calls@), results: Seq::empty() }),
    {
        ToolRound { calls, results: Vec::new() }
    }

    /// The results, in the order of the calls.
    pub fn into_results(self) -> (results: Vec<ToolResult>)
        ensures
            views::of(results@) == self@.results,
    {
        self.results
    }
}

/// What to do about a round of calls next.
pub enum RoundStep {
    /// Nothing: every call has its result.
    Done,
    /// Nothing: the round failed, and why.
    Failed(String),
    /// Run the tool with the arguments.
    Execute { tool_name: String, args: serde_json::Value },
}

/// What a [`RoundStep`] says.
pub enum RoundStepView {
    Done,
    Failed(Seq<char>),
    Execute { tool_name: Seq<char>, args: Json },
}

impl View for RoundStep {
    type V = RoundStepView;

    open spec fn view(&self) -> RoundStepView {
        match self {
            RoundStep::Done => RoundStepView::Done,
            RoundStep::Failed(why) => RoundStepView::Failed(why@),
            RoundStep::Execute { tool_name, args } => RoundStepView::Execute {
                tool_name: tool_name@,
                args: json::json(*args),
            },
        }
    }
}

/// A session and a round in it, and what to do next. Without a step, the next call is due.
pub struct RoundState {
    pub session: ChatView,
    pub round: RoundView,
    pub step: Option<RoundStepView>,
}

/// The arguments of a call, or why they cannot be read.
pub open spec fn read_arguments(arguments: Seq<char>) -> Result<Json, Seq<char>> {
    match json::parsed_object(arguments) {
        Ok(members) => Ok(Json::Object(members)),
        Err(why) => Err(why),
    }
}

/// What is made of the call that is due, once its arguments are read. The call is told; a tool
/// that is not there makes a result at once, and any other is to be run. Arguments that cannot be
/// read end the round.
pub open spec fn call_begun(
    session: ChatView,
    round: RoundView,
    read: Result<Json, Seq<char>>,
) -> RoundState {
    let name = round.due().name;
    match read {
        Err(why) => RoundState { session, round, step: Some(RoundStepView::Failed(why)) },
        Ok(args) => {
            let told = session.told(SessionEventView::ToolCalled { tool_name: name, args });
            if defines(session.definitions, name) {
                RoundState {
                    session: told,
                    round,
                    step: Some(RoundStepView::Execute { tool_name: name, args }),
                }
            } else {
                RoundState {
                    session: told,
                    round: round.with_result(ResultView::failed("Unknown tool: "@ + name)),
                    step: None,
                }
            }
        },
    }
}

/// What is made of the calls that are due, up to one that has to be run, or that ends the round,
/// or to the end.
pub open spec fn proceeded(session: ChatView, round: RoundView) -> RoundState
    decreases round.calls.len() - round.results.len(),
{
    if round.results.len() >= round.calls.len() {
        RoundState { session, round, step: Some(RoundStepView::Done) }
    } else {
        let next = call_begun(session, round, read_arguments(round.due().arguments));
        if next.step is Some {
            next
        } else {
            proceeded(next.session, next.round)
        }
    }
}

/// What is made of a round when a tool returned: its result is told and kept, and the round goes
/// on. A tool that failed without a result ends the round.
pub open spec fn returned(
    session: ChatView,
    round: RoundView,
    outcome: Result<ResultView, Seq<char>>,
) -> RoundState {
    match outcome {
        Err(why) => RoundState { session, round, step: Some(RoundStepView::Failed(why)) },
        Ok(result) => proceeded(
            session.told(
                SessionEventView::ToolResult { tool_name: round.due().name, result },
            ),
            round.with_result(result),
        ),
    }
}

/// What a tool returned.
pub open spec fn outcome_view(outcome: Result<ToolResult, String>) -> Result<
    ResultView,
    Seq<char>,
> {
    match outcome {
        Ok(result) => Ok(result@),
        Err(why) => Err(why@),
    }
}

/// What a parser read.
pub open spec fn read_view(read: Result<serde_json::Value, String>) -> Result<Json, Seq<char>> {
    match read {
        Ok(v) => Ok(json::json(v)),
        Err(why) => Err(why@),
    }
}

impl<T> Session<T> {
    /// Makes of the call that is due what its arguments, once read, call for.
    pub fn begin_call(
        &mut self,
        round: &mut ToolRound,
        read: Result<serde_json::Value, String>,
    ) -> (step: Option<RoundStep>)
        requires
            old(round)@.results.len() < old(round)@.calls.len(),
        ensures
            ({
                let next = call_begun(old(self)@, old(round)@, read_view(read));
                &&& final(self)@ == next.session
                &&& final(round)@ == next.round
                &&& views::option(step) == next.step
            }),
            final(self).entries() == old(self).entries(),
    {
        let ghost due = round@.due();
        let args = match read {
            Ok(args) => args,
            Err(why) => {
                return Some(RoundStep::Failed(why));
            },
        };
        let name = round.calls[round.results.len()].function.name.clone();
        assert(name@ == due.name);
        proof {
            lemma_defined_is_found(self.tool_registry@, name@);
        }
        self.events.push(
            SessionEvent::ToolCalled { tool_name: name.clone(), args: args.clone() },
        );
        if self.tool_registry.contains(name.as_str()) {
            Some(RoundStep::Execute { tool_name: name, args })
        } else {
            round.results.push(ToolResult::failure(text::joined("Unknown tool: ", name.as_str())));
            None
        }
    }

    /// Goes on with a round of calls, up to a tool that has to be run, or to its end.
    pub fn handle_tool_calls(&mut self, round: &mut ToolRound) -> (step: RoundStep)
        ensures
            ({
                let next = proceeded(old(self)@, old(round)@);
                &&& final(self)@ == next.session
                &&& final(round)@ == next.round
                &&& Some(step@) == next.step
            }),
            final(self).entries() == old(self).entries(),
    {
        let ghost all = proceeded(self@, round@);
        while round.results.len() < round.calls.len()
            invariant
                all == proceeded(old(self)@, old(round)@),
                proceeded(self@, round@) == all,
                self.entries() == old(self).entries(),
            decreases round@.calls.len() - round@.results.len(),
        {
            let read = json::parse_object(
                round.calls[round.results.len()].function.arguments.as_str(),
            );
            assert(read_view(read) == read_arguments(round@.due().arguments));
            match self.begin_call(round, read) {
                Some(step) => {
                    return step;
                },
                None => {},
            }
        }
        RoundStep::Done
    }

    /// Takes what the tool returned that was to be run, and goes on with the round.
    pub fn tool_returned(
        &mut self,
        round: &mut ToolRound,
        outcome: Result<ToolResult, String>,
    ) -> (step: RoundStep)
        requires
            old(round)@.results.len() < old(round)@.calls.len(),
        ensures
            ({
                let next = returned(old(self)@, old(round)@, outcome_view(outcome));
                &&& final(self)@ == next.session
                &&& final(round)@ == next.round
                &&& Some(step@) == next.step
            }),
            final(self).entries() == old(self).entries(),
    {
        let ghost due = round@.due();
        match outcome {
            Err(why) => RoundStep::Failed(why),
            Ok(result) => {
                let name = round.calls[round.results.len()].function.name.clone();
                assert(name@ == due.name);
                self.events.push(
                    SessionEvent::ToolResult { tool_name: name, result: result.clone() },
                );
                round.results.push(result);
                self.handle_tool_calls(round)
            },
        }
    }
}

/// A tool is found if and only if it is shown.
proof fn lemma_defined_is_found<T>(held: Seq<tools::Entry<T>>, name: Seq<char>)
    ensures
        tools::lookup(held, name) is Some <==> defines(definitions_of(tools::shown(held)), name),
{
    tools::law_what_is_shown_is_found(held, name);
    let shown = tools::shown(held);
    let defined = definitions_of(shown);
    if tools::offers(shown, name) {
        let i = choose|i: int| 0 <= i < shown.len() && (#[trigger] shown[i]).name == name;
        assert(defined[i].name == name);
    }
    if defines(defined, name) {
        let i = choose|i: int| 0 <= i < defined.len() && (#[trigger] defined[i]).name == name;
        assert(shown[i].name == name);
    }
}

// ==================== Laws ====================

/// A round keeps the results that it has, in their order, and the calls; and it is done only when
/// each call has its result.
pub proof fn law_a_round_answers_every_call(session: ChatView, round: RoundView)
    requires
        round.results.len() <= round.calls.len(),
    ensures
        ({
            let end = proceeded(session, round);
            &&& end.round.calls == round.calls
            &&& round.results.len() <= end.round.results.len() <= round.calls.len()
            &&& end.round.results.take(round.results.len() as int) == round.results
            &&& end.step == Some(RoundStepView::Done) ==> end.round.results.len()
                == round.calls.len()
            &&& end.step is Some
        }),
    decreases round.calls.len() - round.results.len(),
{
    if round.results.len() < round.calls.len() {
        let next = call_begun(session, round, read_arguments(round.due().arguments));
        if next.step is None {
            law_a_round_answers_every_call(next.session, next.round);
            let end = proceeded(next.session, next.round).round.results;
            let n = round.results.len() as int;
            assert(end.take(n) =~= end.take(n + 1).take(n));
            assert(next.round.results.take(n) =~= round.results);
        } else {
            assert(round.results.take(round.results.len() as int) =~= round.results);
        }
    } else {
        assert(round.results.take(round.results.len() as int) =~= round.results);
    }
}

/// The tools that a session shows to the service are those that it holds.
pub proof fn law_what_is_shown_is_held<T>(session: Session<T>)
    ensures
        session@.definitions == definitions_of(tools::shown(session.entries())),
{
}

/// A tool is run only if it is there, and with the arguments that its call wrote down.
pub proof fn law_only_known_tools_run(session: ChatView, round: RoundView)
    requires
        round.results.len() <= round.calls.len(),
    ensures
        ({
            let end = proceeded(session, round);
            end.step matches Some(RoundStepView::Execute { tool_name, args }) ==> {
                &&& end.round.results.len() < round.calls.len()
                &&& tool_name == end.round.due().name
                &&& defines(session.definitions, tool_name)
                &&& read_arguments(end.round.due().arguments) == Ok::<Json, Seq<char>>(args)
            }
        }),
    decreases round.calls.len() - round.results.len(),
{
    if round.results.len() < round.calls.len() {
        let next = call_begun(session, round, read_arguments(round.due().arguments));
        if next.step is None {
            law_only_known_tools_run(next.session, next.round);
        }
    }
}

/// A question gets one answer: the first that is given to it, and none after that.
pub proof fn law_a_question_gets_one_answer(
    session: ChatView,
    request: PermissionRequestView,
    granted: bool,
    reason: Option<Seq<char>>,
    later: bool,
    later_reason: Option<Seq<char>>,
)
    ensures
        session.asking(request).answer(granted, reason) matches Some(answer) && answer.granted
            == granted,
        session.asking(request).responded(granted).answer(later, later_reason) is None,
{
}

/// The session is in the state that was told last.
pub open spec fn state_is_told(session: ChatView) -> bool {
    forall|i: int|
        0 <= i < session.events.len() && (#[trigger] session.events[i]) is StateChanged && (forall|
            j: int,
        |
            i < j < session.events.len() ==> !((#[trigger] session.events[j]) is StateChanged))
            ==> session.events[i] == (SessionEventView::StateChanged { state: session.state })
}

/// Changing the state tells it, and adding messages, completing, asking and aborting keep what was
/// told of the state true.
pub proof fn law_the_state_is_told(
    session: ChatView,
    state: SessionState,
    message: ChatMessageView,
    choices: Seq<ChatMessageView>,
    request: PermissionRequestView,
    reason: Seq<char>,
)
    requires
        state_is_told(session),
    ensures
        state_is_told(session.in_state(state)),
        state_is_told(session.with_message(message)),
        state_is_told(session.replied(choices)),
        state_is_told(session.asking(request)),
        state_is_told(session.aborted(reason)),
{
    lemma_told_in_state(session, state);
    lemma_told_in_state(session, SessionState::Completed);
    if choices.len() > 0 {
        lemma_told_in_state(session.with_message(choices[0]), SessionState::Completed);
    }
    lemma_told_in_state(session, SessionState::WaitingForPermission);
    lemma_told_in_state(session, SessionState::Aborted);
    lemma_told_of_something_else(
        session,
        session.with_message(message),
        session.with_message(message).events.last(),
    );
    lemma_told_of_something_else(
        session.in_state(SessionState::WaitingForPermission),
        session.asking(request),
        SessionEventView::PermissionRequested { request },
    );
    lemma_told_of_something_else(
        session.in_state(SessionState::Aborted),
        session.aborted(reason),
        SessionEventView::Aborted { reason },
    );
}

/// A round of calls keeps what was told of the state true, whatever the tools return, and leaves
/// the state as it is.
pub proof fn law_a_round_keeps_the_state(
    session: ChatView,
    round: RoundView,
    outcome: Result<ResultView, Seq<char>>,
)
    requires
        state_is_told(session),
    ensures
        proceeded(session, round).session.state == session.state,
        state_is_told(proceeded(session, round).session),
        returned(session, round, outcome).session.state == session.state,
        state_is_told(returned(session, round, outcome).session),
{
    lemma_proceeding_keeps_the_state(session, round);
    if let Ok(result) = outcome {
        let event = SessionEventView::ToolResult { tool_name: round.due().name, result };
        lemma_told_of_something_else(session, session.told(event), event);
        lemma_proceeding_keeps_the_state(session.told(event), round.with_result(result));
    }
}

proof fn lemma_proceeding_keeps_the_state(session: ChatView, round: RoundView)
    requires
        state_is_told(session),
    ensures
        proceeded(session, round).session.state == session.state,
        state_is_told(proceeded(session, round).session),
    decreases round.calls.len() - round.results.len(),
{
    if round.results.len() < round.calls.len() {
        let read = read_arguments(round.due().arguments);
        let next = call_begun(session, round, read);
        if let Ok(args) = read {
            let event = SessionEventView::ToolCalled { tool_name: round.due().name, args };
            lemma_told_of_something_else(session, session.told(event), event);
        }
        if next.step is None {
            lemma_proceeding_keeps_the_state(next.session, next.round);
        }
    }
}

proof fn lemma_told_in_state(session: ChatView, state: SessionState)
    ensures
        state_is_told(session.in_state(state)),
{
    let after = session.in_state(state);
    assert forall|i: int|
        0 <= i < after.events.len() && (#[trigger] after.events[i]) is StateChanged && (forall|
            j: int,
        |
            i < j < after.events.len() ==> !((#[trigger] after.events[j]) is StateChanged))
        implies after.events[i] == (SessionEventView::StateChanged { state: after.state }) by {
        let n = session.events.len() as int;
        if i < n {
            assert(after.events[n] is StateChanged);
        }
    }
}

proof fn lemma_told_of_something_else(
    before: ChatView,
    after: ChatView,
    event: SessionEventView,
)
    requires
        state_is_told(before),
        after.state == before.state,
        after.events == before.events.push(event),
        !(event is StateChanged),
    ensures
        state_is_told(after),
{
    assert forall|i: int|
        0 <= i < after.events.len() && (#[trigger] after.events[i]) is StateChanged && (forall|
            j: int,
        |
            i < j < after.events.len() ==> !((#[trigger] after.events[j]) is StateChanged))
        implies after.events[i] == (SessionEventView::StateChanged { state: after.state }) by {
        assert(i < before.events.len());
        assert(after.events[i] == before.events[i]);
        assert forall|j: int| i < j < before.events.len() implies !((
        #[trigger] before.events[j]) is StateChanged) by {
            assert(after.events[j] == before.events[j]);
        }
    }
}

/// A new session is idle, and holds its system prompt as a system message, where it has one, and
/// nothing else.
pub proof fn law_a_session_begins_with_its_prompt(
    id: u128,
    config: SessionConfigView,
    definitions: Seq<ToolDefinitionView>,
)
    ensures
        ({
            let session = fresh(id, config, definitions);
            &&& session.id == id
            &&& session.config == config
            &&& session.definitions == definitions
            &&& session.state == SessionState::Idle
            &&& !session.pending_permission
            &&& session.events.len() == 0
            &&& session.aborts.len() == 0
            &&& match config.system_prompt {
                Some(prompt) => {
                    &&& session.messages.len() == 1
                    &&& session.messages[0].role == Role::System
                    &&& session.messages[0].content == Some(prompt)
                    &&& session.messages[0].tool_calls is None
                    &&& session.messages[0].tool_call_id is None
                },
                None => session.messages.len() == 0,
            }
        }),
{
}

/// A message that is added comes last, and is told with its role and its text; nothing else
/// changes.
pub proof fn law_a_message_is_added_last(session: ChatView, message: ChatMessageView)
    ensures
        ({
            let more = session.with_message(message);
            &&& more.messages == session.messages.push(message)
            &&& more.events.len() == session.events.len() + 1
            &&& more.events.take(session.events.len() as int) == session.events
            &&& more.events.last() matches SessionEventView::MessageAdded { role, content }
            &&& match message.role {
                Role::System => role == "System"@,
                Role::User => role == "User"@,
                Role::Assistant => role == "Assistant"@,
                Role::Tool => role == "Tool"@,
            }
            &&& match message.content {
                Some(t) => content == t,
                None => content.len() == 0,
            }
            &&& more.state == session.state
            &&& more.config == session.config
            &&& more.definitions == session.definitions
            &&& more.pending_permission == session.pending_permission
            &&& more.aborts == session.aborts
            &&& more.id == session.id
        }),
{
    assert(session.with_message(message).events.take(session.events.len() as int)
        =~= session.events);
}

/// A request asks the model of the session, and holds every message, every tool, and the limits of
/// the session as they are.
pub proof fn law_a_request_holds_the_conversation(session: ChatView)
    ensures
        session.request().model == session.config.model,
        session.request().messages == session.messages,
        session.request().tools == Some(session.definitions),
        session.request().temperature == session.config.temperature,
        session.request().max_tokens == session.config.max_tokens,
        session.request().stream is None,
{
}

/// Of a reply the first answer is added behind the messages, and no other; the session is then
/// completed, whether or not there was an answer.
pub proof fn law_the_first_answer_is_kept(session: ChatView, choices: Seq<ChatMessageView>)
    ensures
        session.replied(choices).state == SessionState::Completed,
        choices.len() > 0 ==> session.replied(choices).messages == session.messages.push(
            choices[0],
        ),
        choices.len() == 0 ==> session.replied(choices).messages == session.messages,
{
}

/// Aborting puts the session in that state, sends one call to stop with the reason and the
/// identifier of the session, and tells the reason last. The messages stay.
pub proof fn law_an_abort_is_sent_out(session: ChatView, reason: Seq<char>)
    ensures
        ({
            let after = session.aborted(reason);
            &&& after.state == SessionState::Aborted
            &&& after.messages == session.messages
            &&& after.aborts.len() == session.aborts.len() + 1
            &&& after.aborts.take(session.aborts.len() as int) == session.aborts
            &&& after.aborts.last().reason == reason
            &&& after.aborts.last().session_id == Some(hyphenated(session.id))
            &&& after.events.last() == (SessionEventView::Aborted { reason })
        }),
{
    assert(session.aborted(reason).aborts.take(session.aborts.len() as int) =~= session.aborts);
}

/// An answer to an open question is handed on as it was given. A refusal carries the words that
/// were given with it, or some of its own.
pub proof fn law_an_answer_is_handed_on(
    session: ChatView,
    request: PermissionRequestView,
    granted: bool,
    reason: Option<Seq<char>>,
)
    ensures
        session.asking(request).state == SessionState::WaitingForPermission,
        session.asking(request).events.last() == (SessionEventView::PermissionRequested {
            request,
        }),
        session.asking(request).messages == session.messages,
        session.asking(request).answer(granted, reason) matches Some(answer) && answer.granted
            == granted && (granted ==> answer.reason is None) && (!granted ==> match reason {
            Some(words) => answer.reason == Some(words),
            None => answer.reason == Some("Permission denied"@),
        }),
        session.responded(granted).events.last() == (SessionEventView::PermissionGranted {
            granted,
        }),
        !session.responded(granted).pending_permission,
        !session.pending_permission ==> session.answer(granted, reason) is None,
{
}

/// The result is that of a call whose tool is not among the tools, and says so.
pub open spec fn refused(
    definitions: Seq<ToolDefinitionView>,
    name: Seq<char>,
    result: ResultView,
) -> bool {
    &&& !result.success
    &&& result.output.len() == 0
    &&& result.error == Some("Unknown tool: "@ + name)
    &&& forall|i: int| 0 <= i < definitions.len() ==> (#[trigger] definitions[i]).name != name
}

/// Going on with a round gives a result only to calls whose tools are not there, and says so in
/// it; it stops at the first call whose tool is there, or whose arguments cannot be read, or when
/// there is no call left.
pub proof fn law_a_round_goes_from_call_to_call(session: ChatView, round: RoundView)
    requires
        round.results.len() <= round.calls.len(),
    ensures
        ({
            let end = proceeded(session, round);
            let n = round.results.len() as int;
            let m = end.round.results.len() as int;
            &&& n <= m <= round.calls.len()
            &&& end.round.calls == round.calls
            &&& end.session.messages == session.messages
            &&& end.session.definitions == session.definitions
            &&& forall|j: int| 0 <= j < n ==> end.round.results[j] == #[trigger] round.results[j]
            &&& forall|j: int|
                n <= j < m ==> refused(
                    session.definitions,
                    round.calls[j].name,
                    #[trigger] end.round.results[j],
                )
            &&& match end.step {
                Some(RoundStepView::Done) => m == round.calls.len(),
                Some(RoundStepView::Failed(why)) => m < round.calls.len() && json::parsed_object(
                    round.calls[m].arguments,
                ) == Err::<Map<Seq<char>, Json>, Seq<char>>(why),
                Some(RoundStepView::Execute { tool_name, args }) => {
                    &&& m < round.calls.len()
                    &&& tool_name == round.calls[m].name
                    &&& json::parsed_object(round.calls[m].arguments) is Ok
                    &&& args == Json::Object(json::parsed_object(round.calls[m].arguments)->Ok_0)
                    &&& exists|i: int|
                        0 <= i < session.definitions.len() && (
                        #[trigger] session.definitions[i]).name == tool_name
                },
                None => false,
            }
        }),
    decreases round.calls.len() - round.results.len(),
{
    if round.results.len() < round.calls.len() {
        let next = call_begun(session, round, read_arguments(round.due().arguments));
        if next.step is None {
            law_a_round_goes_from_call_to_call(next.session, next.round);
            let end = proceeded(session, round);
            let n = round.results.len() as int;
            assert(end == proceeded(next.session, next.round));
            assert(end.round.results[n] == next.round.results[n]);
            assert(refused(session.definitions, round.calls[n].name, end.round.results[n]));
            assert forall|j: int| 0 <= j < n implies end.round.results[j]
                == #[trigger] round.results[j] by {
                assert(next.round.results[j] == round.results[j]);
            }
        }
    }
}

/// What a tool returned becomes the result of its call, as it is, and is told; a tool that failed
/// without a result ends the round with its words, and nothing changes.
pub proof fn law_a_tool_result_is_kept(
    session: ChatView,
    round: RoundView,
    outcome: Result<ResultView, Seq<char>>,
)
    requires
        round.results.len() < round.calls.len(),
    ensures
        ({
            let end = returned(session, round, outcome);
            let n = round.results.len() as int;
            match outcome {
                Ok(result) => {
                    &&& end.round.results.len() > n
                    &&& end.round.results[n] == result
                    &&& end.session.messages == session.messages
                    &&& end.session.events.len() > session.events.len()
                    &&& end.session.events[session.events.len() as int] == (
                    SessionEventView::ToolResult { tool_name: round.calls[n].name, result })
                },
                Err(why) => end.step == Some(RoundStepView::Failed(why)) && end.session == session
                    && end.round == round,
            }
        }),
{
    if let Ok(result) = outcome {
        let event = SessionEventView::ToolResult { tool_name: round.due().name, result };
        let told = session.told(event);
        let more = round.with_result(result);
        law_a_round_goes_from_call_to_call(told, more);
        lemma_proceeding_only_tells_more(told, more);
        assert(proceeded(told, more).round.results[round.results.len() as int]
            == more.results[round.results.len() as int]);
        assert(told.events[session.events.len() as int] == event);
    }
}

proof fn lemma_proceeding_only_tells_more(session: ChatView, round: RoundView)
    ensures
        ({
            let end = proceeded(session, round);
            &&& end.session.events.len() >= session.events.len()
            &&& forall|i: int|
                0 <= i < session.events.len() ==> end.session.events[i]
                    == #[trigger] session.events[i]
        }),
    decreases round.calls.len() - round.results.len(),
{
    if round.results.len() < round.calls.len() {
        let next = call_begun(session, round, read_arguments(round.due().arguments));
        assert forall|i: int| 0 <= i < session.events.len() implies next.session.events[i]
            == #[trigger] session.events[i] by {}
        if next.step is None {
            lemma_proceeding_only_tells_more(next.session, next.round);
            let end = proceeded(session, round);
            assert forall|i: int| 0 <= i < session.events.len() implies end.session.events[i]
                == #[trigger] session.events[i] by {
                assert(end.session.events[i] == next.session.events[i]);
            }
        }
    }
}

/// Every call that is begun is told with its name and its arguments.
pub proof fn law_a_call_is_told(session: ChatView, round: RoundView, read: Result<Json, Seq<char>>)
    requires
        round.results.len() < round.calls.len(),
    ensures
        ({
            let next = call_begun(session, round, read);
            match read {
                Ok(args) => next.session.events == session.events.push(
                    SessionEventView::ToolCalled {
                        tool_name: round.calls[round.results.len() as int].name,
                        args,
                    },
                ),
                Err(_) => next.session == session && next.round == round,
            }
        }),
{
}

/// Putting a session in a state does just that and tells the state, and nothing else changes.
pub proof fn law_a_state_is_taken_on(session: ChatView, state: SessionState)
    ensures
        ({
            let after = session.in_state(state);
            &&& after.state == state
            &&& after.events == session.events.push(SessionEventView::StateChanged { state })
            &&& after.messages == session.messages
            &&& after.definitions == session.definitions
            &&& after.config == session.config
            &&& after.pending_permission == session.pending_permission
            &&& after.aborts == session.aborts
            &&& after.id == session.id
        }),
{
}

} // verus!
