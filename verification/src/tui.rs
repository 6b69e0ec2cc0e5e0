//! The terminal interface: what it shows, and what keys and events do to it.

use crate::agent;
use crate::event::{Event, EventView};
use crate::text;
use crate::text::IntoText;
use crate::views;
use vstd::prelude::*;
use vstd::string::StringExecFns;

verus! {

broadcast use crate::views::group_views;

// ==================== State ====================

/// What is shown.
#[derive(Debug)]
pub struct DisplayState {
    pub output_lines: Vec<String>,
    pub streaming_text: String,
    pub model_name: String,
    pub turn_active: bool,
    pub active_tool: Option<String>,
    pub total_tokens: u32,
    pub input: String,
    /// How many characters of the input stand in front of the cursor.
    pub input_cursor: usize,
    pub scroll_offset: u16,
}

/// What a [`DisplayState`] says.
pub struct DisplayView {
    pub output_lines: Seq<Seq<char>>,
    pub streaming_text: Seq<char>,
    pub model_name: Seq<char>,
    pub turn_active: bool,
    pub active_tool: Option<Seq<char>>,
    pub total_tokens: u32,
    pub input: Seq<char>,
    pub input_cursor: nat,
    pub scroll_offset: u16,
}

impl View for DisplayState {
    type V = DisplayView;

    open spec fn view(&self) -> DisplayView {
        DisplayView {
            output_lines: views::of(self.output_lines@),
            streaming_text: self.streaming_text@,
            model_name: self.model_name@,
            turn_active: self.turn_active,
            active_tool: views::option(self.active_tool),
            total_tokens: self.total_tokens,
            input: self.input@,
            input_cursor: self.input_cursor as nat,
            scroll_offset: self.scroll_offset,
        }
    }
}

impl DisplayState {
    /// Nothing shown yet.
    pub fn new<M: IntoText>(model_name: M) -> (state: Self)
        ensures
            state@ == (DisplayView {
                output_lines: Seq::empty(),
                streaming_text: Seq::empty(),
                model_name: model_name.text(),
                turn_active: false,
                active_tool: None,
                total_tokens: 0,
                input: Seq::empty(),
                input_cursor: 0,
                scroll_offset: 0,
            }),
            state@.well_formed(),
    {
        DisplayState {
            output_lines: Vec::new(),
            streaming_text: String::new(),
            model_name: model_name.into_text(),
            turn_active: false,
            active_tool: None,
            total_tokens: 0,
            input: String::new(),
            input_cursor: 0,
            scroll_offset: 0,
        }
    }
}

// ==================== Keys ====================

/// A key, as far as the interface knows it.
#[derive(Debug, Clone, Copy, PartialEq, Eq)]
pub enum KeyCode {
    Char(char),
    Enter,
    Backspace,
    Left,
    Right,
    Up,
    Down,
    Other,
}

/// A key that was pressed, and whether control was held with it and nothing else.
#[derive(Debug, Clone, Copy, PartialEq, Eq)]
pub struct KeyEvent {
    pub control: bool,
    pub code: KeyCode,
}

/// What a key asks for.
#[derive(Debug, PartialEq, Eq)]
pub enum TuiAction {
    Submit(String),
    Interrupt,
    Quit,
}

/// What a [`TuiAction`] says.
pub enum TuiActionView {
    Submit(Seq<char>),
    Interrupt,
    Quit,
}

impl View for TuiAction {
    type V = TuiActionView;

    open spec fn view(&self) -> TuiActionView {
        match self {
            TuiAction::Submit(t) => TuiActionView::Submit(t@),
            TuiAction::Interrupt => TuiActionView::Interrupt,
            TuiAction::Quit => TuiActionView::Quit,
        }
    }
}

impl DisplayView {
    /// The key is one that ends the turn or the program.
    pub open spec fn leaves(self, key: KeyEvent) -> bool {
        key.control && (key.code == KeyCode::Char('c') || key.code == KeyCode::Char('d'))
    }

    /// The cursor stands in the input, or at its end.
    pub open spec fn well_formed(self) -> bool {
        self.input_cursor <= self.input.len()
    }

    /// What of the input stands in front of the cursor.
    pub open spec fn in_front(self) -> Seq<char> {
        self.input.take(self.input_cursor as int)
    }

    /// What of the input stands behind the cursor.
    pub open spec fn behind(self) -> Seq<char> {
        self.input.skip(self.input_cursor as int)
    }

    /// What is shown after a key.
    pub open spec fn after_key(self, key: KeyEvent) -> DisplayView {
        if self.leaves(key) {
            self
        } else {
            match key.code {
                KeyCode::Enter => if self.input.len() > 0 {
                    DisplayView { input: Seq::empty(), input_cursor: 0, ..self }
                } else {
                    self
                },
                KeyCode::Char(c) => DisplayView {
                    input: self.input.insert(self.input_cursor as int, c),
                    input_cursor: self.input_cursor + 1,
                    ..self
                },
                KeyCode::Backspace => if self.input_cursor > 0 {
                    DisplayView {
                        input: self.input.remove(self.input_cursor - 1),
                        input_cursor: (self.input_cursor - 1) as nat,
                        ..self
                    }
                } else {
                    self
                },
                KeyCode::Left => if self.input_cursor > 0 {
                    DisplayView { input_cursor: (self.input_cursor - 1) as nat, ..self }
                } else {
                    self
                },
                KeyCode::Right => if self.input_cursor < self.input.len() {
                    DisplayView { input_cursor: self.input_cursor + 1, ..self }
                } else {
                    self
                },
                KeyCode::Up => DisplayView {
                    scroll_offset: if self.scroll_offset < u16::MAX {
                        (self.scroll_offset + 1) as u16
                    } else {
                        u16::MAX
                    },
                    ..self
                },
                KeyCode::Down => DisplayView {
                    scroll_offset: if self.scroll_offset > 0 {
                        (self.scroll_offset - 1) as u16
                    } else {
                        0
                    },
                    ..self
                },
                KeyCode::Other => self,
            }
        }
    }

    /// What a key asks for. Control-C interrupts a turn that is under way, and else quits.
    pub open spec fn asked(self, key: KeyEvent) -> Option<TuiActionView> {
        if key.control && key.code == KeyCode::Char('c') {
            Some(
                if self.turn_active {
                    TuiActionView::Interrupt
                } else {
                    TuiActionView::Quit
                },
            )
        } else if key.control && key.code == KeyCode::Char('d') {
            Some(TuiActionView::Quit)
        } else if key.code == KeyCode::Enter && self.input.len() > 0 {
            Some(TuiActionView::Submit(self.input))
        } else {
            None
        }
    }
}

/// Takes a key.
pub fn handle_key_event(key: KeyEvent, state: &mut DisplayState) -> (action: Option<TuiAction>)
    requires
        old(state)@.well_formed(),
    ensures
        final(state)@ == old(state)@.after_key(key),
        final(state)@.well_formed(),
        views::option(action) == old(state)@.asked(key),
{
    match key.code {
        KeyCode::Char(c) => {
            if key.control && c == 'c' {
                return if state.turn_active {
                    Some(TuiAction::Interrupt)
                } else {
                    Some(TuiAction::Quit)
                };
            }
            if key.control && c == 'd' {
                return Some(TuiAction::Quit);
            }
            let input = text::insert_at(state.input.as_str(), state.input_cursor, c);
            let count: usize = text::char_count(input.as_str());
            assert(state.input_cursor < count);
            state.input = input;
            state.input_cursor = state.input_cursor + 1;
            None
        },
        KeyCode::Enter => {
            if state.input.as_str().is_empty() {
                return None;
            }
            let text = state.input.clone();
            state.input = String::new();
            state.input_cursor = 0;
            Some(TuiAction::Submit(text))
        },
        KeyCode::Backspace => {
            if state.input_cursor > 0 {
                let cursor: usize = state.input_cursor - 1;
                state.input = text::remove_at(state.input.as_str(), cursor);
                state.input_cursor = cursor;
            }
            None
        },
        KeyCode::Left => {
            if state.input_cursor > 0 {
                state.input_cursor = state.input_cursor - 1;
            }
            None
        },
        KeyCode::Right => {
            let count: usize = text::char_count(state.input.as_str());
            if state.input_cursor < count {
                state.input_cursor = state.input_cursor + 1;
            }
            None
        },
        KeyCode::Up => {
            state.scroll_offset = state.scroll_offset.saturating_add(1);
            None
        },
        KeyCode::Down => {
            state.scroll_offset = state.scroll_offset.saturating_sub(1);
            None
        },
        KeyCode::Other => None,
    }
}

// ==================== Events ====================

impl DisplayView {
    /// What is shown with one more line.
    pub open spec fn with_line(self, line: Seq<char>) -> DisplayView {
        DisplayView { output_lines: self.output_lines.push(line), ..self }
    }

    /// What is shown after an event of the agent.
    pub open spec fn after_event(self, event: EventView) -> DisplayView {
        match event {
            EventView::TurnStarted => DisplayView {
                turn_active: true,
                active_tool: None,
                ..self
            },
            EventView::TextDelta(delta) => DisplayView {
                streaming_text: self.streaming_text + delta,
                ..self
            },
            EventView::TextDone(t) => DisplayView {
                streaming_text: Seq::empty(),
                ..self.with_line(t)
            },
            EventView::ToolCallBegin { id, name } => DisplayView {
                active_tool: Some(name),
                ..self.with_line("  [calling "@ + name + "]"@)
            },
            EventView::ToolCallEnd { id, name, output, is_error } => DisplayView {
                active_tool: None,
                ..self.with_line(
                    "  ["@ + name + if is_error {
                        " failed]"@
                    } else {
                        " done]"@
                    },
                )
            },
            EventView::TurnComplete { usage } => DisplayView {
                turn_active: false,
                total_tokens: match usage {
                    Some(u) => crate::session::saturating_sum(self.total_tokens, u.tokens()),
                    None => self.total_tokens,
                },
                ..self
            },
            EventView::TurnInterrupted => {
                let kept = if self.streaming_text.len() > 0 {
                    DisplayView {
                        streaming_text: Seq::empty(),
                        ..self.with_line(self.streaming_text)
                    }
                } else {
                    self
                };
                DisplayView { turn_active: false, ..kept.with_line("[interrupted]"@) }
            },
            EventView::Error(message) => DisplayView {
                turn_active: false,
                ..self.with_line("[error] "@ + message)
            },
            EventView::ApprovalRequired { id, tool_name, description } => self.with_line(
                "[approval] "@ + description,
            ),
        }
    }
}

/// The tokens that an event reports can be counted.
pub open spec fn countable(event: EventView) -> bool {
    event matches EventView::TurnComplete { usage: Some(u) } ==> u.countable()
}

/// Takes an event of the agent.
pub fn handle_agent_event(event: Event, state: &mut DisplayState)
    requires
        countable(event@),
    ensures
        final(state)@ == old(state)@.after_event(event@),
        old(state)@.well_formed() ==> final(state)@.well_formed(),
{
    match event {
        Event::TurnStarted => {
            state.turn_active = true;
            state.active_tool = None;
        },
        Event::TextDelta(delta) => {
            state.streaming_text.append(delta.as_str());
        },
        Event::TextDone(text) => {
            state.streaming_text = String::new();
            state.output_lines.push(text);
        },
        Event::ToolCallBegin { id: _, name } => {
            state.output_lines.push(text::joined3("  [calling ", name.as_str(), "]"));
            state.active_tool = Some(name);
        },
        Event::ToolCallEnd { id: _, name, output: _, is_error } => {
            state.active_tool = None;
            let end: &str = if is_error {
                " failed]"
            } else {
                " done]"
            };
            state.output_lines.push(text::joined3("  [", name.as_str(), end));
        },
        Event::TurnComplete { usage } => {
            state.turn_active = false;
            match usage {
                Some(u) => {
                    state.total_tokens = state.total_tokens.saturating_add(u.used());
                },
                None => {},
            }
        },
        Event::TurnInterrupted => {
            state.turn_active = false;
            if !state.streaming_text.as_str().is_empty() {
                let mut partial = String::new();
                std::mem::swap(&mut partial, &mut state.streaming_text);
                state.output_lines.push(partial);
            }
            state.output_lines.push("[interrupted]".to_owned());
        },
        Event::Error(message) => {
            state.turn_active = false;
            state.output_lines.push(text::joined("[error] ", message.as_str()));
        },
        Event::ApprovalRequired { id: _, tool_name: _, description } => {
            state.output_lines.push(text::joined("[approval] ", description.as_str()));
        },
    }
}

// ==================== Rendering ====================

/// How a line looks.
#[derive(Debug, Clone, Copy, PartialEq, Eq)]
pub enum LineStyle {
    /// As it is.
    Plain,
    /// Text that is still coming in, in green.
    Streaming,
    /// The tool that runs, in yellow.
    Tool,
}

/// A line of the output area.
#[derive(Debug, PartialEq, Eq)]
pub struct OutputLine {
    pub text: String,
    pub style: LineStyle,
}

impl View for OutputLine {
    type V = (Seq<char>, LineStyle);

    open spec fn view(&self) -> (Seq<char>, LineStyle) {
        (self.text@, self.style)
    }
}

/// What is drawn.
#[derive(Debug, PartialEq, Eq)]
pub struct Screen {
    pub lines: Vec<OutputLine>,
    pub scroll: u16,
    /// The status bar: the model, whether it is busy, and the tokens.
    pub model_name: String,
    pub status: &'static str,
    pub tokens: String,
    /// The input area, and where the cursor stands in it.
    pub input: String,
    pub cursor_x: u16,
}

/// The lines of the output area: what was put out, then the text that is still coming in, then
/// the tool that runs.
pub open spec fn screen_lines(state: DisplayView) -> Seq<(Seq<char>, LineStyle)> {
    state.output_lines.map_values(|l: Seq<char>| (l, LineStyle::Plain)) + (
    if state.streaming_text.len() > 0 {
        seq![(state.streaming_text, LineStyle::Streaming)]
    } else {
        Seq::empty()
    }) + (match state.active_tool {
        Some(tool) => seq![("  [tool: "@ + tool + "]"@, LineStyle::Tool)],
        None => Seq::empty(),
    })
}

/// What is drawn of the state. The cursor must not leave the range of columns.
pub fn render(state: &DisplayState) -> (screen: Screen)
    requires
        state@.input_cursor % 65536 + 2 <= u16::MAX,
    ensures
        views::of(screen.lines@) == screen_lines(state@),
        screen.scroll == state@.scroll_offset,
        screen.model_name@ == state@.model_name,
        screen.status@ == (if state@.turn_active {
            "busy"@
        } else {
            "idle"@
        }),
        screen.tokens@ == " | tok: "@ + text::decimal_of(state@.total_tokens as nat),
        screen.input@ == "> "@ + state@.input,
        screen.cursor_x == 2 + state@.input_cursor % 65536,
{
    let mut lines: Vec<OutputLine> = Vec::new();
    let ghost plain = |l: Seq<char>| (l, LineStyle::Plain);
    let ghost shown = state@.output_lines;
    assert(shown.take(0).map_values(plain) =~= Seq::empty());
    for i in 0..state.output_lines.len()
        invariant
            plain == (|l: Seq<char>| (l, LineStyle::Plain)),
            shown == views::of(state.output_lines@),
            views::of(lines@) == shown.take(i as int).map_values(plain),
    {
        lines.push(OutputLine { text: state.output_lines[i].clone(), style: LineStyle::Plain });
        assert(views::of(lines@) =~= shown.take(i + 1).map_values(plain));
    }
    assert(shown.take(shown.len() as int) =~= shown);
    let ghost base = views::of(lines@);
    if !state.streaming_text.as_str().is_empty() {
        lines.push(
            OutputLine { text: state.streaming_text.clone(), style: LineStyle::Streaming },
        );
    }
    match &state.active_tool {
        Some(tool) => lines.push(
            OutputLine {
                text: text::joined3("  [tool: ", tool.as_str(), "]"),
                style: LineStyle::Tool,
            },
        ),
        None => {},
    }
    assert(views::of(lines@) =~= screen_lines(state@));
    let column: u16 = (state.input_cursor % 65536) as u16;
    Screen {
        lines,
        scroll: state.scroll_offset,
        model_name: state.model_name.clone(),
        status: if state.turn_active {
            "busy"
        } else {
            "idle"
        },
        tokens: text::joined(
            " | tok: ",
            text::decimal(state.total_tokens as u128).as_str(),
        ),
        input: text::joined("> ", state.input.as_str()),
        cursor_x: 2 + column,
    }
}

// ==================== The loop ====================

/// What comes to the interface.
pub enum AppEvent {
    Key(KeyEvent),
    Resize,
    AgentEvent(Event),
    AgentGone,
}

/// What the loop does next.
#[derive(Debug, PartialEq, Eq)]
pub enum TuiStep {
    /// Draws, and waits for the next event.
    Draw,
    /// Hands the text to the agent.
    Submit(String),
    /// Interrupts the agent, then draws.
    Interrupt,
    /// Ends.
    Stop,
    /// Draws, and ends.
    DrawAndStop,
}

/// What a [`TuiStep`] says.
pub enum TuiStepView {
    Draw,
    Submit(Seq<char>),
    Interrupt,
    Stop,
    DrawAndStop,
}

impl View for TuiStep {
    type V = TuiStepView;

    open spec fn view(&self) -> TuiStepView {
        match self {
            TuiStep::Draw => TuiStepView::Draw,
            TuiStep::Submit(t) => TuiStepView::Submit(t@),
            TuiStep::Interrupt => TuiStepView::Interrupt,
            TuiStep::Stop => TuiStepView::Stop,
            TuiStep::DrawAndStop => TuiStepView::DrawAndStop,
        }
    }
}

/// The event can be taken.
pub open spec fn acceptable(state: DisplayView, event: Option<AppEvent>) -> bool {
    match event {
        Some(AppEvent::Key(_)) => state.well_formed(),
        Some(AppEvent::AgentEvent(e)) => countable(e@),
        _ => true,
    }
}

/// What is shown after what came.
pub open spec fn state_after(state: DisplayView, event: Option<AppEvent>) -> DisplayView {
    match event {
        Some(AppEvent::Key(key)) => match state.asked(key) {
            Some(TuiActionView::Submit(t)) => state.after_key(key).with_line("> "@ + t),
            _ => state.after_key(key),
        },
        Some(AppEvent::Resize) => state,
        Some(AppEvent::AgentEvent(e)) => state.after_event(e@),
        Some(AppEvent::AgentGone) => state.with_line("[agent shut down]"@),
        None => state,
    }
}

/// What the loop does after what came.
pub open spec fn step_after(state: DisplayView, event: Option<AppEvent>) -> TuiStepView {
    match event {
        Some(AppEvent::Key(key)) => match state.asked(key) {
            Some(TuiActionView::Submit(t)) => TuiStepView::Submit(t),
            Some(TuiActionView::Interrupt) => TuiStepView::Interrupt,
            Some(TuiActionView::Quit) => TuiStepView::Stop,
            None => TuiStepView::Draw,
        },
        Some(AppEvent::Resize) => TuiStepView::Draw,
        Some(AppEvent::AgentEvent(_)) => TuiStepView::Draw,
        Some(AppEvent::AgentGone) => TuiStepView::DrawAndStop,
        None => TuiStepView::Stop,
    }
}

/// Takes what came, and says what the loop does next. Nothing comes any more where there is no
/// event.
pub fn run_step(event: Option<AppEvent>, state: &mut DisplayState) -> (step: TuiStep)
    requires
        acceptable(old(state)@, event),
    ensures
        final(state)@ == state_after(old(state)@, event),
        old(state)@.well_formed() ==> final(state)@.well_formed(),
        step@ == step_after(old(state)@, event),
{
    match event {
        None => TuiStep::Stop,
        Some(AppEvent::Key(key)) => match handle_key_event(key, state) {
            Some(TuiAction::Submit(t)) => {
                state.output_lines.push(text::joined("> ", t.as_str()));
                TuiStep::Submit(t)
            },
            Some(TuiAction::Interrupt) => TuiStep::Interrupt,
            Some(TuiAction::Quit) => TuiStep::Stop,
            None => TuiStep::Draw,
        },
        Some(AppEvent::Resize) => TuiStep::Draw,
        Some(AppEvent::AgentEvent(e)) => {
            handle_agent_event(e, state);
            TuiStep::Draw
        },
        Some(AppEvent::AgentGone) => {
            state.output_lines.push("[agent shut down]".to_owned());
            TuiStep::DrawAndStop
        },
    }
}

/// Says what the loop does after a text was handed to the agent: it ends where the agent is gone.
pub fn submitted(accepted: bool, state: &mut DisplayState) -> (step: TuiStep)
    ensures
        final(state)@ == (if accepted {
            old(state)@
        } else {
            old(state)@.with_line("[agent closed]"@)
        }),
        old(state)@.well_formed() ==> final(state)@.well_formed(),
        step@ == (if accepted {
            TuiStepView::Draw
        } else {
            TuiStepView::Stop
        }),
{
    if accepted {
        TuiStep::Draw
    } else {
        state.output_lines.push("[agent closed]".to_owned());
        TuiStep::Stop
    }
}

// ==================== Laws ====================

/// The key that types a character.
pub open spec fn typing(c: char) -> KeyEvent {
    KeyEvent { control: false, code: KeyCode::Char(c) }
}

/// The key that takes a character back.
pub open spec fn taking_back() -> KeyEvent {
    KeyEvent { control: false, code: KeyCode::Backspace }
}

/// Every key can be taken, whatever the input holds: the cursor stands in the input afterwards.
pub proof fn law_every_key_can_be_taken(state: DisplayView, key: KeyEvent)
    requires
        state.well_formed(),
    ensures
        state.after_key(key).well_formed(),
        state.after_key(key).in_front().len() == state.after_key(key).input_cursor,
        state.after_key(key).in_front() + state.after_key(key).behind() == state.after_key(
            key,
        ).input,
{
}

/// A character that is typed goes in at the cursor, and the cursor then stands behind it.
pub proof fn law_typing_goes_in_at_the_cursor(state: DisplayView, c: char)
    requires
        state.well_formed(),
    ensures
        state.after_key(typing(c)).in_front() == state.in_front().push(c),
        state.after_key(typing(c)).behind() == state.behind(),
        state.after_key(typing(c)).input == state.in_front().push(c) + state.behind(),
{
}

/// What is shown after a text was typed, character by character.
pub open spec fn after_typing(state: DisplayView, typed: Seq<char>) -> DisplayView
    decreases typed.len(),
{
    if typed.len() == 0 {
        state
    } else {
        after_typing(state, typed.drop_last()).after_key(typing(typed.last()))
    }
}

/// A text that is typed, whatever characters it has, stands in the input where the cursor was, and
/// the cursor behind it.
pub proof fn law_what_is_typed_stands_in_the_input(state: DisplayView, typed: Seq<char>)
    requires
        state.well_formed(),
    ensures
        after_typing(state, typed).well_formed(),
        after_typing(state, typed).in_front() == state.in_front() + typed,
        after_typing(state, typed).behind() == state.behind(),
        after_typing(state, typed).input == state.in_front() + typed + state.behind(),
    decreases typed.len(),
{
    if typed.len() == 0 {
        assert(state.in_front() + typed =~= state.in_front());
        assert(state.in_front() + state.behind() =~= state.input);
    } else {
        let before = after_typing(state, typed.drop_last());
        law_what_is_typed_stands_in_the_input(state, typed.drop_last());
        law_typing_goes_in_at_the_cursor(before, typed.last());
        law_every_key_can_be_taken(before, typing(typed.last()));
        assert((state.in_front() + typed.drop_last()).push(typed.last()) =~= state.in_front()
            + typed);
    }
}

/// A character that was typed can be taken back with the next key, and then everything is as it
/// was.
pub proof fn law_backspace_undoes_typing(state: DisplayView, c: char)
    requires
        state.well_formed(),
    ensures
        state.after_key(typing(c)).after_key(taking_back()) == state,
{
    assert(state.after_key(typing(c)).after_key(taking_back()).input =~= state.input);
}

/// The key that takes a character back takes the one in front of the cursor, and nothing else.
pub proof fn law_backspace_takes_the_character_in_front(state: DisplayView)
    requires
        state.well_formed(),
        state.input_cursor > 0,
    ensures
        state.after_key(taking_back()).in_front() == state.in_front().drop_last(),
        state.after_key(taking_back()).behind() == state.behind(),
        state.after_key(taking_back()).input == state.in_front().drop_last() + state.behind(),
{
}

/// The keys that move the cursor move it over one character, and undo each other.
pub proof fn law_left_and_right_undo_each_other(state: DisplayView, control: bool)
    requires
        state.well_formed(),
    ensures
        ({
            let left = KeyEvent { control, code: KeyCode::Left };
            let right = KeyEvent { control, code: KeyCode::Right };
            &&& state.in_front().len() > 0 ==> {
                &&& state.after_key(left).in_front() == state.in_front().drop_last()
                &&& state.after_key(left).after_key(right) == state
            }
            &&& state.behind().len() > 0 ==> {
                &&& state.after_key(right).in_front() == state.in_front().push(state.behind()[0])
                &&& state.after_key(right).after_key(left) == state
            }
        }),
{
    let left = KeyEvent { control, code: KeyCode::Left };
    let right = KeyEvent { control, code: KeyCode::Right };
    if state.in_front().len() > 0 {
        assert(state.after_key(left).in_front() =~= state.in_front().drop_last());
    }
    if state.behind().len() > 0 {
        assert(state.after_key(right).in_front() =~= state.in_front().push(state.behind()[0]));
    }
}

/// What is shown after some events of the agent.
pub open spec fn after_events(state: DisplayView, events: Seq<EventView>) -> DisplayView
    decreases events.len(),
{
    if events.len() == 0 {
        state
    } else {
        after_events(state, events.drop_last()).after_event(events.last())
    }
}

/// The status bar is true to the agent: after the events of a turn it says busy as long as the
/// turn is under way, and idle once it is over.
pub proof fn law_busy_until_the_turn_is_over(
    state: DisplayView,
    a: agent::AgentView,
    start: int,
)
    requires
        agent::tells_one_turn(a, start),
    ensures
        after_events(state, a.events.skip(start)).turn_active == !(a.phase is Over),
{
    let events = a.events.skip(start);
    let n = events.len() as int;
    assert(events.last() == a.events.last());
    if n == 1 {
        reveal_with_fuel(after_events, 2);
        assert(events[0] == a.events[start]);
        if a.phase is Over {
            assert(agent::is_ending(a.events.last()));
        }
    } else {
        assert forall|i: int| 0 <= i < n - 1 implies !agent::is_ending(#[trigger] events[i]) by {
            assert(events[i] == a.events[start + i]);
        }
        assert(events[0] == EventView::TurnStarted);
        lemma_busy_while_nothing_ends(state, events.drop_last());
    }
}

proof fn lemma_busy_while_nothing_ends(state: DisplayView, events: Seq<EventView>)
    requires
        events.len() > 0,
        events[0] == EventView::TurnStarted,
        forall|i: int| 0 <= i < events.len() ==> !agent::is_ending(#[trigger] events[i]),
    ensures
        after_events(state, events).turn_active,
    decreases events.len(),
{
    if events.len() > 1 {
        lemma_busy_while_nothing_ends(state, events.drop_last());
        assert(!agent::is_ending(events[events.len() - 1]));
    }
}

/// Every event of the agent is shown: what is still coming in piece by piece, what is finished as a
/// line of its own behind those that were there, and a turn that ends in the status. What the user
/// is typing is not touched.
pub proof fn law_events_are_shown(state: DisplayView, event: EventView)
    ensures
        ({
            let after = state.after_event(event);
            let n = state.output_lines.len() as int;
            let lines = after.output_lines;
            &&& after.input == state.input
            &&& after.input_cursor == state.input_cursor
            &&& after.scroll_offset == state.scroll_offset
            &&& after.model_name == state.model_name
            &&& lines.len() >= n
            &&& forall|i: int| 0 <= i < n ==> lines[i] == #[trigger] state.output_lines[i]
            &&& match event {
                EventView::TurnStarted => after.turn_active && lines.len() == n
                    && after.streaming_text == state.streaming_text,
                EventView::TextDelta(t) => after.streaming_text == state.streaming_text + t
                    && lines.len() == n,
                EventView::TextDone(t) => lines == state.output_lines.push(t)
                    && after.streaming_text.len() == 0,
                EventView::ToolCallBegin { name, .. } => lines == state.output_lines.push(
                    "  [calling "@ + name + "]"@,
                ) && after.active_tool == Some(name),
                EventView::ToolCallEnd { name, is_error, .. } => lines == state.output_lines.push(
                    if is_error {
                        "  ["@ + name + " failed]"@
                    } else {
                        "  ["@ + name + " done]"@
                    },
                ) && after.active_tool is None,
                EventView::TurnComplete { usage } => !after.turn_active && lines.len() == n && (
                usage is None ==> after.total_tokens == state.total_tokens),
                EventView::TurnInterrupted => {
                    &&& !after.turn_active
                    &&& after.streaming_text.len() == 0
                    &&& state.streaming_text.len() > 0 ==> lines == state.output_lines.push(
                        state.streaming_text,
                    ).push("[interrupted]"@)
                    &&& state.streaming_text.len() == 0 ==> lines == state.output_lines.push(
                        "[interrupted]"@,
                    )
                },
                EventView::Error(message) => !after.turn_active && lines
                    == state.output_lines.push("[error] "@ + message),
                EventView::ApprovalRequired { description, .. } => lines
                    == state.output_lines.push("[approval] "@ + description),
            }
        }),
{
}

/// The tokens of a turn are added to those before, as far as the counter goes.
pub proof fn law_shown_tokens_add_up(state: DisplayView, usage: crate::model::TokenUsage)
    requires
        usage.countable(),
    ensures
        ({
            let after = state.after_event(EventView::TurnComplete { usage: Some(usage) });
            let sum = state.total_tokens + usage.tokens();
            &&& sum <= u32::MAX ==> after.total_tokens == sum
            &&& sum > u32::MAX ==> after.total_tokens == u32::MAX
        }),
{
}

/// Entering hands over the input as it stands and leaves none, unless it is empty. Control-C and
/// control-D change nothing on screen: the first interrupts a turn that is under way and else
/// quits, and the second quits. No other key asks for anything.
pub proof fn law_keys_ask_for_what_they_say(state: DisplayView, key: KeyEvent)
    ensures
        key.code == KeyCode::Enter && state.input.len() > 0 ==> state.asked(key) == Some(
            TuiActionView::Submit(state.input),
        ) && state.after_key(key).input.len() == 0 && state.after_key(key).input_cursor == 0,
        key.code == KeyCode::Enter && state.input.len() == 0 ==> state.asked(key) is None
            && state.after_key(key) == state,
        key.control && key.code == KeyCode::Char('c') ==> state.after_key(key) == state
            && state.asked(key) == Some(
            if state.turn_active {
                TuiActionView::Interrupt
            } else {
                TuiActionView::Quit
            },
        ),
        key.control && key.code == KeyCode::Char('d') ==> state.after_key(key) == state
            && state.asked(key) == Some(TuiActionView::Quit),
        !key.control && key.code != KeyCode::Enter ==> state.asked(key) is None,
        key.code == KeyCode::Up && state.scroll_offset < u16::MAX ==> state.after_key(
            key,
        ).scroll_offset == state.scroll_offset + 1,
        key.code == KeyCode::Down && state.scroll_offset > 0 ==> state.after_key(
            key,
        ).scroll_offset == state.scroll_offset - 1,
        state.after_key(key).output_lines == state.output_lines,
        state.after_key(key).streaming_text == state.streaming_text,
        state.after_key(key).turn_active == state.turn_active,
        state.after_key(key).total_tokens == state.total_tokens,
{
}

/// The screen shows every line that was put out, in order, then the text that is coming in, where
/// there is any, and then the tool that runs, where there is one.
pub proof fn law_the_screen_shows_every_line(state: DisplayView)
    ensures
        ({
            let lines = screen_lines(state);
            let n = state.output_lines.len() as int;
            let texts: int = if state.streaming_text.len() > 0 {
                1
            } else {
                0
            };
            let running: int = if state.active_tool is Some {
                1
            } else {
                0
            };
            &&& lines.len() == n + texts + running
            &&& forall|i: int|
                0 <= i < n ==> lines[i] == (#[trigger] state.output_lines[i], LineStyle::Plain)
            &&& texts == 1 ==> lines[n] == (state.streaming_text, LineStyle::Streaming)
            &&& running == 1 ==> lines[n + texts] == (
                "  [tool: "@ + state.active_tool->0 + "]"@,
                LineStyle::Tool,
            )
        }),
{
}

/// The loop hands over what the user entered and shows it as a line, interrupts and stops where a
/// key asks for it, and stops when nothing comes any more or the agent is gone.
pub proof fn law_the_loop_does_what_is_asked(state: DisplayView, event: Option<AppEvent>)
    ensures
        match event {
            None => step_after(state, event) is Stop && state_after(state, event) == state,
            Some(AppEvent::Key(key)) => match state.asked(key) {
                Some(TuiActionView::Submit(t)) => step_after(state, event) == TuiStepView::Submit(
                    t,
                ) && state_after(state, event).output_lines == state.output_lines.push("> "@ + t)
                    && state_after(state, event).input.len() == 0,
                Some(TuiActionView::Interrupt) => step_after(state, event) is Interrupt,
                Some(TuiActionView::Quit) => step_after(state, event) is Stop,
                None => step_after(state, event) is Draw && state_after(state, event)
                    == state.after_key(key),
            },
            Some(AppEvent::Resize) => step_after(state, event) is Draw && state_after(state, event)
                == state,
            Some(AppEvent::AgentEvent(e)) => step_after(state, event) is Draw && state_after(
                state,
                event,
            ) == state.after_event(e@),
            Some(AppEvent::AgentGone) => step_after(state, event) is DrawAndStop,
        },
{
}

/// Only entering, control-C and control-D ask for anything. With control held, any other character
/// is typed as without it, and every other key does what it does without it. A key that is not
/// known does nothing.
pub proof fn law_control_matters_to_two_keys_only(state: DisplayView, key: KeyEvent)
    requires
        !(key.code == KeyCode::Char('c') || key.code == KeyCode::Char('d')),
    ensures
        ({
            let held = KeyEvent { control: true, code: key.code };
            let free = KeyEvent { control: false, code: key.code };
            &&& state.after_key(held) == state.after_key(free)
            &&& state.asked(held) == state.asked(free)
            &&& key.code != KeyCode::Enter ==> state.asked(free) is None
            &&& key.code == KeyCode::Other ==> state.after_key(free) == state
        }),
{
}

/// At the ends of the input and of the scrolling, the keys that would go further do nothing.
pub proof fn law_keys_stop_at_the_ends(state: DisplayView, key: KeyEvent)
    requires
        state.well_formed(),
        ({
            ||| state.input_cursor == 0 && (key.code == KeyCode::Left || key.code
                == KeyCode::Backspace)
            ||| state.input_cursor == state.input.len() && key.code == KeyCode::Right
            ||| state.scroll_offset == 0 && key.code == KeyCode::Down
            ||| state.scroll_offset == u16::MAX && key.code == KeyCode::Up
        }),
    ensures
        state.after_key(key) == state,
{
}

} // verus!
