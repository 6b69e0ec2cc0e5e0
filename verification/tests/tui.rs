use funcode::event::Event;
use funcode::model::TokenUsage;
use funcode::tui::{
    handle_agent_event, handle_key_event, render, run_step, submitted, AppEvent, DisplayState,
    KeyCode, KeyEvent, LineStyle, TuiAction, TuiStep,
};

fn key(code: KeyCode) -> KeyEvent {
    KeyEvent { control: false, code }
}

fn control(c: char) -> KeyEvent {
    KeyEvent { control: true, code: KeyCode::Char(c) }
}

fn typed(text: &str) -> DisplayState {
    let mut state = DisplayState::new("gpt");
    for c in text.chars() {
        assert_eq!(handle_key_event(key(KeyCode::Char(c)), &mut state), None);
    }
    state
}

#[test]
fn typing_fills_the_input() {
    let mut state = typed("hello");
    assert_eq!((state.input.as_str(), state.input_cursor), ("hello", 5));
    for _ in 0..7 {
        handle_key_event(key(KeyCode::Left), &mut state);
    }
    assert_eq!(state.input_cursor, 0);
    handle_key_event(key(KeyCode::Char('>')), &mut state);
    assert_eq!((state.input.as_str(), state.input_cursor), (">hello", 1));
    for _ in 0..9 {
        handle_key_event(key(KeyCode::Right), &mut state);
    }
    assert_eq!(state.input_cursor, 6);
    handle_key_event(key(KeyCode::Backspace), &mut state);
    assert_eq!((state.input.as_str(), state.input_cursor), (">hell", 5));
}

#[test]
fn backspace_undoes_typing() {
    let mut state = typed("ab");
    handle_key_event(key(KeyCode::Left), &mut state);
    for c in ['x', 'é', '日'] {
        handle_key_event(key(KeyCode::Char(c)), &mut state);
        handle_key_event(key(KeyCode::Backspace), &mut state);
        assert_eq!((state.input.as_str(), state.input_cursor), ("ab", 1));
    }
    let mut empty = DisplayState::new("m");
    handle_key_event(key(KeyCode::Backspace), &mut empty);
    assert_eq!((empty.input.as_str(), empty.input_cursor), ("", 0));
}

#[test]
fn enter_submits_what_was_typed() {
    let mut state = typed("go");
    assert_eq!(
        handle_key_event(key(KeyCode::Enter), &mut state),
        Some(TuiAction::Submit("go".to_string()))
    );
    assert_eq!((state.input.as_str(), state.input_cursor), ("", 0));
    assert_eq!(handle_key_event(key(KeyCode::Enter), &mut state), None);
}

#[test]
fn control_keys_interrupt_or_quit() {
    let mut state = typed("x");
    assert_eq!(handle_key_event(control('c'), &mut state), Some(TuiAction::Quit));
    state.turn_active = true;
    assert_eq!(handle_key_event(control('c'), &mut state), Some(TuiAction::Interrupt));
    assert_eq!(handle_key_event(control('d'), &mut state), Some(TuiAction::Quit));
    assert_eq!(state.input, "x");
    assert_eq!(handle_key_event(control('e'), &mut state), None);
    assert_eq!(state.input, "xe");
    assert_eq!(handle_key_event(key(KeyCode::Other), &mut state), None);
}

#[test]
fn scrolling_stops_at_the_ends() {
    let mut state = DisplayState::new("m");
    handle_key_event(key(KeyCode::Down), &mut state);
    assert_eq!(state.scroll_offset, 0);
    handle_key_event(key(KeyCode::Up), &mut state);
    assert_eq!(state.scroll_offset, 1);
    state.scroll_offset = u16::MAX;
    handle_key_event(key(KeyCode::Up), &mut state);
    assert_eq!(state.scroll_offset, u16::MAX);
}

#[test]
fn a_turn_is_shown() {
    let mut state = DisplayState::new("m");
    handle_agent_event(Event::TurnStarted, &mut state);
    assert!(state.turn_active);
    handle_agent_event(Event::TextDelta("Hel".to_string()), &mut state);
    handle_agent_event(Event::TextDelta("lo".to_string()), &mut state);
    assert_eq!(state.streaming_text, "Hello");
    handle_agent_event(Event::TextDone("Hello".to_string()), &mut state);
    assert_eq!(state.streaming_text, "");
    handle_agent_event(
        Event::ToolCallBegin { id: "1".to_string(), name: "echo".to_string() },
        &mut state,
    );
    assert_eq!(state.active_tool.as_deref(), Some("echo"));
    for is_error in [false, true] {
        handle_agent_event(
            Event::ToolCallEnd {
                id: "1".to_string(),
                name: "echo".to_string(),
                output: "x".to_string(),
                is_error,
            },
            &mut state,
        );
    }
    assert_eq!(state.active_tool, None);
    handle_agent_event(
        Event::ApprovalRequired {
            id: "1".to_string(),
            tool_name: "t".to_string(),
            description: "really?".to_string(),
        },
        &mut state,
    );
    handle_agent_event(Event::Error("oops".to_string()), &mut state);
    assert!(!state.turn_active);
    assert_eq!(
        state.output_lines,
        vec![
            "Hello",
            "  [calling echo]",
            "  [echo done]",
            "  [echo failed]",
            "[approval] really?",
            "[error] oops",
        ]
    );
}

#[test]
fn an_interrupted_turn_keeps_the_partial_text_on_screen() {
    let mut state = DisplayState::new("m");
    handle_agent_event(Event::TurnStarted, &mut state);
    handle_agent_event(Event::TextDelta("part".to_string()), &mut state);
    handle_agent_event(Event::TurnInterrupted, &mut state);
    assert_eq!(state.output_lines, vec!["part", "[interrupted]"]);
    assert_eq!(state.streaming_text, "");
    assert!(!state.turn_active);
    handle_agent_event(Event::TurnInterrupted, &mut state);
    assert_eq!(state.output_lines.len(), 3);
}

#[test]
fn tokens_add_up_on_screen() {
    let complete = |i, o, t| Event::TurnComplete {
        usage: Some(TokenUsage { input_tokens: i, output_tokens: o, total_tokens: t }),
    };
    let mut state = DisplayState::new("m");
    handle_agent_event(complete(Some(1), Some(2), Some(15)), &mut state);
    handle_agent_event(complete(Some(1), Some(2), None), &mut state);
    handle_agent_event(Event::TurnComplete { usage: None }, &mut state);
    assert_eq!(state.total_tokens, 18);
    handle_agent_event(complete(None, None, Some(u32::MAX)), &mut state);
    assert_eq!(state.total_tokens, u32::MAX);
}

#[test]
fn the_screen_shows_the_state() {
    let mut state = typed("hi");
    state.output_lines.push("one".to_string());
    state.streaming_text = "two".to_string();
    state.active_tool = Some("echo".to_string());
    state.turn_active = true;
    state.total_tokens = 42;
    state.scroll_offset = 3;
    let screen = render(&state);
    let lines: Vec<(&str, LineStyle)> =
        screen.lines.iter().map(|l| (l.text.as_str(), l.style)).collect();
    assert_eq!(
        lines,
        vec![
            ("one", LineStyle::Plain),
            ("two", LineStyle::Streaming),
            ("  [tool: echo]", LineStyle::Tool),
        ]
    );
    assert_eq!((screen.model_name.as_str(), screen.status), ("gpt", "busy"));
    assert_eq!(screen.tokens, " | tok: 42");
    assert_eq!((screen.input.as_str(), screen.cursor_x, screen.scroll), ("> hi", 4, 3));

    let idle = render(&DisplayState::new("m"));
    assert!(idle.lines.is_empty());
    assert_eq!((idle.status, idle.cursor_x), ("idle", 2));
}

#[test]
fn the_loop_draws_submits_and_stops() {
    let mut state = typed("go");
    assert_eq!(run_step(Some(AppEvent::Resize), &mut state), TuiStep::Draw);
    assert_eq!(
        run_step(Some(AppEvent::Key(key(KeyCode::Enter))), &mut state),
        TuiStep::Submit("go".to_string())
    );
    assert_eq!(state.output_lines, vec!["> go"]);
    assert_eq!(submitted(true, &mut state), TuiStep::Draw);
    assert_eq!(
        run_step(Some(AppEvent::AgentEvent(Event::TurnStarted)), &mut state),
        TuiStep::Draw
    );
    assert_eq!(run_step(Some(AppEvent::Key(control('c'))), &mut state), TuiStep::Interrupt);
    assert_eq!(run_step(Some(AppEvent::Key(control('d'))), &mut state), TuiStep::Stop);
    assert_eq!(run_step(Some(AppEvent::AgentGone), &mut state), TuiStep::DrawAndStop);
    assert_eq!(state.output_lines.last().unwrap(), "[agent shut down]");
    assert_eq!(submitted(false, &mut state), TuiStep::Stop);
    assert_eq!(state.output_lines.last().unwrap(), "[agent closed]");
    assert_eq!(run_step(None, &mut state), TuiStep::Stop);
}

#[test]
fn every_character_can_be_typed() {
    let state = typed("é");
    assert_eq!((state.input.as_str(), state.input_cursor), ("é", 1));
    let state = typed("éa");
    assert_eq!((state.input.as_str(), state.input_cursor), ("éa", 2));
    let state = typed("the quick 日本 fox 🦊");
    assert_eq!(state.input, "the quick 日本 fox 🦊");
    assert_eq!(state.input_cursor, 18);
}

#[test]
fn the_cursor_moves_over_characters() {
    let mut state = typed("a");
    handle_key_event(key(KeyCode::Left), &mut state);
    handle_key_event(key(KeyCode::Char('é')), &mut state);
    handle_key_event(key(KeyCode::Right), &mut state);
    handle_key_event(key(KeyCode::Char('b')), &mut state);
    assert_eq!((state.input.as_str(), state.input_cursor), ("éab", 3));

    let mut state = typed("aé日🦊");
    for expected in [3, 2, 1, 0, 0] {
        handle_key_event(key(KeyCode::Left), &mut state);
        assert_eq!(state.input_cursor, expected);
    }
    for expected in [1, 2, 3, 4, 4] {
        handle_key_event(key(KeyCode::Right), &mut state);
        assert_eq!(state.input_cursor, expected);
    }
}

#[test]
fn backspace_takes_whole_characters() {
    let mut state = typed("aé日🦊");
    handle_key_event(key(KeyCode::Left), &mut state);
    handle_key_event(key(KeyCode::Backspace), &mut state);
    assert_eq!((state.input.as_str(), state.input_cursor), ("aé🦊", 2));
    handle_key_event(key(KeyCode::Backspace), &mut state);
    assert_eq!((state.input.as_str(), state.input_cursor), ("a🦊", 1));
    handle_key_event(key(KeyCode::Backspace), &mut state);
    handle_key_event(key(KeyCode::Backspace), &mut state);
    assert_eq!((state.input.as_str(), state.input_cursor), ("🦊", 0));
}

#[test]
fn the_column_counts_characters() {
    let mut state = typed("日é!");
    assert_eq!(render(&state).cursor_x, 5);
    handle_key_event(key(KeyCode::Left), &mut state);
    handle_key_event(key(KeyCode::Left), &mut state);
    assert_eq!((state.input_cursor, render(&state).cursor_x), (1, 3));
}
