//! Agent event definitions.

use crate::model::TokenUsage;
use vstd::prelude::*;

verus! {

/// All events that an agent produces.
#[derive(Debug, PartialEq, Eq)]
pub enum Event {
    TurnStarted,
    /// The user, or a signal from outside, interrupted the turn.
    TurnInterrupted,
    TurnComplete { usage: Option<TokenUsage> },
    TextDelta(String),
    TextDone(String),
    ToolCallBegin { id: String, name: String },
    ToolCallEnd { id: String, name: String, output: String, is_error: bool },
    ApprovalRequired { id: String, tool_name: String, description: String },
    Error(String),
}

/// What an [`Event`] says.
pub enum EventView {
    TurnStarted,
    TurnInterrupted,
    TurnComplete { usage: Option<TokenUsage> },
    TextDelta(Seq<char>),
    TextDone(Seq<char>),
    ToolCallBegin { id: Seq<char>, name: Seq<char> },
    ToolCallEnd { id: Seq<char>, name: Seq<char>, output: Seq<char>, is_error: bool },
    ApprovalRequired { id: Seq<char>, tool_name: Seq<char>, description: Seq<char> },
    Error(Seq<char>),
}

impl View for Event {
    type V = EventView;

    open spec fn view(&self) -> EventView {
        match self {
            Event::TurnStarted => EventView::TurnStarted,
            Event::TurnInterrupted => EventView::TurnInterrupted,
            Event::TurnComplete { usage } => EventView::TurnComplete { usage: *usage },
            Event::TextDelta(t) => EventView::TextDelta(t@),
            Event::TextDone(t) => EventView::TextDone(t@),
            Event::ToolCallBegin { id, name } => EventView::ToolCallBegin { id: id@, name: name@ },
            Event::ToolCallEnd { id, name, output, is_error } => EventView::ToolCallEnd {
                id: id@,
                name: name@,
                output: output@,
                is_error: *is_error,
            },
            Event::ApprovalRequired { id, tool_name, description } => {
                EventView::ApprovalRequired {
                    id: id@,
                    tool_name: tool_name@,
                    description: description@,
                }
            },
            Event::Error(t) => EventView::Error(t@),
        }
    }
}

impl Clone for Event {
    fn clone(&self) -> (copy: Self)
        ensures
            copy == *self,
    {
        match self {
            Event::TurnStarted => Event::TurnStarted,
            Event::TurnInterrupted => Event::TurnInterrupted,
            Event::TurnComplete { usage } => Event::TurnComplete { usage: *usage },
            Event::TextDelta(t) => Event::TextDelta(t.clone()),
            Event::TextDone(t) => Event::TextDone(t.clone()),
            Event::ToolCallBegin { id, name } => Event::ToolCallBegin {
                id: id.clone(),
                name: name.clone(),
            },
            Event::ToolCallEnd { id, name, output, is_error } => Event::ToolCallEnd {
                id: id.clone(),
                name: name.clone(),
                output: output.clone(),
                is_error: *is_error,
            },
            Event::ApprovalRequired { id, tool_name, description } => Event::ApprovalRequired {
                id: id.clone(),
                tool_name: tool_name.clone(),
                description: description.clone(),
            },
            Event::Error(t) => Event::Error(t.clone()),
        }
    }
}

} // verus!
