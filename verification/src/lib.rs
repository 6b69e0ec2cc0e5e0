//! A coding assistant: conversations with a language model that can run tools.

pub mod agent;
pub mod app;
pub mod bash;
pub mod bus;
pub mod chat;
pub mod config;
pub mod event;
pub mod fs;
pub mod item;
pub mod json;
pub mod model;
pub mod openai;
pub mod provider;
pub mod session;
pub mod stream;
pub mod text;
pub mod toolkit;
pub mod tools;
pub mod tui;
pub mod views;
pub mod write;

pub use agent::{Agent, Op, TurnOutcome};
pub use bash::BashTool;
pub use event::Event;
pub use item::{Item, Message, ModelRequest};
pub use model::{Model, ModelError, OpenAIProvider, TokenUsage, ToolSpec};
pub use session::Session;
pub use tools::{FileReadTool, Tool, ToolRegistry};
