//! What the program says to those who start it.

use crate::config::ConfigError;
use crate::model::ModelError;
use crate::text;
use vstd::prelude::*;

verus! {

/// Why the program ended with an error.
#[derive(Debug)]
pub enum AppError {
    Config(ConfigError),
    Model(ModelError),
    /// The terminal's words.
    Terminal(String),
}

impl AppError {
    /// The error in words.
    pub open spec fn words(self) -> Seq<char> {
        match self {
            AppError::Config(e) => "config error: "@ + e.words(),
            AppError::Model(e) => "model error: "@ + e.words(),
            AppError::Terminal(what) => "terminal error: "@ + what@,
        }
    }

    /// The error in words.
    pub fn message(&self) -> (words: String)
        ensures
            words@ == self.words(),
    {
        match self {
            AppError::Config(e) => text::joined("config error: ", e.message().as_str()),
            AppError::Model(e) => text::joined("model error: ", e.message().as_str()),
            AppError::Terminal(what) => text::joined("terminal error: ", what.as_str()),
        }
    }
}

/// What the command line says to someone who gives a name.
pub fn greeting(name: &str) -> (words: String)
    ensures
        words@ == "Hello, "@ + name@ + "!"@,
{
    text::joined3("Hello, ", name, "!")
}

} // verus!
