//! What tools and their surroundings say to each other.

use crate::text::IntoText;
use crate::views;
use vstd::prelude::*;

verus! {

// ==================== Results ====================

/// What came of running a tool.
#[derive(Debug, PartialEq, Eq)]
pub struct ToolResult {
    pub success: bool,
    pub output: String,
    pub error: Option<String>,
}

/// What a [`ToolResult`] says.
pub struct ResultView {
    pub success: bool,
    pub output: Seq<char>,
    pub error: Option<Seq<char>>,
}

impl View for ToolResult {
    type V = ResultView;

    open spec fn view(&self) -> ResultView {
        ResultView {
            success: self.success,
            output: self.output@,
            error: views::option(self.error),
        }
    }
}

impl Clone for ToolResult {
    fn clone(&self) -> (copy: Self)
        ensures
            copy@ == self@,
    {
        ToolResult {
            success: self.success,
            output: self.output.clone(),
            error: crate::text::copy_optional(&self.error),
        }
    }
}

impl ResultView {
    /// A tool that did its work, and what it put out.
    pub open spec fn succeeded(output: Seq<char>) -> ResultView {
        ResultView { success: true, output, error: None }
    }

    /// A tool that failed, and why.
    pub open spec fn failed(error: Seq<char>) -> ResultView {
        ResultView { success: false, output: Seq::empty(), error: Some(error) }
    }

    /// A success has no error, and a failure has one and no output.
    pub open spec fn consistent(self) -> bool {
        if self.success {
            self.error is None
        } else {
            self.error is Some && self.output.len() == 0
        }
    }
}

impl ToolResult {
    pub fn success<T: IntoText>(output: T) -> (result: Self)
        ensures
            result@ == ResultView::succeeded(output.text()),
    {
        ToolResult { success: true, output: output.into_text(), error: None }
    }

    pub fn failure<T: IntoText>(error: T) -> (result: Self)
        ensures
            result@ == ResultView::failed(error.text()),
    {
        ToolResult { success: false, output: String::new(), error: Some(error.into_text()) }
    }
}

// ==================== Permissions ====================

/// How much harm an action can do.
#[derive(Debug, Clone, Copy, PartialEq, Eq)]
pub enum RiskLevel {
    Low,
    Medium,
    High,
}

impl RiskLevel {
    /// The level as a number: the higher, the riskier.
    pub open spec fn rank(self) -> nat {
        match self {
            RiskLevel::Low => 0,
            RiskLevel::Medium => 1,
            RiskLevel::High => 2,
        }
    }
}

/// A question whether a tool may act.
#[derive(Debug, PartialEq, Eq)]
pub struct PermissionRequest {
    pub tool_name: String,
    pub action: String,
    pub details: Option<String>,
    pub risk_level: RiskLevel,
}

/// What a [`PermissionRequest`] says.
pub struct PermissionRequestView {
    pub tool_name: Seq<char>,
    pub action: Seq<char>,
    pub details: Option<Seq<char>>,
    pub risk_level: RiskLevel,
}

impl View for PermissionRequest {
    type V = PermissionRequestView;

    open spec fn view(&self) -> PermissionRequestView {
        PermissionRequestView {
            tool_name: self.tool_name@,
            action: self.action@,
            details: views::option(self.details),
            risk_level: self.risk_level,
        }
    }
}

impl Clone for PermissionRequest {
    fn clone(&self) -> (copy: Self)
        ensures
            copy@ == self@,
    {
        PermissionRequest {
            tool_name: self.tool_name.clone(),
            action: self.action.clone(),
            details: crate::text::copy_optional(&self.details),
            risk_level: self.risk_level,
        }
    }
}

impl PermissionRequest {
    pub fn new<N: IntoText, A: IntoText>(tool_name: N, action: A) -> (request: Self)
        ensures
            request@ == (PermissionRequestView {
                tool_name: tool_name.text(),
                action: action.text(),
                details: None,
                risk_level: RiskLevel::Medium,
            }),
    {
        PermissionRequest {
            tool_name: tool_name.into_text(),
            action: action.into_text(),
            details: None,
            risk_level: RiskLevel::Medium,
        }
    }

    pub fn with_details<D: IntoText>(self, details: D) -> (request: Self)
        ensures
            request@ == (PermissionRequestView { details: Some(details.text()), ..self@ }),
    {
        let mut request = self;
        request.details = Some(details.into_text());
        request
    }

    pub fn with_risk_level(self, level: RiskLevel) -> (request: Self)
        ensures
            request@ == (PermissionRequestView { risk_level: level, ..self@ }),
    {
        let mut request = self;
        request.risk_level = level;
        request
    }
}

/// The answer whether a tool may act.
#[derive(Debug, PartialEq, Eq)]
pub struct PermissionResponse {
    pub granted: bool,
    pub reason: Option<String>,
}

/// What a [`PermissionResponse`] says.
pub struct PermissionResponseView {
    pub granted: bool,
    pub reason: Option<Seq<char>>,
}

impl View for PermissionResponse {
    type V = PermissionResponseView;

    open spec fn view(&self) -> PermissionResponseView {
        PermissionResponseView { granted: self.granted, reason: views::option(self.reason) }
    }
}

impl Clone for PermissionResponse {
    fn clone(&self) -> (copy: Self)
        ensures
            copy@ == self@,
    {
        PermissionResponse {
            granted: self.granted,
            reason: crate::text::copy_optional(&self.reason),
        }
    }
}

impl PermissionResponseView {
    /// Why the tool may not act, in the words of the answer where it has any.
    pub open spec fn refusal(self) -> Seq<char> {
        match self.reason {
            Some(reason) => reason,
            None => "Permission denied"@,
        }
    }
}

impl PermissionResponse {
    pub fn granted() -> (response: Self)
        ensures
            response@ == (PermissionResponseView { granted: true, reason: None }),
    {
        PermissionResponse { granted: true, reason: None }
    }

    pub fn denied<R: IntoText>(reason: R) -> (response: Self)
        ensures
            response@ == (PermissionResponseView { granted: false, reason: Some(reason.text()) }),
    {
        PermissionResponse { granted: false, reason: Some(reason.into_text()) }
    }

    /// The answer without words of its own.
    pub fn from(granted: bool) -> (response: Self)
        ensures
            response@ == (PermissionResponseView {
                granted,
                reason: if granted {
                    None
                } else {
                    Some("Permission denied"@)
                },
            }),
    {
        if granted {
            PermissionResponse::granted()
        } else {
            PermissionResponse::denied("Permission denied")
        }
    }

    /// Why the tool may not act, in the words of the answer where it has any.
    pub fn into_refusal(self) -> (words: String)
        ensures
            words@ == self@.refusal(),
    {
        match self.reason {
            Some(reason) => reason,
            None => "Permission denied".to_owned(),
        }
    }
}

// ==================== Aborts and progress ====================

/// What is running is to stop.
#[derive(Debug, PartialEq, Eq)]
pub struct AbortEvent {
    pub session_id: Option<String>,
    pub reason: String,
}

/// What an [`AbortEvent`] says.
pub struct AbortView {
    pub session_id: Option<Seq<char>>,
    pub reason: Seq<char>,
}

impl View for AbortEvent {
    type V = AbortView;

    open spec fn view(&self) -> AbortView {
        AbortView { session_id: views::option(self.session_id), reason: self.reason@ }
    }
}

impl Clone for AbortEvent {
    fn clone(&self) -> (copy: Self)
        ensures
            copy@ == self@,
    {
        AbortEvent {
            session_id: crate::text::copy_optional(&self.session_id),
            reason: self.reason.clone(),
        }
    }
}

impl AbortEvent {
    pub fn new<R: IntoText>(reason: R) -> (event: Self)
        ensures
            event@ == (AbortView { session_id: None, reason: reason.text() }),
    {
        AbortEvent { session_id: None, reason: reason.into_text() }
    }

    pub fn for_session<S: IntoText, R: IntoText>(session_id: S, reason: R) -> (event: Self)
        ensures
            event@ == (AbortView { session_id: Some(session_id.text()), reason: reason.text() }),
    {
        AbortEvent { session_id: Some(session_id.into_text()), reason: reason.into_text() }
    }
}

/// How far a tool has come.
#[derive(Debug, PartialEq, Eq)]
pub struct Progress {
    pub message: String,
    pub percentage: Option<u8>,
}

/// What a [`Progress`] says.
pub struct ProgressView {
    pub message: Seq<char>,
    pub percentage: Option<u8>,
}

impl View for Progress {
    type V = ProgressView;

    open spec fn view(&self) -> ProgressView {
        ProgressView { message: self.message@, percentage: self.percentage }
    }
}

impl Clone for Progress {
    fn clone(&self) -> (copy: Self)
        ensures
            copy == *self,
    {
        Progress { message: self.message.clone(), percentage: self.percentage }
    }
}

impl Progress {
    pub fn new<M: IntoText>(message: M) -> (progress: Self)
        ensures
            progress@ == (ProgressView { message: message.text(), percentage: None }),
    {
        Progress { message: message.into_text(), percentage: None }
    }

    /// The progress with a percentage. More than all is all.
    pub fn with_percentage(self, percentage: u8) -> (progress: Self)
        ensures
            progress@ == (ProgressView {
                percentage: Some(
                    if percentage > 100 {
                        100
                    } else {
                        percentage
                    },
                ),
                ..self@
            }),
    {
        let mut progress = self;
        progress.percentage = Some(
            if percentage > 100 {
                100
            } else {
                percentage
            },
        );
        progress
    }
}

/// An argument that a tool cannot do without is missing, or is no text.
#[derive(Debug, Clone, Copy, PartialEq, Eq)]
pub struct MissingParameter {
    pub name: &'static str,
}

impl MissingParameter {
    /// The error in words.
    pub fn message(&self) -> (words: String)
        ensures
            words@ == "Missing '"@ + self.name@ + "' parameter"@,
    {
        crate::text::joined3("Missing '", self.name, "' parameter")
    }
}

/// A result of success holds the output and no error; one of failure holds the error and no output.
pub proof fn law_results_say_how_it_went(words: Seq<char>)
    ensures
        ResultView::succeeded(words).success,
        ResultView::succeeded(words).output == words,
        ResultView::succeeded(words).error is None,
        !ResultView::failed(words).success,
        ResultView::failed(words).error == Some(words),
        ResultView::failed(words).output.len() == 0,
{
}

/// A refusal is told in the words of the answer, where it has any.
pub proof fn law_a_refusal_is_told_in_its_words(response: PermissionResponseView)
    ensures
        response.reason matches Some(words) ==> response.refusal() == words,
{
}

} // verus!
