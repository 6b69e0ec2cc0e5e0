//! The tool that writes files after asking.

use crate::bash;
use crate::json;
use crate::json::Parameter;
use crate::text;
use crate::toolkit::{
    MissingParameter, PermissionRequest, PermissionRequestView, PermissionResponse,
    PermissionResponseView, Progress, ProgressView, ResultView, RiskLevel, ToolResult,
};
use crate::tools::Tool;
use crate::views;
use vstd::prelude::*;

verus! {

broadcast use crate::views::group_views;

/// What the tool takes.
#[derive(Debug, PartialEq, Eq)]
pub struct WriteInput {
    pub content: String,
    pub file_path: String,
}

/// What a [`WriteInput`] says.
pub struct WriteInputView {
    pub content: Seq<char>,
    pub file_path: Seq<char>,
}

impl View for WriteInput {
    type V = WriteInputView;

    open spec fn view(&self) -> WriteInputView {
        WriteInputView { content: self.content@, file_path: self.file_path@ }
    }
}

impl Clone for WriteInput {
    fn clone(&self) -> (copy: Self)
        ensures
            copy == *self,
    {
        WriteInput { content: self.content.clone(), file_path: self.file_path.clone() }
    }
}

/// The tool that writes files.
#[derive(Debug)]
pub struct WriteTool {
    require_permission: bool,
}

// ==================== Risk ====================

/// What a path with high risk has in it.
pub open spec fn high_risk_paths() -> Seq<Seq<char>> {
    seq![
        "/etc/passwd"@,
        "/etc/shadow"@,
        ".ssh/"@,
        ".gnupg/"@,
        ".env"@,
        "credentials"@,
        "secrets"@,
    ]
}

/// What a path with medium risk has in it.
pub open spec fn medium_risk_paths() -> Seq<Seq<char>> {
    seq!["config.json"@, "settings.json"@, ".config/"@]
}

/// The risk of writing to a path.
pub open spec fn path_risk(file_path: Seq<char>) -> RiskLevel {
    if text::any_occurs_in(file_path, high_risk_paths()) {
        RiskLevel::High
    } else if text::any_occurs_in(file_path, medium_risk_paths()) {
        RiskLevel::Medium
    } else {
        RiskLevel::Low
    }
}

// ==================== Writing ====================

/// What to do about a file next.
pub enum WriteStep {
    /// Nothing: this is the result.
    Finish(ToolResult),
    /// Tell the progress, and ask for permission.
    Ask { progress: Progress, request: PermissionRequest },
    /// See whether the directory is there.
    CheckParent,
    /// Tell the progress, and write the file.
    Write(Progress),
}

/// What a [`WriteStep`] says.
pub enum WriteStepView {
    Finish(ResultView),
    Ask { progress: ProgressView, request: PermissionRequestView },
    CheckParent,
    Write(ProgressView),
}

impl View for WriteStep {
    type V = WriteStepView;

    open spec fn view(&self) -> WriteStepView {
        match self {
            WriteStep::Finish(result) => WriteStepView::Finish(result@),
            WriteStep::Ask { progress, request } => WriteStepView::Ask {
                progress: progress@,
                request: request@,
            },
            WriteStep::CheckParent => WriteStepView::CheckParent,
            WriteStep::Write(progress) => WriteStepView::Write(progress@),
        }
    }
}

/// The bytes of the content, in decimal.
pub open spec fn byte_count(content: Seq<char>) -> Seq<char> {
    text::decimal_of(vstd::utf8::encode_utf8(content).len())
}

/// The question that the tool asks before it writes.
pub open spec fn question_of(input: WriteInputView) -> PermissionRequestView {
    PermissionRequestView {
        tool_name: "write"@,
        action: "Write to: "@ + input.file_path,
        details: Some("Content length: "@ + byte_count(input.content) + " bytes"@),
        risk_level: path_risk(input.file_path),
    }
}

/// What the tool does first about a file.
pub open spec fn first_step(require_permission: bool, input: WriteInputView) -> WriteStepView {
    if require_permission {
        WriteStepView::Ask {
            progress: bash::plain_progress(
                "Requesting permission to write: "@ + input.file_path,
            ),
            request: question_of(input),
        }
    } else {
        WriteStepView::CheckParent
    }
}

/// What the tool does about a file when it has its answer.
pub open spec fn answered_step(response: PermissionResponseView) -> WriteStepView {
    if response.granted {
        WriteStepView::CheckParent
    } else {
        WriteStepView::Finish(ResultView::failed(response.refusal()))
    }
}

/// What the tool does about a file when it knows whether the directory is there: `missing` names
/// the directory where it is not.
pub open spec fn checked_step(
    input: WriteInputView,
    missing: Option<Seq<char>>,
) -> WriteStepView {
    match missing {
        Some(parent) => WriteStepView::Finish(
            ResultView::failed("Parent directory does not exist: "@ + parent),
        ),
        None => WriteStepView::Write(bash::plain_progress("Writing to: "@ + input.file_path)),
    }
}

impl Default for WriteTool {
    fn default() -> (tool: Self)
        ensures
            tool.asks(),
    {
        WriteTool::new()
    }
}

impl WriteTool {
    /// The tool has to ask before it writes.
    pub closed spec fn asks(&self) -> bool {
        self.require_permission
    }

    pub fn new() -> (tool: Self)
        ensures
            tool.asks(),
    {
        WriteTool { require_permission: true }
    }

    pub fn with_require_permission(self, require: bool) -> (tool: Self)
        ensures
            tool.asks() == require,
    {
        let mut tool = self;
        tool.require_permission = require;
        tool
    }

    /// The risk of writing to the path.
    pub fn assess_risk(&self, file_path: &str) -> (risk: RiskLevel)
        ensures
            risk == path_risk(file_path@),
    {
        let high = [
            "/etc/passwd",
            "/etc/shadow",
            ".ssh/",
            ".gnupg/",
            ".env",
            "credentials",
            "secrets",
        ];
        let medium = ["config.json", "settings.json", ".config/"];
        proof {
            assert(text::str_texts(high@) =~= high_risk_paths());
            assert(text::str_texts(medium@) =~= medium_risk_paths());
        }
        if text::contains_any(file_path, &high) {
            RiskLevel::High
        } else if text::contains_any(file_path, &medium) {
            RiskLevel::Medium
        } else {
            RiskLevel::Low
        }
    }

    /// Reads the arguments. The content and the path must be there, and texts; the content is
    /// looked for first.
    pub fn parse_input(&self, args: &serde_json::Value) -> (parsed: Result<
        WriteInput,
        MissingParameter,
    >)
        ensures
            match (
                json::json_text(json::json_member(json::json(*args), "content"@)),
                json::json_text(json::json_member(json::json(*args), "file_path"@)),
            ) {
                (Some(content), Some(file_path)) => parsed matches Ok(input) && input@ == (
                WriteInputView { content, file_path }),
                (None, _) => parsed matches Err(e) && e.name@ == "content"@,
                (Some(_), None) => parsed matches Err(e) && e.name@ == "file_path"@,
            },
    {
        let content = match json::text_member(args, "content") {
            Some(content) => content,
            None => {
                return Err(MissingParameter { name: "content" });
            },
        };
        let file_path = match json::text_member(args, "file_path") {
            Some(file_path) => file_path,
            None => {
                return Err(MissingParameter { name: "file_path" });
            },
        };
        Ok(WriteInput { content, file_path })
    }

    /// What to do first about the file: ask for permission, where the tool has to, or see whether
    /// the directory is there.
    pub fn begin(&self, input: &WriteInput) -> (step: WriteStep)
        ensures
            step@ == first_step(self.asks(), input@),
    {
        if !self.require_permission {
            return WriteStep::CheckParent;
        }
        let bytes: usize = text::byte_len(input.content.as_str());
        let request = PermissionRequest::new(
            self.name(),
            text::joined("Write to: ", input.file_path.as_str()),
        ).with_details(
            text::joined3(
                "Content length: ",
                text::decimal(bytes as u128).as_str(),
                " bytes",
            ),
        ).with_risk_level(self.assess_risk(input.file_path.as_str()));
        let progress = Progress::new(
            text::joined("Requesting permission to write: ", input.file_path.as_str()),
        );
        WriteStep::Ask { progress, request }
    }

    /// What to do about the file when the answer is there.
    pub fn answered(&self, response: PermissionResponse) -> (step: WriteStep)
        ensures
            step@ == answered_step(response@),
    {
        if response.granted {
            WriteStep::CheckParent
        } else {
            WriteStep::Finish(ToolResult::failure(response.into_refusal()))
        }
    }

    /// What to do about the file when it is known whether the directory is there: `missing` names
    /// the directory where it is not.
    pub fn checked(&self, input: &WriteInput, missing: Option<&str>) -> (step: WriteStep)
        ensures
            step@ == checked_step(input@, views::option(missing)),
    {
        match missing {
            Some(parent) => WriteStep::Finish(
                ToolResult::failure(text::joined("Parent directory does not exist: ", parent)),
            ),
            None => WriteStep::Write(
                Progress::new(text::joined("Writing to: ", input.file_path.as_str())),
            ),
        }
    }

    /// The result when the file is written.
    pub fn written(&self, input: &WriteInput) -> (result: ToolResult)
        ensures
            result@ == ResultView::succeeded(
                "Successfully wrote "@ + byte_count(input@.content) + " bytes to "@
                    + input@.file_path,
            ),
    {
        let bytes: usize = text::byte_len(input.content.as_str());
        let head = text::joined3(
            "Successfully wrote ",
            text::decimal(bytes as u128).as_str(),
            " bytes to ",
        );
        ToolResult::success(text::joined(head.as_str(), input.file_path.as_str()))
    }
}

/// The schema of what the tool takes.
pub open spec fn write_schema() -> json::Json {
    json::object_schema(
        seq![
            (
                "content"@,
                json::parameter_schema("string"@, "The content to write to the file"@),
            ),
            (
                "file_path"@,
                json::parameter_schema(
                    "string"@,
                    "The absolute path to the file to write"@,
                ),
            ),
        ],
        seq!["content"@, "file_path"@],
    )
}

impl Tool for WriteTool {
    fn name(&self) -> (name: &str)
        ensures
            name@ == "write"@,
    {
        "write"
    }

    fn description(&self) -> (description: &str)
        ensures
            description@ == "Write content to a file at the specified path. Overwrites existing files."@,
    {
        "Write content to a file at the specified path. Overwrites existing files."
    }

    fn parameters(&self) -> (schema: serde_json::Value)
        ensures
            json::json(schema) == write_schema(),
    {
        let parameters = [
            Parameter {
                name: "content",
                kind: "string",
                description: "The content to write to the file",
            },
            Parameter {
                name: "file_path",
                kind: "string",
                description: "The absolute path to the file to write",
            },
        ];
        let required = ["content", "file_path"];
        proof {
            assert(views::of(parameters@) =~= seq![parameters@[0]@, parameters@[1]@]);
            assert(text::str_texts(required@) =~= seq!["content"@, "file_path"@]);
        }
        json::build_object_schema(&parameters, &required)
    }
}

// ==================== Laws ====================

/// Where the tool has to ask, it does nothing else first; and after the question it goes on if
/// and only if that was granted.
pub proof fn law_nothing_is_written_unasked(
    input: WriteInputView,
    response: PermissionResponseView,
)
    ensures
        first_step(true, input) is Ask,
        answered_step(response) is CheckParent <==> response.granted,
        answered_step(response) is Finish <==> !response.granted,
{
}

/// Nothing is written to a directory that is not there.
pub proof fn law_a_missing_directory_is_not_written_to(
    input: WriteInputView,
    missing: Option<Seq<char>>,
)
    ensures
        checked_step(input, missing) is Write <==> missing is None,
{
}

/// What is added to a path never makes it less risky.
pub proof fn law_more_path_is_no_less_risk(
    before: Seq<char>,
    file_path: Seq<char>,
    behind: Seq<char>,
)
    ensures
        path_risk(file_path).rank() <= path_risk(before + file_path + behind).rank(),
{
    text::lemma_any_occurs_in_more(before, file_path, behind, high_risk_paths());
    text::lemma_any_occurs_in_more(before, file_path, behind, medium_risk_paths());
}

/// A path has high risk if and only if one of these stands somewhere in it.
pub proof fn law_high_risk_is_what_is_dangerous(given: Seq<char>)
    ensures
        path_risk(given) == RiskLevel::High <==> ({
            let words = seq![
                "/etc/passwd"@,
                "/etc/shadow"@,
                ".ssh/"@,
                ".gnupg/"@,
                ".env"@,
                "credentials"@,
                "secrets"@,
            ];
            exists|k: int, before: Seq<char>, behind: Seq<char>|
                0 <= k < words.len() && given == #[trigger] (before + words[k] + behind)
        }),
{
    let words = high_risk_paths();
    lemma_risky(given, words);
}

/// A path that has no high risk has medium risk if and only if one of these stands somewhere in
/// it, and else low risk.
pub proof fn law_medium_risk_is_what_changes_things(given: Seq<char>)
    requires
        path_risk(given) != RiskLevel::High,
    ensures
        path_risk(given) == RiskLevel::Medium <==> ({
            let words = seq![
                "config.json"@,
                "settings.json"@,
                ".config/"@,
            ];
            exists|k: int, before: Seq<char>, behind: Seq<char>|
                0 <= k < words.len() && given == #[trigger] (before + words[k] + behind)
        }),
{
    let words = medium_risk_paths();
    lemma_risky(given, words);
}

/// Some text of a list stands in a text if and only if the text is one of them with something, or
/// nothing, before and behind it.
proof fn lemma_risky(given: Seq<char>, words: Seq<Seq<char>>)
    ensures
        text::any_occurs_in(given, words) <==> exists|
            k: int,
            before: Seq<char>,
            behind: Seq<char>,
        |
            0 <= k < words.len() && given == #[trigger] (before + words[k] + behind),
{
    if text::any_occurs_in(given, words) {
        let k = choose|k: int|
            0 <= k < words.len() && text::occurs_in(given, #[trigger] words[k]);
        text::law_what_is_found_is_there(given, words[k]);
        let (before, behind) = choose|before: Seq<char>, behind: Seq<char>|
            given == #[trigger] (before + words[k] + behind);
        assert(given == before + words[k] + behind);
    }
    if exists|k: int, before: Seq<char>, behind: Seq<char>|
        0 <= k < words.len() && given == #[trigger] (before + words[k] + behind) {
        let (k, before, behind) = choose|k: int, before: Seq<char>, behind: Seq<char>|
            0 <= k < words.len() && given == #[trigger] (before + words[k] + behind);
        text::law_what_is_found_is_there(given, words[k]);
        assert(text::occurs_in(given, words[k]));
    }
}

/// The question names the path, the size of the content and the risk of the path; what is then
/// written is told with the same path.
pub proof fn law_the_question_is_about_the_file(input: WriteInputView)
    ensures
        first_step(true, input) matches WriteStepView::Ask { request, .. } && request.action
            == "Write to: "@ + input.file_path && request.risk_level == path_risk(input.file_path),
        checked_step(input, None) matches WriteStepView::Write(progress) && progress.message
            == "Writing to: "@ + input.file_path,
        first_step(false, input) is CheckParent,
{
}

/// The content and the path are read as they were written, and both have to be there.
pub proof fn law_arguments_are_read_as_written(
    tool: WriteTool,
    args: serde_json::Value,
    members: Map<Seq<char>, json::Json>,
    parsed: Result<WriteInput, MissingParameter>,
)
    requires
        call_ensures(WriteTool::parse_input, (&tool, &args), parsed),
        json::json(args) == json::Json::Object(members),
    ensures
        parsed is Ok <==> members.contains_key("content"@) && members["content"@] is Text
            && members.contains_key("file_path"@) && members["file_path"@] is Text,
        parsed matches Ok(input) ==> members["content"@] == json::Json::Text(input.content@)
            && members["file_path"@] == json::Json::Text(input.file_path@),
{
}

} // verus!
