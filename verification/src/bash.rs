//! The tool that runs shell commands.

use crate::json;
use crate::json::Parameter;
use crate::text;
use crate::text::IntoText;
use crate::toolkit::{
    MissingParameter, PermissionRequest, PermissionRequestView, PermissionResponse,
    PermissionResponseView, Progress, ProgressView, ResultView, RiskLevel, ToolResult,
};
use crate::tools::Tool;
use crate::views;
use vstd::prelude::*;

verus! {

broadcast use crate::views::group_views;

/// What the tool takes.
#[derive(Debug, PartialEq, Eq)]
pub struct BashInput {
    pub command: String,
    /// Seconds after which the command is killed.
    pub timeout: Option<u64>,
    pub workdir: Option<String>,
}

/// What a [`BashInput`] says.
pub struct BashInputView {
    pub command: Seq<char>,
    pub timeout: Option<u64>,
    pub workdir: Option<Seq<char>>,
}

impl View for BashInput {
    type V = BashInputView;

    open spec fn view(&self) -> BashInputView {
        BashInputView {
            command: self.command@,
            timeout: self.timeout,
            workdir: views::option(self.workdir),
        }
    }
}

impl Clone for BashInput {
    fn clone(&self) -> (copy: Self)
        ensures
            copy@ == self@,
    {
        BashInput {
            command: self.command.clone(),
            timeout: self.timeout,
            workdir: text::copy_optional(&self.workdir),
        }
    }
}

/// The tool that runs shell commands.
#[derive(Debug)]
pub struct BashTool {
    allowed_commands: Option<Vec<String>>,
    default_workdir: Option<String>,
    require_permission: bool,
}

/// How a [`BashTool`] is set up.
pub struct BashToolView {
    /// The commands that may be run. Without a list any may.
    pub allowed_commands: Option<Seq<Seq<char>>>,
    /// Where a command runs that does not say where.
    pub default_workdir: Option<Seq<char>>,
    /// Whether it has to ask before it runs a command.
    pub require_permission: bool,
}

impl View for BashTool {
    type V = BashToolView;

    closed spec fn view(&self) -> BashToolView {
        BashToolView {
            allowed_commands: views::option_list(self.allowed_commands),
            default_workdir: views::option(self.default_workdir),
            require_permission: self.require_permission,
        }
    }
}

/// How the tool is set up where nothing else is said: any command, in the current directory, and
/// not without asking.
pub open spec fn default_setup() -> BashToolView {
    BashToolView { allowed_commands: None, default_workdir: None, require_permission: true }
}

impl BashToolView {
    /// The command may be run: the program that it names is on the list, where there is one.
    pub open spec fn allows(self, command: Seq<char>) -> bool {
        match self.allowed_commands {
            Some(allowed) => allowed.contains(text::first_word_of(command)),
            None => true,
        }
    }
}

// ==================== Risk ====================

/// What a command with high risk has in it.
pub open spec fn high_risk_patterns() -> Seq<Seq<char>> {
    seq![
        "rm -rf"@,
        "rm -r"@,
        "sudo"@,
        "chmod"@,
        "chown"@,
        "mkfs"@,
        "dd if="@,
        "> /dev/"@,
        "kill -9"@,
        "pkill"@,
        "shutdown"@,
        "reboot"@,
        "init 0"@,
        "init 6"@,
    ]
}

/// What a command with medium risk has in it.
pub open spec fn medium_risk_patterns() -> Seq<Seq<char>> {
    seq![
        "rm"@,
        "mv"@,
        "cp -r"@,
        "git push"@,
        "git reset --hard"@,
        "npm publish"@,
        "cargo publish"@,
        "docker rm"@,
        "docker rmi"@,
        "kubectl delete"@,
    ]
}

/// The risk of a command.
pub open spec fn command_risk(command: Seq<char>) -> RiskLevel {
    if text::any_occurs_in(command, high_risk_patterns()) {
        RiskLevel::High
    } else if text::any_occurs_in(command, medium_risk_patterns()) {
        RiskLevel::Medium
    } else {
        RiskLevel::Low
    }
}

// ==================== Running ====================

/// What to do about a command next.
pub enum BashStep {
    /// Nothing: this is the result.
    Finish(ToolResult),
    /// Tell the progress, and ask for permission.
    Ask { progress: Progress, request: PermissionRequest },
    /// Run the command.
    Run(BashPlan),
}

/// What a [`BashStep`] says.
pub enum BashStepView {
    Finish(ResultView),
    Ask { progress: ProgressView, request: PermissionRequestView },
    Run(BashPlanView),
}

impl View for BashStep {
    type V = BashStepView;

    open spec fn view(&self) -> BashStepView {
        match self {
            BashStep::Finish(result) => BashStepView::Finish(result@),
            BashStep::Ask { progress, request } => BashStepView::Ask {
                progress: progress@,
                request: request@,
            },
            BashStep::Run(plan) => BashStepView::Run(plan@),
        }
    }
}

/// How a command is run: `bash -c command`.
pub struct BashPlan {
    pub command: String,
    /// Where it runs. Without it, in the current directory.
    pub workdir: Option<String>,
    /// What to tell once it runs.
    pub progress: Progress,
    /// Seconds after which it is killed.
    pub timeout_seconds: u64,
}

/// What a [`BashPlan`] says.
pub struct BashPlanView {
    pub command: Seq<char>,
    pub workdir: Option<Seq<char>>,
    pub progress: ProgressView,
    pub timeout_seconds: u64,
}

impl View for BashPlan {
    type V = BashPlanView;

    open spec fn view(&self) -> BashPlanView {
        BashPlanView {
            command: self.command@,
            workdir: views::option(self.workdir),
            progress: self.progress@,
            timeout_seconds: self.timeout_seconds,
        }
    }
}

/// How a command ended.
pub enum BashOutcome {
    /// By itself.
    Exited { success: bool, code: Option<i32>, stdout: String, stderr: String },
    /// It could not be waited for.
    WaitFailed(String),
    /// It was killed when its time was up.
    TimedOut,
    /// It was killed because that was asked for.
    Aborted,
}

/// Seconds after which a command is killed that does not say when.
pub const DEFAULT_TIMEOUT_SECONDS: u64 = 120;

/// Seconds after which the command is killed.
pub open spec fn timeout_of(input: BashInputView) -> u64 {
    match input.timeout {
        Some(seconds) => seconds,
        None => DEFAULT_TIMEOUT_SECONDS,
    }
}

/// A progress without a percentage.
pub open spec fn plain_progress(message: Seq<char>) -> ProgressView {
    ProgressView { message, percentage: None }
}

/// How the tool runs a command.
pub open spec fn plan_of(tool: BashToolView, input: BashInputView) -> BashPlanView {
    BashPlanView {
        command: input.command,
        workdir: if input.workdir is Some {
            input.workdir
        } else {
            tool.default_workdir
        },
        progress: plain_progress("Executing: "@ + input.command),
        timeout_seconds: timeout_of(input),
    }
}

/// The question that the tool asks before it runs a command.
pub open spec fn question_of(input: BashInputView) -> PermissionRequestView {
    PermissionRequestView {
        tool_name: "bash"@,
        action: "Execute: "@ + input.command,
        details: Some(
            "Working directory: "@ + match input.workdir {
                Some(dir) => dir,
                None => "current"@,
            },
        ),
        risk_level: command_risk(input.command),
    }
}

/// What the tool does first about a command.
pub open spec fn first_step(tool: BashToolView, input: BashInputView) -> BashStepView {
    if !tool.allows(input.command) {
        BashStepView::Finish(ResultView::failed("Command not allowed: "@ + input.command))
    } else if tool.require_permission {
        BashStepView::Ask {
            progress: plain_progress("Requesting permission to execute: "@ + input.command),
            request: question_of(input),
        }
    } else {
        BashStepView::Run(plan_of(tool, input))
    }
}

/// What the tool does about a command when it has its answer.
pub open spec fn answered_step(
    tool: BashToolView,
    input: BashInputView,
    response: PermissionResponseView,
) -> BashStepView {
    if response.granted {
        BashStepView::Run(plan_of(tool, input))
    } else {
        BashStepView::Finish(ResultView::failed(response.refusal()))
    }
}

/// What a command that succeeded put out, on both channels.
pub open spec fn success_output(stdout: Seq<char>, stderr: Seq<char>) -> Seq<char> {
    if stdout.len() == 0 && stderr.len() == 0 {
        "Command completed successfully (no output)"@
    } else if stderr.len() == 0 {
        stdout
    } else if stdout.len() == 0 {
        "stderr: "@ + stderr
    } else {
        stdout + "\nstderr: "@ + stderr
    }
}

/// What a command that failed put out, on both channels.
pub open spec fn failure_output(stdout: Seq<char>, stderr: Seq<char>) -> Seq<char> {
    if stdout.len() == 0 {
        stderr
    } else {
        stdout + "\n"@ + stderr
    }
}

/// The exit code of a command. One that was ended from outside has none, and counts as -1.
pub open spec fn exit_code(code: Option<i32>) -> int {
    match code {
        Some(n) => n as int,
        None => -1,
    }
}

/// The result of a command that ended.
pub open spec fn result_of(outcome: BashOutcome, timeout_seconds: u64) -> ResultView {
    match outcome {
        BashOutcome::Exited { success, code, stdout, stderr } => if success {
            ResultView::succeeded(text::trimmed(success_output(stdout@, stderr@)))
        } else {
            ResultView::failed(
                "Exit code "@ + text::signed_decimal_of(exit_code(code)) + ": "@
                    + text::trimmed(failure_output(stdout@, stderr@)),
            )
        },
        BashOutcome::WaitFailed(why) => ResultView::failed("Failed to execute: "@ + why@),
        BashOutcome::TimedOut => ResultView::failed(
            "Command timed out after "@ + text::decimal_of(timeout_seconds as nat) + " seconds"@,
        ),
        BashOutcome::Aborted => ResultView::failed("Command aborted by user"@),
    }
}

impl Default for BashTool {
    fn default() -> (tool: Self)
        ensures
            tool@ == default_setup(),
    {
        BashTool::new()
    }
}

impl BashTool {
    pub fn new() -> (tool: Self)
        ensures
            tool@ == default_setup(),
    {
        BashTool { allowed_commands: None, default_workdir: None, require_permission: true }
    }

    pub fn with_allowed_commands(self, commands: Vec<String>) -> (tool: Self)
        ensures
            tool@ == (BashToolView { allowed_commands: Some(views::of(commands@)), ..self@ }),
    {
        let mut tool = self;
        tool.allowed_commands = Some(commands);
        tool
    }

    pub fn with_default_workdir<W: IntoText>(self, workdir: W) -> (tool: Self)
        ensures
            tool@ == (BashToolView { default_workdir: Some(workdir.text()), ..self@ }),
    {
        let mut tool = self;
        tool.default_workdir = Some(workdir.into_text());
        tool
    }

    pub fn with_require_permission(self, require: bool) -> (tool: Self)
        ensures
            tool@ == (BashToolView { require_permission: require, ..self@ }),
    {
        let mut tool = self;
        tool.require_permission = require;
        tool
    }

    /// Whether the command may be run: the program that it names is on the list, where there is
    /// one.
    pub fn is_command_allowed(&self, command: &str) -> (b: bool)
        ensures
            b == self@.allows(command@),
    {
        match &self.allowed_commands {
            Some(allowed) => {
                let program = text::first_word(command);
                let ghost names = views::of(allowed@);
                for i in 0..allowed.len()
                    invariant
                        names == views::of(allowed@),
                        self@.allowed_commands == Some(names),
                        program@ == text::first_word_of(command@),
                        forall|j: int| 0 <= j < i ==> #[trigger] names[j] != program@,
                {
                    assert(names[i as int] == allowed@[i as int]@);
                    if program == allowed[i] {
                        return true;
                    }
                }
                false
            },
            None => true,
        }
    }

    /// The risk of the command.
    pub fn assess_risk(&self, command: &str) -> (risk: RiskLevel)
        ensures
            risk == command_risk(command@),
    {
        let high = [
            "rm -rf",
            "rm -r",
            "sudo",
            "chmod",
            "chown",
            "mkfs",
            "dd if=",
            "> /dev/",
            "kill -9",
            "pkill",
            "shutdown",
            "reboot",
            "init 0",
            "init 6",
        ];
        let medium = [
            "rm",
            "mv",
            "cp -r",
            "git push",
            "git reset --hard",
            "npm publish",
            "cargo publish",
            "docker rm",
            "docker rmi",
            "kubectl delete",
        ];
        proof {
            assert(text::str_texts(high@) =~= high_risk_patterns());
            assert(text::str_texts(medium@) =~= medium_risk_patterns());
        }
        if text::contains_any(command, &high) {
            RiskLevel::High
        } else if text::contains_any(command, &medium) {
            RiskLevel::Medium
        } else {
            RiskLevel::Low
        }
    }

    /// Reads the arguments. The command must be there, and a text; a timeout that is no whole
    /// number from zero up, or a directory that is no text, counts as missing.
    pub fn parse_input(&self, args: &serde_json::Value) -> (parsed: Result<
        BashInput,
        MissingParameter,
    >)
        ensures
            match json::json_text(json::json_member(json::json(*args), "command"@)) {
                Some(command) => parsed matches Ok(input) && input@ == (BashInputView {
                    command,
                    timeout: json::json_natural(
                        json::json_member(json::json(*args), "timeout"@),
                    ),
                    workdir: json::json_text(json::json_member(json::json(*args), "workdir"@)),
                }),
                None => parsed matches Err(e) && e.name@ == "command"@,
            },
    {
        let command = match json::text_member(args, "command") {
            Some(command) => command,
            None => {
                return Err(MissingParameter { name: "command" });
            },
        };
        let timeout: Option<u64> = match json::member(args, "timeout") {
            Some(v) => json::as_natural(v),
            None => None,
        };
        let workdir: Option<String> = json::text_member(args, "workdir");
        Ok(BashInput { command, timeout, workdir })
    }

    /// How the command is run.
    fn plan(&self, input: &BashInput) -> (plan: BashPlan)
        ensures
            plan@ == plan_of(self@, input@),
    {
        let workdir: Option<String> = match &input.workdir {
            Some(dir) => Some(dir.clone()),
            None => text::copy_optional(&self.default_workdir),
        };
        let timeout_seconds: u64 = match input.timeout {
            Some(seconds) => seconds,
            None => DEFAULT_TIMEOUT_SECONDS,
        };
        BashPlan {
            command: input.command.clone(),
            workdir,
            progress: Progress::new(text::joined("Executing: ", input.command.as_str())),
            timeout_seconds,
        }
    }

    /// What to do first about the command: a command that is not allowed is refused; else it is
    /// asked for permission, where the tool has to ask, or run.
    pub fn begin(&self, input: &BashInput) -> (step: BashStep)
        ensures
            step@ == first_step(self@, input@),
    {
        if !self.is_command_allowed(input.command.as_str()) {
            return BashStep::Finish(
                ToolResult::failure(
                    text::joined("Command not allowed: ", input.command.as_str()),
                ),
            );
        }
        if self.require_permission {
            let dir: &str = match &input.workdir {
                Some(dir) => dir.as_str(),
                None => "current",
            };
            let request = PermissionRequest::new(
                self.name(),
                text::joined("Execute: ", input.command.as_str()),
            ).with_details(text::joined("Working directory: ", dir)).with_risk_level(
                self.assess_risk(input.command.as_str()),
            );
            let progress = Progress::new(
                text::joined("Requesting permission to execute: ", input.command.as_str()),
            );
            return BashStep::Ask { progress, request };
        }
        BashStep::Run(self.plan(input))
    }

    /// What to do about the command when the answer is there: run it where that was granted.
    pub fn answered(&self, input: &BashInput, response: PermissionResponse) -> (step: BashStep)
        ensures
            step@ == answered_step(self@, input@, response@),
    {
        if response.granted {
            BashStep::Run(self.plan(input))
        } else {
            BashStep::Finish(ToolResult::failure(response.into_refusal()))
        }
    }

    /// The result of the command when it has ended.
    pub fn conclude(&self, outcome: BashOutcome, timeout_seconds: u64) -> (result: ToolResult)
        ensures
            result@ == result_of(outcome, timeout_seconds),
    {
        match outcome {
            BashOutcome::Exited { success, code, stdout, stderr } => {
                let out = stdout.as_str();
                let err = stderr.as_str();
                if success {
                    let output: String = if out.is_empty() && err.is_empty() {
                        "Command completed successfully (no output)".to_owned()
                    } else if err.is_empty() {
                        out.to_owned()
                    } else if out.is_empty() {
                        text::joined("stderr: ", err)
                    } else {
                        text::joined3(out, "\nstderr: ", err)
                    };
                    ToolResult::success(text::trim(output.as_str()))
                } else {
                    let code: i32 = match code {
                        Some(n) => n,
                        None => -1,
                    };
                    let message: String = if out.is_empty() {
                        err.to_owned()
                    } else {
                        text::joined3(out, "\n", err)
                    };
                    let head = text::joined3(
                        "Exit code ",
                        text::signed_decimal(code).as_str(),
                        ": ",
                    );
                    ToolResult::failure(
                        text::joined(head.as_str(), text::trim(message.as_str()).as_str()),
                    )
                }
            },
            BashOutcome::WaitFailed(why) => ToolResult::failure(
                text::joined("Failed to execute: ", why.as_str()),
            ),
            BashOutcome::TimedOut => ToolResult::failure(
                text::joined3(
                    "Command timed out after ",
                    text::decimal(timeout_seconds as u128).as_str(),
                    " seconds",
                ),
            ),
            BashOutcome::Aborted => ToolResult::failure("Command aborted by user"),
        }
    }
}

/// The schema of what the tool takes.
pub open spec fn bash_schema() -> json::Json {
    json::object_schema(
        seq![
            (
                "command"@,
                json::parameter_schema("string"@, "The bash command to execute"@),
            ),
            (
                "timeout"@,
                json::parameter_schema("integer"@, "Timeout in seconds (default: 120)"@),
            ),
            (
                "workdir"@,
                json::parameter_schema("string"@, "Working directory for the command"@),
            ),
        ],
        seq!["command"@],
    )
}

impl Tool for BashTool {
    fn name(&self) -> (name: &str)
        ensures
            name@ == "bash"@,
    {
        "bash"
    }

    fn description(&self) -> (description: &str)
        ensures
            description@ == "Execute a bash command and return the output. Use this for shell operations like file manipulation, system commands, etc."@,
    {
        "Execute a bash command and return the output. Use this for shell operations like file manipulation, system commands, etc."
    }

    fn parameters(&self) -> (schema: serde_json::Value)
        ensures
            json::json(schema) == bash_schema(),
    {
        let parameters = [
            Parameter {
                name: "command",
                kind: "string",
                description: "The bash command to execute",
            },
            Parameter {
                name: "timeout",
                kind: "integer",
                description: "Timeout in seconds (default: 120)",
            },
            Parameter {
                name: "workdir",
                kind: "string",
                description: "Working directory for the command",
            },
        ];
        let required = ["command"];
        proof {
            assert(views::of(parameters@) =~= seq![
                parameters@[0]@,
                parameters@[1]@,
                parameters@[2]@,
            ]);
            assert(text::str_texts(required@) =~= seq!["command"@]);
        }
        json::build_object_schema(&parameters, &required)
    }
}

// ==================== Laws ====================

/// A command runs only if it is allowed; and where the tool has to ask, none runs at the first
/// step, and none is asked for that is not allowed.
pub proof fn law_nothing_runs_unasked(tool: BashToolView, input: BashInputView)
    ensures
        !(first_step(tool, input) is Finish) ==> tool.allows(input.command),
        tool.require_permission ==> !(first_step(tool, input) is Run),
{
}

/// After the question a command runs if and only if that was granted; a refusal is a failure in
/// the words of the answer.
pub proof fn law_only_a_grant_runs(
    tool: BashToolView,
    input: BashInputView,
    response: PermissionResponseView,
)
    ensures
        answered_step(tool, input, response) is Run <==> response.granted,
        !response.granted ==> answered_step(tool, input, response) == BashStepView::Finish(
            ResultView::failed(response.refusal()),
        ),
{
}

/// However a command ends, its result has an error if and only if it is no success.
pub proof fn law_results_are_consistent(outcome: BashOutcome, timeout_seconds: u64)
    ensures
        result_of(outcome, timeout_seconds).consistent(),
        result_of(outcome, timeout_seconds).success <==> (outcome matches BashOutcome::Exited {
            success,
            ..
        } && success),
{
}

/// What is added to a command never makes it less risky.
pub proof fn law_more_command_is_no_less_risk(
    before: Seq<char>,
    command: Seq<char>,
    behind: Seq<char>,
)
    ensures
        command_risk(command).rank() <= command_risk(before + command + behind).rank(),
{
    text::lemma_any_occurs_in_more(before, command, behind, high_risk_patterns());
    text::lemma_any_occurs_in_more(before, command, behind, medium_risk_patterns());
}

/// A command has high risk if and only if one of these stands somewhere in it.
pub proof fn law_high_risk_is_what_is_dangerous(given: Seq<char>)
    ensures
        command_risk(given) == RiskLevel::High <==> ({
            let words = seq![
                "rm -rf"@,
                "rm -r"@,
                "sudo"@,
                "chmod"@,
                "chown"@,
                "mkfs"@,
                "dd if="@,
                "> /dev/"@,
                "kill -9"@,
                "pkill"@,
                "shutdown"@,
                "reboot"@,
                "init 0"@,
                "init 6"@,
            ];
            exists|k: int, before: Seq<char>, behind: Seq<char>|
                0 <= k < words.len() && given == #[trigger] (before + words[k] + behind)
        }),
{
    let words = high_risk_patterns();
    lemma_risky(given, words);
}

/// A command that has no high risk has medium risk if and only if one of these stands somewhere in
/// it, and else low risk.
pub proof fn law_medium_risk_is_what_changes_things(given: Seq<char>)
    requires
        command_risk(given) != RiskLevel::High,
    ensures
        command_risk(given) == RiskLevel::Medium <==> ({
            let words = seq![
                "rm"@,
                "mv"@,
                "cp -r"@,
                "git push"@,
                "git reset --hard"@,
                "npm publish"@,
                "cargo publish"@,
                "docker rm"@,
                "docker rmi"@,
                "kubectl delete"@,
            ];
            exists|k: int, before: Seq<char>, behind: Seq<char>|
                0 <= k < words.len() && given == #[trigger] (before + words[k] + behind)
        }),
{
    let words = medium_risk_patterns();
    lemma_risky(given, words);
}

/// Some text of a list stands in a text if and only if the text is one of them with something, or
/// nothing, before and behind it.
proof fn lemma_risky(given: Seq<char>, words: Seq<Seq<char>>)
    ensures
        text::any_occurs_in(given, words) <==> exists|
            k: int,
            before: Seq<char>,
            behind: Seq<char>,
        |
            0 <= k < words.len() && given == #[trigger] (before + words[k] + behind),
{
    if text::any_occurs_in(given, words) {
        let k = choose|k: int|
            0 <= k < words.len() && text::occurs_in(given, #[trigger] words[k]);
        text::law_what_is_found_is_there(given, words[k]);
        let (before, behind) = choose|before: Seq<char>, behind: Seq<char>|
            given == #[trigger] (before + words[k] + behind);
        assert(given == before + words[k] + behind);
    }
    if exists|k: int, before: Seq<char>, behind: Seq<char>|
        0 <= k < words.len() && given == #[trigger] (before + words[k] + behind) {
        let (k, before, behind) = choose|k: int, before: Seq<char>, behind: Seq<char>|
            0 <= k < words.len() && given == #[trigger] (before + words[k] + behind);
        text::law_what_is_found_is_there(given, words[k]);
        assert(text::occurs_in(given, words[k]));
    }
}

/// With a list, a command may be run if and only if the program that it begins with is on the list;
/// white space before the program does not count. Without a list any command may.
pub proof fn law_only_listed_programs_may_run(
    tool: BashToolView,
    before: Seq<char>,
    program: Seq<char>,
    behind: Seq<char>,
)
    requires
        forall|i: int| 0 <= i < before.len() ==> text::is_white_space(#[trigger] before[i]),
        forall|i: int| 0 <= i < program.len() ==> !text::is_white_space(#[trigger] program[i]),
        program.len() > 0,
        behind.len() > 0 ==> text::is_white_space(behind[0]),
    ensures
        tool.allowed_commands is None ==> tool.allows(before + program + behind),
        tool.allowed_commands matches Some(listed) ==> (tool.allows(before + program + behind)
            <==> exists|i: int| 0 <= i < listed.len() && #[trigger] listed[i] == program),
{
    text::law_the_first_word_is_found(before, program, behind);
}

/// A command is run as it was asked for: the command itself, in the directory that was asked for or
/// else the one that the tool has, and as long as was asked for or else two minutes.
pub proof fn law_a_command_runs_as_asked(
    tool: BashToolView,
    input: BashInputView,
    response: PermissionResponseView,
)
    ensures
        first_step(tool, input) matches BashStepView::Run(plan) ==> runs_as_asked(
            tool,
            input,
            plan,
        ),
        answered_step(tool, input, response) matches BashStepView::Run(plan) ==> runs_as_asked(
            tool,
            input,
            plan,
        ),
        first_step(tool, input) matches BashStepView::Ask { request, .. } ==> {
            &&& request.action == "Execute: "@ + input.command
            &&& request.risk_level == command_risk(input.command)
            &&& input.workdir matches Some(dir) ==> request.details == Some(
                "Working directory: "@ + dir,
            )
        },
        first_step(tool, input) is Ask <==> tool.allows(input.command) && tool.require_permission,
        first_step(tool, input) is Run <==> tool.allows(input.command) && !tool.require_permission,
{
}

/// The plan is to run just that command.
pub open spec fn runs_as_asked(
    tool: BashToolView,
    input: BashInputView,
    plan: BashPlanView,
) -> bool {
    &&& plan.command == input.command
    &&& match (input.workdir, tool.default_workdir) {
        (Some(dir), _) => plan.workdir == Some(dir),
        (None, Some(dir)) => plan.workdir == Some(dir),
        (None, None) => plan.workdir is None,
    }
    &&& match input.timeout {
        Some(seconds) => plan.timeout_seconds == seconds,
        None => plan.timeout_seconds == 120,
    }
}

/// The result of a command that exited tells what it put out. White space around the whole does not
/// count. A success gives the output, with the errors behind it under a heading, where there are
/// any; a failure gives the exit code, and then the output and the errors.
pub proof fn law_a_result_tells_what_came_out(
    success: bool,
    code: Option<i32>,
    stdout: String,
    stderr: String,
    timeout_seconds: u64,
)
    ensures
        ({
            let result = result_of(
                BashOutcome::Exited { success, code, stdout, stderr },
                timeout_seconds,
            );
            let number = match code {
                Some(n) => n as int,
                None => -1,
            };
            &&& result.success == success
            &&& success && stderr@.len() == 0 && stdout@.len() > 0 ==> result.output
                == text::trimmed(stdout@)
            &&& success && stderr@.len() > 0 && stdout@.len() > 0 ==> result.output
                == text::trimmed(stdout@ + "\nstderr: "@ + stderr@)
            &&& success && stderr@.len() > 0 && stdout@.len() == 0 ==> result.output
                == text::trimmed("stderr: "@ + stderr@)
            &&& !success && stdout@.len() > 0 ==> result.error == Some(
                "Exit code "@ + text::signed_decimal_of(number) + ": "@ + text::trimmed(
                    stdout@ + "\n"@ + stderr@,
                ),
            )
            &&& !success && stdout@.len() == 0 ==> result.error == Some(
                "Exit code "@ + text::signed_decimal_of(number) + ": "@ + text::trimmed(stderr@),
            )
        }),
{
}

/// The command is read as it was written, and so are the timeout and the directory where they are
/// there. Without a command nothing is read.
pub proof fn law_arguments_are_read_as_written(
    tool: BashTool,
    args: serde_json::Value,
    members: Map<Seq<char>, json::Json>,
    parsed: Result<BashInput, MissingParameter>,
)
    requires
        call_ensures(BashTool::parse_input, (&tool, &args), parsed),
        json::json(args) == json::Json::Object(members),
    ensures
        parsed is Ok <==> members.contains_key("command"@) && members["command"@] is Text,
        parsed matches Ok(input) ==> {
            &&& members["command"@] == json::Json::Text(input.command@)
            &&& match input.workdir {
                Some(dir) => members.contains_key("workdir"@) && members["workdir"@]
                    == json::Json::Text(dir@),
                None => members.contains_key("workdir"@) ==> !(members["workdir"@] is Text),
            }
            &&& match input.timeout {
                Some(n) => members.contains_key("timeout"@) && members["timeout"@]
                    == json::Json::Number(json::JsonNumber::Natural(n)),
                None => members.contains_key("timeout"@) ==> !(members["timeout"@] matches
                json::Json::Number(json::JsonNumber::Natural(_))),
            }
        },
{
}

} // verus!
