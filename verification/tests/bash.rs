use funcode::bash::{BashInput, BashOutcome, BashStep, BashTool};
use funcode::toolkit::{PermissionResponse, RiskLevel};
use funcode::tools::Tool;
use serde_json::Value;

fn args(members: &[(&str, Value)]) -> Value {
    let mut map = serde_json::Map::new();
    for (name, value) in members {
        map.insert(name.to_string(), value.clone());
    }
    Value::Object(map)
}

fn input(command: &str) -> BashInput {
    BashInput { command: command.to_string(), timeout: None, workdir: None }
}

fn exited(success: bool, code: Option<i32>, stdout: &str, stderr: &str) -> BashOutcome {
    BashOutcome::Exited { success, code, stdout: stdout.to_string(), stderr: stderr.to_string() }
}

#[test]
fn test_bash_tool_name_and_description() {
    let tool = BashTool::new();
    assert_eq!(tool.name(), "bash");
    assert!(!tool.description().is_empty());
}

#[test]
fn test_bash_tool_parameters() {
    let tool = BashTool::new();
    let params = tool.parameters();
    assert!(params.is_object());
    let obj = params.as_object().unwrap();
    assert!(obj.contains_key("properties"));
    assert!(obj.contains_key("required"));
}

#[test]
fn the_parameters_are_described() {
    let expected: Value = serde_json::from_str(
        r#"{
            "type": "object",
            "properties": {
                "command": {"type": "string", "description": "The bash command to execute"},
                "timeout": {"type": "integer", "description": "Timeout in seconds (default: 120)"},
                "workdir": {"type": "string", "description": "Working directory for the command"}
            },
            "required": ["command"]
        }"#,
    )
    .unwrap();
    assert_eq!(BashTool::default().parameters(), expected);
}

#[test]
fn bash_test_assess_risk_high() {
    let tool = BashTool::new();
    assert_eq!(tool.assess_risk("rm -rf /"), RiskLevel::High);
    assert_eq!(tool.assess_risk("sudo apt install"), RiskLevel::High);
    assert_eq!(tool.assess_risk("dd if=/dev/zero of=/dev/sda"), RiskLevel::High);
}

#[test]
fn bash_test_assess_risk_medium() {
    let tool = BashTool::new();
    assert_eq!(tool.assess_risk("rm file.txt"), RiskLevel::Medium);
    assert_eq!(tool.assess_risk("git push origin main"), RiskLevel::Medium);
}

#[test]
fn bash_test_assess_risk_low() {
    let tool = BashTool::new();
    assert_eq!(tool.assess_risk("ls -la"), RiskLevel::Low);
    assert_eq!(tool.assess_risk("echo hello"), RiskLevel::Low);
    assert_eq!(tool.assess_risk("cat file.txt"), RiskLevel::Low);
}

#[test]
fn every_pattern_counts() {
    let tool = BashTool::new();
    for pattern in [
        "rm -rf", "rm -r", "sudo", "chmod", "chown", "mkfs", "dd if=", "> /dev/", "kill -9",
        "pkill", "shutdown", "reboot", "init 0", "init 6",
    ] {
        assert_eq!(tool.assess_risk(pattern), RiskLevel::High, "{}", pattern);
        assert_eq!(tool.assess_risk(&format!("echo; {} x", pattern)), RiskLevel::High);
    }
    for pattern in [
        "rm", "mv", "cp -r", "git push", "git reset --hard", "npm publish", "cargo publish",
        "docker rm", "docker rmi", "kubectl delete",
    ] {
        assert_eq!(tool.assess_risk(pattern), RiskLevel::Medium, "{}", pattern);
    }
    assert_eq!(tool.assess_risk(""), RiskLevel::Low);
}

#[test]
fn bash_test_parse_input() {
    let tool = BashTool::new();
    let args = args(&[
        ("command", Value::from("ls -la")),
        ("timeout", Value::from(30)),
        ("workdir", Value::from("/home")),
    ]);

    let input = tool.parse_input(&args).unwrap();
    assert_eq!(input.command, "ls -la");
    assert_eq!(input.timeout, Some(30));
    assert_eq!(input.workdir, Some("/home".to_string()));
}

#[test]
fn test_parse_input_missing_command() {
    let tool = BashTool::new();
    let result = tool.parse_input(&args(&[]));
    assert!(result.is_err());
    assert_eq!(result.unwrap_err().message(), "Missing 'command' parameter");
}

#[test]
fn arguments_of_another_type_count_as_missing() {
    let tool = BashTool::new();
    assert!(tool.parse_input(&args(&[("command", Value::from(1))])).is_err());
    assert!(tool.parse_input(&Value::from("ls")).is_err());
    assert!(tool.parse_input(&Value::Null).is_err());

    let parsed = tool
        .parse_input(&args(&[
            ("command", Value::from("ls")),
            ("timeout", Value::from(-1)),
            ("workdir", Value::Null),
        ]))
        .unwrap();
    assert_eq!(parsed, input("ls"));
    let parsed = tool
        .parse_input(&args(&[("command", Value::from("ls")), ("timeout", Value::from(1.5))]))
        .unwrap();
    assert_eq!(parsed.timeout, None);
    let parsed = tool
        .parse_input(&args(&[("command", Value::from("ls")), ("timeout", Value::from(u64::MAX))]))
        .unwrap();
    assert_eq!(parsed.timeout, Some(u64::MAX));
}

#[test]
fn test_bash_allowed_commands() {
    let tool = BashTool::new()
        .with_allowed_commands(vec!["echo".to_string()])
        .with_require_permission(false);

    assert!(matches!(tool.begin(&input("echo 'allowed'")), BashStep::Run(_)));
    match tool.begin(&input("ls")) {
        BashStep::Finish(result) => {
            assert!(!result.success);
            assert!(result.error.as_ref().unwrap().contains("not allowed"));
            assert_eq!(result.error.unwrap(), "Command not allowed: ls");
        }
        _ => panic!("expected a refusal"),
    }
}

#[test]
fn the_program_is_the_first_word() {
    let tool = BashTool::new().with_allowed_commands(vec!["echo".to_string(), "".to_string()]);
    assert!(tool.is_command_allowed("  \t echo\u{a0}x"));
    assert!(tool.is_command_allowed(" \n "));
    assert!(!tool.is_command_allowed("echos"));
    assert!(!tool.is_command_allowed("ls echo"));
    assert!(BashTool::new().is_command_allowed("anything"));
    assert!(!BashTool::new().with_allowed_commands(vec![]).is_command_allowed("ls"));
}

#[test]
fn permission_is_asked_for() {
    let tool = BashTool::new();
    let mut asked = input("rm -rf /tmp/x");
    match tool.begin(&asked) {
        BashStep::Ask { progress, request } => {
            assert_eq!(progress.message, "Requesting permission to execute: rm -rf /tmp/x");
            assert_eq!(progress.percentage, None);
            assert_eq!(request.tool_name, "bash");
            assert_eq!(request.action, "Execute: rm -rf /tmp/x");
            assert_eq!(request.details.as_deref(), Some("Working directory: current"));
            assert_eq!(request.risk_level, RiskLevel::High);
        }
        _ => panic!("expected a question"),
    }
    asked.workdir = Some("/srv".to_string());
    match tool.with_default_workdir("/home").begin(&asked) {
        BashStep::Ask { request, .. } => {
            assert_eq!(request.details.as_deref(), Some("Working directory: /srv"));
        }
        _ => panic!("expected a question"),
    }
}

#[test]
fn test_bash_permission_denied() {
    let tool = BashTool::new().with_require_permission(true);
    match tool.answered(&input("echo 'hello'"), PermissionResponse::from(false)) {
        BashStep::Finish(result) => {
            assert!(!result.success);
            assert!(result.error.unwrap().contains("Permission denied"));
        }
        _ => panic!("expected a refusal"),
    }
    let wordless = PermissionResponse { granted: false, reason: None };
    match tool.answered(&input("ls"), wordless) {
        BashStep::Finish(result) => assert_eq!(result.error.unwrap(), "Permission denied"),
        _ => panic!("expected a refusal"),
    }
}

#[test]
fn a_grant_runs_the_command() {
    let tool = BashTool::new().with_default_workdir("/home");
    match tool.answered(&input("ls"), PermissionResponse::granted()) {
        BashStep::Run(plan) => {
            assert_eq!(plan.command, "ls");
            assert_eq!(plan.workdir.as_deref(), Some("/home"));
            assert_eq!(plan.progress.message, "Executing: ls");
            assert_eq!(plan.timeout_seconds, 120);
        }
        _ => panic!("expected a run"),
    }
    let asked = BashInput {
        command: "pwd".to_string(),
        timeout: Some(1),
        workdir: Some("/tmp".to_string()),
    };
    match tool.with_require_permission(false).begin(&asked) {
        BashStep::Run(plan) => {
            assert_eq!(plan.workdir.as_deref(), Some("/tmp"));
            assert_eq!(plan.timeout_seconds, 1);
        }
        _ => panic!("expected a run"),
    }
}

#[test]
fn a_success_shows_its_output() {
    let tool = BashTool::new();
    let shown = |stdout: &str, stderr: &str| {
        let result = tool.conclude(exited(true, Some(0), stdout, stderr), 120);
        assert!(result.success);
        assert_eq!(result.error, None);
        result.output
    };
    assert_eq!(shown("hello world\n", ""), "hello world");
    assert_eq!(shown("", ""), "Command completed successfully (no output)");
    assert_eq!(shown("", "error\n"), "stderr: error");
    assert_eq!(shown("out\n", "err\n"), "out\n\nstderr: err");
    assert_eq!(shown(" \n", ""), "");
}

#[test]
fn a_failure_shows_its_exit_code() {
    let tool = BashTool::new();
    let shown = |code: Option<i32>, stdout: &str, stderr: &str| {
        let result = tool.conclude(exited(false, code, stdout, stderr), 120);
        assert!(!result.success);
        assert_eq!(result.output, "");
        result.error.unwrap()
    };
    assert_eq!(shown(Some(127), "", "not found\n"), "Exit code 127: not found");
    assert_eq!(shown(Some(1), "out", "err"), "Exit code 1: out\nerr");
    assert_eq!(shown(None, "", ""), "Exit code -1: ");
    assert_eq!(shown(Some(i32::MIN), "", "x"), "Exit code -2147483648: x");
}

#[test]
fn other_ends_are_failures() {
    let tool = BashTool::new();
    assert_eq!(
        tool.conclude(BashOutcome::TimedOut, 1).error.unwrap(),
        "Command timed out after 1 seconds"
    );
    assert_eq!(tool.conclude(BashOutcome::Aborted, 1).error.unwrap(), "Command aborted by user");
    assert_eq!(
        tool.conclude(BashOutcome::WaitFailed("gone".to_string()), 1).error.unwrap(),
        "Failed to execute: gone"
    );
}

#[test]
fn more_command_is_no_less_risk() {
    let tool = BashTool::new();
    for command in ["ls", "rm x", "sudo ls"] {
        let longer = format!("git push; {}; ls", command);
        let rank = |r: RiskLevel| match r {
            RiskLevel::Low => 0,
            RiskLevel::Medium => 1,
            RiskLevel::High => 2,
        };
        assert!(rank(tool.assess_risk(command)) <= rank(tool.assess_risk(&longer)));
    }
}
