use funcode::toolkit::{PermissionResponse, RiskLevel};
use funcode::tools::Tool;
use funcode::write::{WriteInput, WriteStep, WriteTool};
use serde_json::Value;

fn args(members: &[(&str, &str)]) -> Value {
    let mut map = serde_json::Map::new();
    for (name, value) in members {
        map.insert(name.to_string(), Value::from(*value));
    }
    Value::Object(map)
}

fn input(content: &str, file_path: &str) -> WriteInput {
    WriteInput { content: content.to_string(), file_path: file_path.to_string() }
}

#[test]
fn test_write_tool_name_and_description() {
    let tool = WriteTool::new();
    assert_eq!(tool.name(), "write");
    assert!(!tool.description().is_empty());
}

#[test]
fn test_write_tool_parameters() {
    let tool = WriteTool::new();
    let params = tool.parameters();
    assert!(params.is_object());
    let obj = params.as_object().unwrap();
    assert!(obj.contains_key("properties"));
    assert!(obj.contains_key("required"));
    assert_eq!(params["required"], Value::from(vec!["content", "file_path"]));
    assert_eq!(
        params["properties"]["file_path"]["description"],
        "The absolute path to the file to write"
    );
}

#[test]
fn write_test_assess_risk_high() {
    let tool = WriteTool::new();
    assert_eq!(tool.assess_risk("/etc/passwd"), RiskLevel::High);
    assert_eq!(tool.assess_risk("/home/user/.ssh/id_rsa"), RiskLevel::High);
    assert_eq!(tool.assess_risk("/app/.env"), RiskLevel::High);
}

#[test]
fn write_test_assess_risk_medium() {
    let tool = WriteTool::new();
    assert_eq!(tool.assess_risk("/app/config.json"), RiskLevel::Medium);
}

#[test]
fn write_test_assess_risk_low() {
    let tool = WriteTool::new();
    assert_eq!(tool.assess_risk("/tmp/test.txt"), RiskLevel::Low);
    assert_eq!(tool.assess_risk("/home/user/file.txt"), RiskLevel::Low);
}

#[test]
fn every_path_pattern_counts() {
    let tool = WriteTool::default();
    for pattern in [
        "/etc/passwd", "/etc/shadow", ".ssh/", ".gnupg/", ".env", "credentials", "secrets",
    ] {
        assert_eq!(tool.assess_risk(&format!("/x{}y", pattern)), RiskLevel::High);
    }
    for pattern in ["config.json", "settings.json", ".config/"] {
        assert_eq!(tool.assess_risk(&format!("/x{}y", pattern)), RiskLevel::Medium);
        assert_eq!(tool.assess_risk(&format!("/x{}/secrets", pattern)), RiskLevel::High);
    }
}

#[test]
fn write_test_parse_input() {
    let tool = WriteTool::new();
    let args = args(&[("content", "test content"), ("file_path", "/tmp/test.txt")]);

    let input = tool.parse_input(&args).unwrap();
    assert_eq!(input.content, "test content");
    assert_eq!(input.file_path, "/tmp/test.txt");
}

#[test]
fn test_parse_input_missing_content() {
    let tool = WriteTool::new();
    let result = tool.parse_input(&args(&[("file_path", "/tmp/test.txt")]));
    assert!(result.is_err());
    assert_eq!(result.unwrap_err().message(), "Missing 'content' parameter");
}

#[test]
fn test_parse_input_missing_file_path() {
    let tool = WriteTool::new();
    let result = tool.parse_input(&args(&[("content", "test")]));
    assert!(result.is_err());
    assert_eq!(result.unwrap_err().message(), "Missing 'file_path' parameter");
    assert_eq!(tool.parse_input(&args(&[])).unwrap_err().name, "content");
}

#[test]
fn writing_is_asked_for() {
    let tool = WriteTool::new();
    match tool.begin(&input("héllo", "/app/.env")) {
        WriteStep::Ask { progress, request } => {
            assert_eq!(progress.message, "Requesting permission to write: /app/.env");
            assert_eq!(request.tool_name, "write");
            assert_eq!(request.action, "Write to: /app/.env");
            assert_eq!(request.details.as_deref(), Some("Content length: 6 bytes"));
            assert_eq!(request.risk_level, RiskLevel::High);
        }
        _ => panic!("expected a question"),
    }
    let silent = WriteTool::new().with_require_permission(false);
    assert!(matches!(silent.begin(&input("x", "/app/.env")), WriteStep::CheckParent));
}

#[test]
fn test_write_permission_denied() {
    let tool = WriteTool::new().with_require_permission(true);
    match tool.answered(PermissionResponse::from(false)) {
        WriteStep::Finish(result) => {
            assert!(!result.success);
            assert!(result.error.unwrap().contains("Permission denied"));
        }
        _ => panic!("expected a refusal"),
    }
    assert!(matches!(tool.answered(PermissionResponse::granted()), WriteStep::CheckParent));
}

#[test]
fn test_write_parent_not_exists() {
    let tool = WriteTool::new().with_require_permission(false);
    match tool.checked(&input("hello", "/nonexistent/dir/file.txt"), Some("/nonexistent/dir")) {
        WriteStep::Finish(result) => {
            assert!(!result.success);
            let error = result.error.unwrap();
            assert!(error.contains("Parent directory does not exist"));
            assert_eq!(error, "Parent directory does not exist: /nonexistent/dir");
        }
        _ => panic!("expected a failure"),
    }
}

#[test]
fn a_file_is_written_and_counted() {
    let tool = WriteTool::new();
    match tool.checked(&input("hello world", "/tmp/test.txt"), None) {
        WriteStep::Write(progress) => assert_eq!(progress.message, "Writing to: /tmp/test.txt"),
        _ => panic!("expected to write"),
    }
    let result = tool.written(&input("hello world", "/tmp/test.txt"));
    assert!(result.success);
    assert_eq!(result.output, "Successfully wrote 11 bytes to /tmp/test.txt");
}

#[test]
fn more_path_is_no_less_risk() {
    let tool = WriteTool::new();
    assert_eq!(tool.assess_risk("/a/.config/"), RiskLevel::Medium);
    assert_eq!(tool.assess_risk("/b/a/.config/x"), RiskLevel::Medium);
    assert_eq!(tool.assess_risk("/b/a/.config/x.env"), RiskLevel::High);
}
