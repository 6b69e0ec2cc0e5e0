use funcode::tools::{
    parse_arguments, parsed_arguments, schema_for, FileEditInput, FileEditTool, FileReadTool,
    FileWriteInput, FileWriteTool, Tool, ToolError, ToolRegistry,
};
use serde_json::Value;

fn parse(text: &str) -> Value {
    serde_json::from_str(text).unwrap()
}

enum TestTool {
    Echo,
    Fail,
    Other(&'static str),
}

impl Tool for TestTool {
    fn name(&self) -> &str {
        match self {
            TestTool::Echo => "echo",
            TestTool::Fail => "fail",
            TestTool::Other(_) => "echo",
        }
    }

    fn description(&self) -> &str {
        match self {
            TestTool::Echo => "Echoes back the input arguments",
            TestTool::Fail => "Always fails",
            TestTool::Other(description) => description,
        }
    }

    fn parameters(&self) -> Value {
        parse(r#"{"type": "object", "properties": {"message": {"type": "string"}}, "required": ["message"]}"#)
    }
}

fn run(tool: &TestTool, arguments: &str) -> Result<String, ToolError> {
    match tool {
        TestTool::Fail => Err(ToolError::Execution("intentional failure".to_string())),
        _ => {
            parse_arguments(arguments, "echo")?;
            Ok(arguments.to_string())
        }
    }
}

fn execute(
    registry: &ToolRegistry<TestTool>,
    id: &str,
    name: &str,
    arguments: &str,
) -> funcode::model::ToolResult {
    let returned = match registry.get(name) {
        Some(tool) => run(tool, arguments),
        None => Err(ToolError::Execution("never run".to_string())),
    };
    registry.execute(id, name, returned)
}

#[test]
fn register_and_lookup_tool() {
    let mut registry = ToolRegistry::new();
    assert!(registry.is_empty());

    registry.register(TestTool::Echo);
    assert!(registry.contains("echo"));
    assert!(!registry.contains("unknown"));
    assert_eq!(registry.len(), 1);

    let tool = registry.get("echo").expect("echo should exist");
    assert_eq!(tool.name(), "echo");
    assert_eq!(tool.description(), "Echoes back the input arguments");
}

#[test]
fn register_overwrites_same_name() {
    let mut registry = ToolRegistry::new();
    registry.register(TestTool::Echo);
    registry.register(TestTool::Echo);
    assert_eq!(registry.len(), 1);
}

#[test]
fn the_newest_tool_of_a_name_is_found() {
    let mut registry = ToolRegistry::default();
    registry.register(TestTool::Echo);
    registry.register(TestTool::Fail);
    registry.register(TestTool::Other("a second echo"));
    assert_eq!(registry.len(), 2);
    assert_eq!(registry.get("echo").unwrap().description(), "a second echo");
    assert_eq!(registry.get("fail").unwrap().description(), "Always fails");
    assert!(registry.get("none").is_none());
    let names: Vec<&str> = registry.list().iter().map(|t| t.name()).collect();
    assert_eq!(names, vec!["echo", "fail"]);
}

#[test]
fn specs_collects_all_tool_definitions() {
    let mut registry = ToolRegistry::new();
    registry.register(TestTool::Echo);
    registry.register(TestTool::Fail);

    let specs = registry.specs();
    assert_eq!(specs.len(), 2);

    let names: Vec<&str> = specs.iter().map(|s| s.name.as_str()).collect();
    assert!(names.contains(&"echo"));
    assert!(names.contains(&"fail"));

    let echo_spec = specs.iter().find(|s| s.name == "echo").unwrap();
    assert_eq!(echo_spec.description, "Echoes back the input arguments");
    assert_eq!(echo_spec.input_schema["type"], "object");

    let definitions = registry.to_openai_tools();
    assert_eq!(definitions.len(), 2);
    assert_eq!(definitions[1].function.name, "fail");
    assert_eq!(definitions[1].function.description.as_deref(), Some("Always fails"));
    assert_eq!(definitions[1].function.parameters["type"], "object");
}

#[test]
fn execute_existing_tool() {
    let mut registry = ToolRegistry::new();
    registry.register(TestTool::Echo);

    let result = execute(&registry, "call_1", "echo", r#"{"message":"hello"}"#);

    assert_eq!(result.tool_call_id, "call_1");
    assert_eq!(result.tool_name, "echo");
    assert!(!result.is_error);
    assert_eq!(result.content, r#"{"message":"hello"}"#);
}

#[test]
fn execute_unknown_tool_returns_error() {
    let registry: ToolRegistry<TestTool> = ToolRegistry::new();

    let result = execute(&registry, "call_1", "nonexistent", "{}");

    assert_eq!(result.tool_call_id, "call_1");
    assert_eq!(result.tool_name, "nonexistent");
    assert!(result.is_error);
    assert!(result.content.contains("unknown tool"));
    assert_eq!(result.content, "unknown tool: nonexistent");
}

#[test]
fn execute_failing_tool_returns_error() {
    let mut registry = ToolRegistry::new();
    registry.register(TestTool::Fail);

    let result = execute(&registry, "call_2", "fail", "{}");

    assert_eq!(result.tool_call_id, "call_2");
    assert_eq!(result.tool_name, "fail");
    assert!(result.is_error);
    assert!(result.content.contains("intentional failure"));
}

#[test]
fn execute_tool_with_invalid_arguments() {
    let mut registry = ToolRegistry::new();
    registry.register(TestTool::Echo);

    let result = execute(&registry, "call_3", "echo", "not json");

    assert_eq!(result.tool_call_id, "call_3");
    assert!(result.is_error);
    assert!(result.content.contains("invalid arguments"));
}

#[test]
fn parse_arguments_valid_json() {
    let args = parse_arguments(r#"{"message":"hello"}"#, "test").unwrap();
    assert_eq!(args["message"], "hello");
}

#[test]
fn parse_arguments_invalid_json() {
    let err = parse_arguments("not json", "test").unwrap_err();
    assert!(err.message().contains("invalid arguments"));
    assert!(err.message().starts_with("invalid arguments: test: "));
    assert!(parse_arguments("[1]", "test").is_err());
    assert!(parse_arguments("", "test").is_err());
}

#[test]
fn a_parsers_error_names_the_tool() {
    assert_eq!(parsed_arguments::<u8>(Ok(3), "t"), Ok(3));
    assert_eq!(
        parsed_arguments::<u8>(Err("missing field".to_string()), "Read").unwrap_err().message(),
        "invalid arguments: Read: missing field"
    );
}

#[test]
fn file_read_tool_parameters() {
    let schema = FileReadTool::new().parameters();

    let expected = parse(
        r#"{
            "type": "object",
            "properties": {
                "file_path": {
                    "type": "string",
                    "description": "The absolute path to the file to read"
                },
                "offset": {
                    "type": "integer",
                    "description": "Line number to start reading from (0-based)"
                },
                "limit": {
                    "type": "integer",
                    "description": "Maximum number of lines to read"
                }
            },
            "required": ["file_path"]
        }"#,
    );

    assert_eq!(schema, expected);
}

#[test]
fn file_edit_tool_parameters() {
    let schema = FileEditTool::new().parameters();

    let expected = parse(
        r#"{
            "type": "object",
            "properties": {
                "file_path": {
                    "type": "string",
                    "description": "The absolute path to the file to modify"
                },
                "old_string": {
                    "type": "string",
                    "description": "The text to replace"
                },
                "new_string": {
                    "type": "string",
                    "description": "The text to replace it with (must be different from old_string)"
                },
                "replace_all": {
                    "type": "boolean",
                    "description": "Replace all occurrences of old_string"
                }
            },
            "required": ["file_path", "new_string", "old_string"]
        }"#,
    );

    assert_eq!(schema, expected);
}

#[test]
fn file_write_tool_parameters() {
    let schema = FileWriteTool::new().parameters();

    let expected = parse(
        r#"{
            "type": "object",
            "properties": {
                "file_path": {
                    "type": "string",
                    "description": "The absolute path to the file to write (must be absolute, not relative)"
                },
                "content": {
                    "type": "string",
                    "description": "The content to write to the file"
                }
            },
            "required": ["content", "file_path"]
        }"#,
    );

    assert_eq!(schema, expected);
}

#[test]
fn a_generated_schema_is_cleaned() {
    let generated = parse(
        r#"{
            "title": "FileReadInput",
            "description": "What is read",
            "type": "object",
            "properties": {
                "limit": {
                    "type": "integer",
                    "format": "uint",
                    "minimum": 0.0,
                    "description": "stays",
                    "title": "stays"
                },
                "title": {"type": "string"},
                "odd": true
            },
            "required": ["limit"],
            "format": "stays",
            "definitions": {"x": {"format": "stays"}}
        }"#,
    );
    let expected = parse(
        r#"{
            "type": "object",
            "properties": {
                "limit": {"type": "integer", "description": "stays", "title": "stays"},
                "title": {"type": "string"},
                "odd": true
            },
            "required": ["limit"],
            "format": "stays",
            "definitions": {"x": {"format": "stays"}}
        }"#,
    );
    let once = schema_for(generated);
    assert_eq!(once, expected);
    assert_eq!(schema_for(once.clone()), once);
}

#[test]
fn what_is_no_object_is_left_alone() {
    for text in ["true", "null", "[1]", "\"title\"", r#"{"properties": [{"format": 1}]}"#, "{}"] {
        assert_eq!(schema_for(parse(text)), parse(text));
    }
    assert_eq!(
        schema_for(parse(r#"{"title": 1, "properties": {}}"#)),
        parse(r#"{"properties": {}}"#)
    );
}

#[test]
fn a_file_is_read_by_lines() {
    let tool = FileReadTool::new();
    let content = "zero\none\r\ntwo\nthree\n";
    assert_eq!(tool.select(content, None, None), "zero\none\ntwo\nthree");
    assert_eq!(tool.select(content, Some(1), Some(2)), "one\ntwo");
    assert_eq!(tool.select(content, Some(3), None), "three");
    assert_eq!(tool.select(content, Some(4), None), "");
    assert_eq!(tool.select(content, Some(usize::MAX), Some(10)), "");
    assert_eq!(tool.select(content, None, Some(0)), "");
    assert_eq!(tool.select(content, None, Some(usize::MAX)), "zero\none\ntwo\nthree");
    assert_eq!(tool.select("", None, None), "");
    assert_eq!(tool.select("no end", None, None), "no end");
}

#[test]
fn reading_gives_back_what_was_written() {
    let tool = FileReadTool::new();
    for content in ["", "a", "a\nb", "\n\na", "a\n\nb \t"] {
        assert_eq!(tool.select(content, None, None), content);
    }
}

#[test]
fn pages_follow_each_other() {
    let tool = FileReadTool::new();
    let content = "a\nb\nc\nd\ne";
    let first = tool.select(content, Some(1), Some(2));
    let rest = tool.select(content, Some(3), None);
    assert_eq!(format!("{}\n{}", first, rest), tool.select(content, Some(1), None));
}

fn edit(wanted: &str, replacement: &str, all: Option<bool>) -> FileEditInput {
    FileEditInput {
        file_path: "/tmp/f".to_string(),
        old_string: wanted.to_string(),
        new_string: replacement.to_string(),
        replace_all: all,
    }
}

#[test]
fn an_edit_must_change_something() {
    let tool = FileEditTool::new();
    assert_eq!(tool.check(&edit("a", "b", None)), Ok(()));
    assert_eq!(
        tool.check(&edit("a", "a", None)).unwrap_err().message(),
        "old_string and new_string must be different"
    );
}

#[test]
fn an_edit_replaces_the_first_or_all() {
    let tool = FileEditTool::new();
    let applied = |content: &str, input: FileEditInput| {
        let edit = tool.apply(content, &input).ok().unwrap();
        (edit.content, edit.count)
    };
    assert_eq!(applied("aXbXc", edit("X", "--", None)), ("a--bXc".to_string(), 1));
    assert_eq!(applied("aXbXc", edit("X", "--", Some(false))), ("a--bXc".to_string(), 1));
    assert_eq!(applied("aXbXc", edit("X", "--", Some(true))), ("a--b--c".to_string(), 2));
    assert_eq!(applied("aaaa", edit("aa", "b", Some(true))), ("bb".to_string(), 2));
    assert_eq!(applied("aaa", edit("aa", "b", Some(true))), ("ba".to_string(), 1));
    assert_eq!(applied("ab", edit("", "-", Some(true))), ("-a-b-".to_string(), 3));
    assert_eq!(applied("ab", edit("", "-", None)), ("-ab".to_string(), 1));
    assert_eq!(applied("日本日", edit("日", "", Some(true))), ("本".to_string(), 2));
}

#[test]
fn an_edit_of_what_is_not_there_is_an_error() {
    let tool = FileEditTool::new();
    for all in [None, Some(true), Some(false)] {
        let e = tool.apply("abc", &edit("x", "y", all)).err().unwrap();
        assert_eq!(e, ToolError::Execution("old_string not found in file".to_string()));
    }
}

#[test]
fn edits_and_writes_are_reported() {
    assert_eq!(
        FileEditTool::new().report(12, "/tmp/f"),
        "replaced 12 occurrence(s) in /tmp/f"
    );
    let input = FileWriteInput { file_path: "/tmp/f".to_string(), content: "日本\n".to_string() };
    assert_eq!(FileWriteTool::new().report(&input), "wrote 7 bytes to /tmp/f");
}

#[test]
fn file_tools_have_names() {
    assert_eq!(FileReadTool::new().name(), "Read");
    assert_eq!(FileEditTool::new().name(), "Edit");
    assert_eq!(FileWriteTool::new().name(), "Write");
    assert!(FileReadTool::new().description().starts_with("Reads a text file"));
}

#[test]
fn a_lone_carriage_return_is_read_back() {
    let tool = FileReadTool::new();
    assert_eq!(tool.select("a\rb\nc\r", None, None), "a\rb\nc\r");
    assert_eq!(tool.select("a\r\nb\n", None, None), "a\nb");
}
