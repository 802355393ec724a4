use mcpconfig::mcp::McpTool;
use mcpconfig::tools::{mcp_tool_to_openai, tool_line};

fn value(text: &str) -> serde_json::Value {
    serde_json::from_str(text).unwrap()
}

#[test]
fn test_mcp_to_openai_conversion() {
    let mcp_tool = McpTool {
        name: "browser_navigate".to_string(),
        description: Some("Navigate the browser to a URL".to_string()),
        input_schema: value(
            r#"{
                "type": "object",
                "properties": {
                    "url": { "type": "string", "description": "URL to navigate to" },
                    "wait_until": { "type": "string", "enum": ["load", "domcontentloaded", "networkidle"] }
                },
                "required": ["url"]
            }"#,
        ),
    };

    let openai_tool = mcp_tool_to_openai("browser_navigate", &mcp_tool);

    assert_eq!(openai_tool.tool_type, "function");
    assert_eq!(openai_tool.function.name, "browser_navigate");
    assert_eq!(
        openai_tool.function.description,
        "Navigate the browser to a URL"
    );
    assert_eq!(openai_tool.function.parameters, mcp_tool.input_schema);
}

#[test]
fn test_mcp_to_openai_missing_description() {
    let mcp_tool = McpTool {
        name: "some_tool".to_string(),
        description: None,
        input_schema: value(r#"{"type": "object"}"#),
    };

    let openai_tool = mcp_tool_to_openai("some_tool", &mcp_tool);
    assert_eq!(openai_tool.function.description, "");
}

#[test]
fn test_namespaced_conversion() {
    let mcp_tool = McpTool {
        name: "read_file".to_string(),
        description: Some("Read a file".to_string()),
        input_schema: value(r#"{"type": "object", "properties": {"path": {"type": "string"}}}"#),
    };

    let openai_tool = mcp_tool_to_openai("hands__read_file", &mcp_tool);
    assert_eq!(openai_tool.function.name, "hands__read_file");
    assert_eq!(openai_tool.function.description, "Read a file");
}

#[test]
fn schema_members_keep_their_order() {
    let schema = r#"{"type":"object","properties":{"z":{"type":"string"},"a":{"type":"integer"}}}"#;
    let tool = McpTool {
        name: "t".to_string(),
        description: None,
        input_schema: value(schema),
    };
    let converted = mcp_tool_to_openai("t", &tool);
    assert_eq!(converted.function.parameters.to_string(), schema);
}

#[test]
fn listing_lines_are_cut_at_eighty_bytes() {
    let mut tool = McpTool {
        name: "t".to_string(),
        description: Some("x".repeat(80)),
        input_schema: value("{}"),
    };
    assert_eq!(tool_line(&tool).unwrap(), format!("  t - {}", "x".repeat(80)));
    tool.description = Some("x".repeat(81));
    assert_eq!(tool_line(&tool).unwrap(), format!("  t - {}...", "x".repeat(80)));
    tool.description = None;
    assert_eq!(tool_line(&tool).unwrap(), "  t - (no description)");
}

#[test]
fn listing_line_is_not_cut_inside_a_character() {
    let tool = McpTool {
        name: "t".to_string(),
        description: Some(format!("{}é!", "x".repeat(79))),
        input_schema: value("{}"),
    };
    assert!(tool_line(&tool).is_none());
}
