use mcpconfig::agent::ToolOutcome;
use mcpconfig::config::{ConfigError, DriverConfig, McpServerConfig, ModelConfig, Task};
use mcpconfig::mcp::{ContentPart, McpTool, ToolCallResult};
use mcpconfig::openai::{
    ChatCompletionResponse, Choice, FunctionCall, ResponseMessage, ToolCall,
};
use mcpconfig::run::{default_system_prompt, ConnectFailure, Run, RunAction, RunStep};
use mcpconfig::serve::{
    accept_run, closing_entry, health, listen_address, models, stream_message, AppState,
    RunRequest,
};

fn strings(texts: &[&str]) -> Vec<String> {
    texts.iter().map(|t| t.to_string()).collect()
}

fn server(name: &str) -> McpServerConfig {
    McpServerConfig {
        name: name.to_string(),
        command: format!("/bin/{}", name),
        args: vec![],
        env: vec![],
    }
}

fn config() -> DriverConfig {
    DriverConfig {
        mcp_servers: vec![server("hands"), server("local")],
        models: vec![ModelConfig {
            name: "gpt".to_string(),
            base_url: "http://localhost/v1".to_string(),
            model_id: "org/gpt".to_string(),
            api_key_env: None,
            strip_thinking_tags: false,
            system_prompt_strategy: "system_role".to_string(),
            max_tokens: 100,
            mcp_servers: strings(&["hands", "local"]),
            tool_filter: strings(&["read_*"]),
            tool_call_parser: Some("openai".to_string()),
            reasoning_parser: None,
            auto_tool_choice: true,
            system_prompt_files: vec![],
        }],
    }
}

fn task() -> Task {
    Task {
        name: "t".to_string(),
        model: "gpt".to_string(),
        mcp_servers: None,
        system_prompt: None,
        user_prompt: "p".to_string(),
        max_iterations: 3,
        tool_filter: None,
    }
}

fn tool(name: &str) -> McpTool {
    McpTool { name: name.to_string(), description: None, input_schema: serde_json::Value::Null }
}

fn reply(content: Option<&str>, calls: &[(&str, &str)]) -> ChatCompletionResponse {
    let tool_calls = calls
        .iter()
        .map(|(id, name)| ToolCall {
            id: id.to_string(),
            call_type: "function".to_string(),
            function: FunctionCall { name: name.to_string(), arguments: "{}".to_string() },
        })
        .collect();
    ChatCompletionResponse {
        choices: vec![Choice {
            message: ResponseMessage {
                content: content.map(|c| c.to_string()),
                reasoning_content: None,
                tool_calls: Some(tool_calls),
            },
        }],
        usage: None,
    }
}

fn kinds(step: &RunStep) -> Vec<String> {
    step.log.iter().map(|e| e.kind.clone()).collect()
}

#[test]
fn run_from_servers_to_answer() {
    let config = config();
    let task = task();
    let (mut run, step) = Run::begin(&config, &task, "default".to_string()).unwrap();
    assert_eq!(
        step.log[0].data.render(),
        r#"{"task":"t","model":"gpt","base_url":"http://localhost/v1","user_prompt":"p","mcp_servers":["hands","local"],"tool_call_parser":"openai","reasoning_parser":null,"auto_tool_choice":true}"#
    );
    assert_eq!(kinds(&step), strings(&["run_start"]));
    assert!(matches!(step.action, RunAction::Connect(s) if s.command == "/bin/hands"));

    let step = run.on_listing(Ok(vec![tool("read_file"), tool("write_file")]));
    assert!(step.log.is_empty());
    assert!(matches!(step.action, RunAction::Connect(s) if s.name == "local"));

    let step = run.on_listing(Ok(vec![tool("read_file")]));
    assert_eq!(run.tool_count(), 2);
    assert_eq!(kinds(&step), strings(&["tools_registered", "llm_request"]));
    match step.action {
        RunAction::Chat(request) => {
            assert_eq!(request.messages[0].content.as_deref(), Some("default"));
            let mut names: Vec<String> =
                request.tools.unwrap().into_iter().map(|t| t.function.name).collect();
            names.sort();
            assert_eq!(names, strings(&["hands__read_file", "local__read_file"]));
        }
        other => panic!("{:?}", other),
    }

    let asked = reply(None, &[("c1", "nobody"), ("c2", "local__read_file"), ("c3", "none")]);
    let step = run.on_reply(Ok(asked), 1);
    assert_eq!(kinds(&step), strings(&["llm_response", "tool_call", "tool_result", "tool_call"]));
    assert_eq!(
        step.log[2].data.render(),
        r#"{"iteration":1,"id":"c1","ok":false,"content":"Error: unknown tool: nobody"}"#
    );
    match step.action {
        RunAction::CallTool(call) => {
            assert_eq!(call.server, "local");
            assert_eq!(call.tool, "read_file");
            assert_eq!(call.arguments.render(), "{}");
        }
        other => panic!("{:?}", other),
    }

    let answered = ToolOutcome::Answered(ToolCallResult {
        content: vec![ContentPart::Text("data".to_string())],
        is_error: false,
    });
    let step = run.on_result(answered);
    assert_eq!(
        kinds(&step),
        strings(&["tool_result", "tool_call", "tool_result", "llm_request"])
    );
    assert!(matches!(step.action, RunAction::Chat(_)));

    let step = run.on_reply(Ok(reply(Some("yes"), &[])), 9);
    assert_eq!(kinds(&step), strings(&["llm_response", "final_answer", "run_end"]));
    assert_eq!(
        step.log[2].data.render(),
        r#"{"ok":true,"duration_ms":9,"total_tokens":0,"iterations":2}"#
    );
    match step.action {
        RunAction::Close(Ok(result)) => assert_eq!(result.final_answer, "yes"),
        other => panic!("{:?}", other),
    }
    let mut servers = run.close();
    servers.sort();
    assert_eq!(servers, strings(&["hands", "local"]));
}

#[test]
fn task_overrides_the_model() {
    let config = config();
    let mut task = task();
    task.mcp_servers = Some(strings(&["local"]));
    task.tool_filter = Some(vec![]);
    task.system_prompt = Some("mine".to_string());
    let (mut run, step) = Run::begin(&config, &task, "default".to_string()).unwrap();
    assert!(matches!(step.action, RunAction::Connect(s) if s.name == "local"));
    let step = run.on_listing(Ok(vec![tool("write_file")]));
    match step.action {
        RunAction::Chat(request) => {
            assert_eq!(request.messages[0].content.as_deref(), Some("mine"));
            assert_eq!(request.tools.unwrap().len(), 1);
        }
        other => panic!("{:?}", other),
    }
}

#[test]
fn run_without_servers_starts_at_once() {
    let config = config();
    let mut task = task();
    task.mcp_servers = Some(vec![]);
    let (_, step) = Run::begin(&config, &task, String::new()).unwrap();
    assert_eq!(kinds(&step), strings(&["run_start", "tools_registered", "llm_request"]));
}

#[test]
fn unknown_model_and_server_are_refused() {
    let config = config();
    let mut task = task();
    task.mcp_servers = Some(strings(&["nowhere"]));
    let (_, step) = Run::begin(&config, &task, String::new()).unwrap();
    match step.action {
        RunAction::Abort(error) => assert_eq!(error, "MCP server 'nowhere' not found in config"),
        other => panic!("{:?}", other),
    }
    task.model = "other".to_string();
    let error = Run::begin(&config, &task, String::new()).unwrap_err();
    assert!(matches!(&error, ConfigError::UnknownModel(name) if name == "other"));
    assert_eq!(error.message(), "model 'other' not found in config");
}

#[test]
fn first_entry_of_a_name_is_found() {
    let mut config = config();
    config.mcp_servers.push(McpServerConfig { command: "second".to_string(), ..server("hands") });
    assert_eq!(config.find_server("hands").unwrap().command, "/bin/hands");
    assert!(config.find_server("x").is_err());
    assert_eq!(config.find_model("gpt").unwrap().model_id, "org/gpt");
}

#[test]
fn failed_connections_end_the_run() {
    let config = config();
    let task = task();
    let failures = [
        (ConnectFailure::Spawn("no such file".to_string()), "no such file"),
        (ConnectFailure::Initialize, "MCP initialize handshake with 'hands'"),
        (ConnectFailure::ListTools, "tools/list from 'hands'"),
    ];
    for (failure, message) in failures {
        let (mut run, _) = Run::begin(&config, &task, String::new()).unwrap();
        let step = run.on_listing(Err(failure));
        assert!(step.log.is_empty());
        assert!(matches!(step.action, RunAction::Abort(error) if error == message));
    }
}

#[test]
fn failed_chat_ends_the_run() {
    let config = config();
    let mut task = task();
    task.mcp_servers = Some(vec![]);
    let (mut run, _) = Run::begin(&config, &task, String::new()).unwrap();
    let step = run.on_reply(Err("refused".to_string()), 1);
    assert_eq!(step.log[0].data.render(), r#"{"ok":false,"error":"refused"}"#);
    assert!(matches!(step.action, RunAction::Close(Err(error)) if error == "refused"));
}

#[test]
fn failed_loop_is_told_at_the_end() {
    let config = config();
    let mut task = task();
    task.mcp_servers = Some(vec![]);
    task.max_iterations = 0;
    let (run, step) = Run::begin(&config, &task, String::new()).unwrap();
    assert_eq!(kinds(&step), strings(&["run_start", "tools_registered", "run_end"]));
    assert!(
        matches!(step.action, RunAction::Close(Err(error)) if error == "max iterations (0) exceeded")
    );
    assert!(run.close().is_empty());
}

#[test]
fn default_prompt_comes_from_its_file() {
    assert_eq!(default_system_prompt(Some("file".to_string())), "file");
    assert!(default_system_prompt(None).starts_with("You are an agent with access to browser"));
}

#[test]
fn health_lists_the_servers() {
    let state = AppState { config: config() };
    assert_eq!(
        health(&state).render(),
        r#"{"status":"ok","models_configured":1,"mcp_servers":[{"name":"hands","command":"/bin/hands","alive_check":"not_implemented_yet"},{"name":"local","command":"/bin/local","alive_check":"not_implemented_yet"}]}"#
    );
}

#[test]
fn models_are_listed() {
    let state = AppState { config: config() };
    assert_eq!(
        models(&state).render(),
        r#"[{"name":"gpt","model_id":"org/gpt","base_url":"http://localhost/v1","mcp_servers":["hands","local"],"tool_call_parser":"openai","reasoning_parser":null}]"#
    );
}

#[test]
fn request_names_the_model() {
    let state = AppState { config: config() };
    let mut other = task();
    other.model = "elsewhere".to_string();
    let accepted = accept_run(&state, RunRequest { task: other, model: "gpt".to_string() });
    assert_eq!(accepted.unwrap().model, "gpt");
}

#[test]
fn request_for_an_unknown_model_is_refused() {
    let state = AppState { config: config() };
    let refusal =
        accept_run(&state, RunRequest { task: task(), model: "none".to_string() }).unwrap_err();
    assert_eq!(refusal.status, 400);
    assert_eq!(refusal.body.render(), r#"{"error":"model 'none' not found in config"}"#);
}

#[test]
fn failed_run_closes_its_stream_with_an_error() {
    let entry = closing_entry(&Err("broken".to_string())).unwrap();
    let event = mcpconfig::clock::UtcTime::new(0, 0).unwrap().event(entry);
    let message = stream_message(&event);
    assert_eq!(message.event, "error");
    assert_eq!(
        message.data,
        r#"{"ts":"1970-01-01T00:00:00+00:00","kind":"error","error":"broken"}"#
    );
}

#[test]
fn address_is_host_and_port() {
    assert_eq!(listen_address("0.0.0.0", 8003), "0.0.0.0:8003");
    assert_eq!(listen_address("h", 0), "h:0");
}

#[test]
fn listing_is_not_taken_with_a_filter_that_is_too_large() {
    let config = config();
    let mut task = task();
    task.tool_filter = Some(vec!["y".to_string(), "a".repeat(325_001)]);
    let (mut run, _) = Run::begin(&config, &task, String::new()).unwrap();
    assert!(run.take_listing(Ok(vec![tool("x")])).is_none());
    let step = run.take_listing(Ok(vec![tool("y")])).unwrap();
    assert!(matches!(step.action, RunAction::Connect(s) if s.name == "local"));
    let step = run.take_listing(Err(ConnectFailure::ListTools)).unwrap();
    assert!(matches!(step.action, RunAction::Abort(e) if e == "tools/list from 'local'"));
}

#[test]
fn failure_to_log_ends_the_loop() {
    let config = config();
    let mut task = task();
    let (mut run, _) = Run::begin(&config, &task, String::new()).unwrap();
    let step = run.on_log_failure("run_start", "disk full".to_string());
    assert!(step.log.is_empty());
    assert!(matches!(step.action, RunAction::Abort(e) if e == "disk full"));

    task.mcp_servers = Some(vec![]);
    let (mut run, _) = Run::begin(&config, &task, String::new()).unwrap();
    let step = run.on_log_failure("llm_request", "disk full".to_string());
    assert_eq!(step.log[0].data.render(), r#"{"ok":false,"error":"disk full"}"#);
    assert!(matches!(step.action, RunAction::Close(Err(e)) if e == "disk full"));
    for kind in ["run_start", "run_end"] {
        let step = run.on_log_failure(kind, "disk full".to_string());
        assert!(step.log.is_empty());
        assert!(matches!(step.action, RunAction::Abort(_)));
    }
}

#[test]
fn collisions_of_a_run_are_noted() {
    let config = config();
    let task = task();
    let (mut run, _) = Run::begin(&config, &task, String::new()).unwrap();
    run.on_listing(Ok(vec![tool("read_file")]));
    assert!(run.collisions().is_empty());
    run.on_listing(Ok(vec![tool("read_file")]));
    assert_eq!(run.collisions()[0].existing, "hands__read_file");
    assert_eq!(run.collisions()[0].added, "local__read_file");
}
