use mcpconfig::agent::{
    can_add_usage, parse_arguments, Agent, AgentAction, AgentError, AgentStep, Phase, ToolOutcome,
};
use mcpconfig::config::{ModelConfig, Task};
use mcpconfig::mcp::{ContentPart, ToolCallResult};
use mcpconfig::openai::{
    ChatCompletionRequest, ChatCompletionResponse, Choice, FunctionCall, OpenAIFunction,
    OpenAITool, ResponseMessage, ToolCall, Usage,
};
use mcpconfig::thinking::strip_thinking_tags;

fn model(strategy: &str, strip: bool) -> ModelConfig {
    ModelConfig {
        name: "m".to_string(),
        base_url: "http://localhost:8000/v1".to_string(),
        model_id: "org/m".to_string(),
        api_key_env: None,
        strip_thinking_tags: strip,
        system_prompt_strategy: strategy.to_string(),
        max_tokens: 4096,
        mcp_servers: vec![],
        tool_filter: vec![],
        tool_call_parser: None,
        reasoning_parser: None,
        auto_tool_choice: false,
        system_prompt_files: vec![],
    }
}

fn task(max_iterations: u32) -> Task {
    Task {
        name: "t".to_string(),
        model: "m".to_string(),
        mcp_servers: None,
        system_prompt: None,
        user_prompt: "find it".to_string(),
        max_iterations,
        tool_filter: None,
    }
}

fn tool(name: &str) -> OpenAITool {
    OpenAITool {
        tool_type: "function".to_string(),
        function: OpenAIFunction {
            name: name.to_string(),
            description: String::new(),
            parameters: serde_json::Value::Null,
        },
    }
}

fn call(id: &str, name: &str, arguments: &str) -> ToolCall {
    ToolCall {
        id: id.to_string(),
        call_type: "function".to_string(),
        function: FunctionCall { name: name.to_string(), arguments: arguments.to_string() },
    }
}

fn reply(
    content: Option<&str>,
    reasoning: Option<&str>,
    calls: Vec<ToolCall>,
    tokens: u32,
) -> ChatCompletionResponse {
    ChatCompletionResponse {
        choices: vec![Choice {
            message: ResponseMessage {
                content: content.map(|c| c.to_string()),
                reasoning_content: reasoning.map(|r| r.to_string()),
                tool_calls: Some(calls),
            },
        }],
        usage: Some(Usage {
            prompt_tokens: tokens,
            completion_tokens: 1,
            total_tokens: tokens + 1,
        }),
    }
}

fn logged(step: &AgentStep) -> Vec<String> {
    step.log.iter().map(|e| format!("{} {}", e.kind, e.data.render())).collect()
}

fn request(step: AgentStep) -> ChatCompletionRequest {
    match step.action {
        AgentAction::Chat(request) => request,
        other => panic!("{:?}", other),
    }
}

fn text_result(text: &str, is_error: bool) -> ToolOutcome {
    ToolOutcome::Answered(ToolCallResult {
        content: vec![ContentPart::Text(text.to_string())],
        is_error,
    })
}

#[test]
fn loop_from_tool_call_to_answer() {
    let (mut agent, step) =
        Agent::start(&task(6), &model("system_role", false), vec![tool("go")], "sys");
    assert_eq!(
        logged(&step),
        vec![
            r#"tools_registered {"count":1,"names":["go"]}"#,
            r#"llm_request {"iteration":1,"model":"org/m","message_count":2}"#,
        ]
    );
    let first = request(step);
    assert_eq!(first.model, "org/m");
    assert_eq!(first.max_tokens, Some(4096));
    assert_eq!(first.tool_choice.as_deref(), Some("auto"));
    assert_eq!(first.tools.unwrap()[0].function.name, "go");
    assert!(!first.stream);
    assert_eq!(first.messages[0].role, "system");
    assert_eq!(first.messages[0].content.as_deref(), Some("sys"));
    assert_eq!(first.messages[1].role, "user");
    assert_eq!(first.messages[1].content.as_deref(), Some("find it"));

    let asked = reply(
        Some("let me see"),
        Some("hidden"),
        vec![call("c1", "go", r#"{"x":1}"#), call("c2", "go", "oops")],
        10,
    );
    let step = agent.on_reply(asked, 5);
    assert_eq!(
        logged(&step),
        vec![
            r#"llm_response {"iteration":1,"content":"let me see","tool_calls":[{"id":"c1","type":"function","function":{"name":"go","arguments":"{\"x\":1}"}},{"id":"c2","type":"function","function":{"name":"go","arguments":"oops"}}],"reasoning":"hidden","usage":{"prompt_tokens":10,"completion_tokens":1,"total_tokens":11}}"#,
            r#"tool_call {"iteration":1,"id":"c1","name":"go","arguments":"{\"x\":1}"}"#,
        ]
    );
    match step.action {
        AgentAction::CallTool(call) => {
            assert_eq!(call.name, "go");
            assert_eq!(call.arguments.render(), r#"{"x":1}"#);
        }
        other => panic!("{:?}", other),
    }
    assert_eq!(agent.phase(), Phase::Tool);

    let step = agent.on_tool_outcome(text_result("done", false));
    assert_eq!(
        logged(&step),
        vec![
            r#"tool_result {"iteration":1,"id":"c1","ok":true,"content":"done"}"#,
            r#"tool_call {"iteration":1,"id":"c2","name":"go","arguments":"oops"}"#,
        ]
    );
    match step.action {
        AgentAction::CallTool(call) => assert_eq!(call.arguments.render(), "{}"),
        other => panic!("{:?}", other),
    }

    let step = agent.on_tool_outcome(ToolOutcome::Failed("broken".to_string()));
    assert_eq!(
        logged(&step),
        vec![
            r#"tool_result {"iteration":1,"id":"c2","ok":false,"content":"Error: broken"}"#,
            r#"llm_request {"iteration":2,"model":"org/m","message_count":5}"#,
        ]
    );
    let second = request(step);
    let roles: Vec<&str> = second.messages.iter().map(|m| m.role.as_str()).collect();
    assert_eq!(roles, vec!["system", "user", "assistant", "tool", "tool"]);
    assert_eq!(second.messages[2].content.as_deref(), Some("let me see"));
    assert_eq!(second.messages[2].tool_calls.as_ref().unwrap().len(), 2);
    assert_eq!(second.messages[3].tool_call_id.as_deref(), Some("c1"));
    assert_eq!(second.messages[3].content.as_deref(), Some("done"));
    assert_eq!(second.messages[4].tool_call_id.as_deref(), Some("c2"));

    let step = agent.on_reply(reply(Some("it is there"), None, vec![], 20), 77);
    assert_eq!(
        logged(&step),
        vec![
            r#"llm_response {"iteration":2,"content":"it is there","tool_calls":[],"reasoning":null,"usage":{"prompt_tokens":20,"completion_tokens":1,"total_tokens":21}}"#,
            r#"final_answer {"iteration":2,"content":"it is there"}"#,
        ]
    );
    match step.action {
        AgentAction::Finish(result) => {
            assert_eq!(result.final_answer, "it is there");
            assert_eq!(result.iterations, 2);
            assert_eq!(result.duration_ms, 77);
            assert_eq!(result.total_usage.prompt_tokens, 30);
            assert_eq!(result.total_usage.completion_tokens, 2);
            assert_eq!(result.total_usage.total_tokens, 32);
        }
        other => panic!("{:?}", other),
    }
    assert_eq!(agent.phase(), Phase::Done);
}

#[test]
fn prompts_can_share_the_first_user_turn() {
    let (_, step) = Agent::start(&task(1), &model("first_user_turn", false), vec![], "sys");
    let request = request(step);
    assert_eq!(request.messages.len(), 1);
    assert_eq!(request.messages[0].role, "user");
    assert_eq!(request.messages[0].content.as_deref(), Some("sys\n\nfind it"));
    assert!(request.tools.is_none());
    assert!(request.tool_choice.is_none());
}

#[test]
fn no_request_is_made_where_none_is_allowed() {
    let (_, step) = Agent::start(&task(0), &model("system_role", false), vec![], "sys");
    match step.action {
        AgentAction::Fail(error) => {
            assert_eq!(error, AgentError::TooManyIterations(0));
            assert_eq!(error.message(), "max iterations (0) exceeded");
        }
        other => panic!("{:?}", other),
    }
    assert_eq!(step.log.len(), 1);
}

#[test]
fn loop_stops_after_the_allowed_requests() {
    let (mut agent, _) =
        Agent::start(&task(1), &model("system_role", false), vec![tool("go")], "sys");
    agent.on_reply(reply(None, None, vec![call("c", "go", "{}")], 1), 1);
    let step = agent.on_tool_outcome(text_result("x", true));
    assert_eq!(
        logged(&step),
        vec![r#"tool_result {"iteration":1,"id":"c","ok":false,"content":"x"}"#]
    );
    match step.action {
        AgentAction::Fail(error) => assert_eq!(error.message(), "max iterations (1) exceeded"),
        other => panic!("{:?}", other),
    }
}

#[test]
fn reply_without_choices_fails_after_its_tokens_are_counted() {
    let (mut agent, _) = Agent::start(&task(2), &model("system_role", false), vec![], "sys");
    let empty = ChatCompletionResponse {
        choices: vec![],
        usage: Some(Usage { prompt_tokens: 3, completion_tokens: 0, total_tokens: 3 }),
    };
    let step = agent.on_reply(empty, 1);
    assert!(step.log.is_empty());
    match step.action {
        AgentAction::Fail(error) => {
            assert_eq!(error, AgentError::NoChoices);
            assert_eq!(error.message(), "no choices in LLM response");
        }
        other => panic!("{:?}", other),
    }
    assert_eq!(agent.total_usage().total_tokens, 3);
}

fn answer(strip: bool, content: &str, reasoning: Option<&str>) -> String {
    let (mut agent, _) = Agent::start(&task(2), &model("system_role", strip), vec![], "sys");
    let step = agent.on_reply(reply(Some(content), reasoning, vec![], 1), 1);
    match step.action {
        AgentAction::Finish(result) => result.final_answer,
        other => panic!("{:?}", other),
    }
}

#[test]
fn reasoning_is_stripped_where_it_is_not_given_apart() {
    let content = "<|channel|>analysis thinking<|end|>42";
    assert_eq!(answer(true, content, None), "42");
    assert_eq!(answer(true, content, Some("thinking")), content);
    assert_eq!(answer(false, content, None), content);
}

#[test]
fn answer_without_content_is_empty() {
    let (mut agent, _) = Agent::start(&task(2), &model("system_role", true), vec![], "sys");
    let mut response = reply(None, None, vec![], 1);
    response.choices[0].message.tool_calls = None;
    response.usage = None;
    let step = agent.on_reply(response, 1);
    assert_eq!(
        logged(&step),
        vec![
            r#"llm_response {"iteration":1,"content":null,"tool_calls":[],"reasoning":null,"usage":null}"#,
            r#"final_answer {"iteration":1,"content":""}"#,
        ]
    );
}

#[test]
fn blocks_of_reasoning_are_removed() {
    assert_eq!(strip_thinking_tags("plain"), "plain");
    assert_eq!(strip_thinking_tags("<|channel|>analysis all of it<|end|>"), "");
    assert_eq!(
        strip_thinking_tags("a<|channel|>analysis 1<|end|>b<|channel|>analysis\n2<|end|>c"),
        "abc"
    );
    assert_eq!(strip_thinking_tags("a<|channel|>analysis open"), "a<|channel|>analysis open");
    assert_eq!(strip_thinking_tags("<|channel|>final<|end|>x"), "<|channel|>final<|end|>x");
    assert_eq!(strip_thinking_tags("<|end|>"), "<|end|>");
}

#[test]
fn arguments_that_are_no_json_are_none() {
    assert_eq!(parse_arguments(r#"{"a":[1]}"#).render(), r#"{"a":[1]}"#);
    assert_eq!(parse_arguments("").render(), "{}");
    assert_eq!(parse_arguments("[1]").render(), "[1]");
}

#[test]
fn token_counts_must_fit() {
    let total = Usage { prompt_tokens: u32::MAX, completion_tokens: 0, total_tokens: 0 };
    let one = Usage { prompt_tokens: 1, completion_tokens: 0, total_tokens: 0 };
    let none = Usage { prompt_tokens: 0, completion_tokens: 5, total_tokens: 5 };
    assert!(!can_add_usage(&total, &Some(one)));
    assert!(can_add_usage(&total, &Some(none)));
    assert!(can_add_usage(&total, &None));
}

#[test]
fn model_name_does_not_matter() {
    let mut other = model("system_role", false);
    other.name = "another".to_string();
    other.base_url = "http://elsewhere".to_string();
    let (_, one) = Agent::start(&task(2), &model("system_role", false), vec![tool("go")], "sys");
    let (_, two) = Agent::start(&task(2), &other, vec![tool("go")], "sys");
    assert_eq!(format!("{:?}", one), format!("{:?}", two));
}

#[test]
fn reasoning_does_not_reach_the_next_request() {
    let next = |reasoning: Option<&str>| {
        let (mut agent, _) =
            Agent::start(&task(3), &model("system_role", false), vec![tool("go")], "sys");
        agent.on_reply(reply(Some("x"), reasoning, vec![call("c", "go", "{}")], 1), 1);
        format!("{:?}", request(agent.on_tool_outcome(text_result("ok", false))).messages)
    };
    assert_eq!(next(Some("secret thoughts")), next(None));
}
