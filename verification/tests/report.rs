use mcpconfig::events::{
    final_answer, llm_request, run_completed, run_start, tool_call, tool_result, tools_registered,
    Event, LogEntry,
};
use mcpconfig::json::Json;
use mcpconfig::report::{can_compose, compose_events, compose_report, format_call};

fn lines(entries: Vec<LogEntry>) -> Vec<String> {
    entries
        .into_iter()
        .map(|e| Event { ts: "T".to_string(), kind: e.kind, data: e.data }.line().unwrap())
        .collect()
}

fn response(iteration: u32, reasoning: &str) -> LogEntry {
    LogEntry {
        kind: "llm_response".to_string(),
        data: Json::parse(&format!(
            r#"{{"iteration":{},"content":null,"tool_calls":[],"reasoning":"{}","usage":null}}"#,
            iteration, reasoning
        ))
        .unwrap(),
    }
}

fn start() -> LogEntry {
    run_start(
        "smoke",
        "gpt",
        "http://localhost",
        "find it",
        &vec!["hands".to_string()],
        &None,
        &None,
        false,
    )
}

#[test]
fn report_of_a_whole_run() {
    let log = lines(vec![
        start(),
        tools_registered(&vec!["go".to_string(), "see".to_string()]),
        llm_request(1, "gpt", 2),
        response(1, "think"),
        tool_call(1, "c1", "go", r#"{"x":1}"#),
        tool_result(1, "c1", true, "went"),
        tool_call(1, "c2", "see", "{}"),
        llm_request(2, "gpt", 4),
        response(2, ""),
        final_answer(2, "there"),
        run_completed(120, 45, 2),
    ]);
    let expected = "# Bakeoff: smoke — T\n\n\
        **Task:** find it\n\n\
        ---\n\n\
        ## Model: gpt\n\n\
        **Endpoint:** `http://localhost` · **Tools:** 2 registered\n\n\
        ### Final answer\n\n\
        there\n\n\
        ### Reasoning trace (2 iterations, 120 ms, 45 tokens)\n\n\
        #### Iteration 1\n\n\
        *Reasoning:* think\n\n\
        *Tool calls:*\n\
        - `go(\"{\\\"x\\\":1}\")` → `went`\n\
        - `see(\"{}\")` → `(no result)`\n\
        \n\
        #### Iteration 2\n\n\
        *Final answer.* there\n\n\
        ---\n";
    assert_eq!(compose_report(&log).unwrap(), expected);
}

#[test]
fn report_of_nothing() {
    let expected = "# Bakeoff: unknown — unknown\n\n\
        ---\n\n\
        ## Model: unknown\n\n\
        **Tools:** 0 registered\n\n\
        ### Final answer\n\n\
        (no answer)\n\n\
        ### Reasoning trace (0 iterations, 0 ms, 0 tokens)\n\n\
        ---\n";
    assert_eq!(compose_report(&vec![]).unwrap(), expected);
}

#[test]
fn unreadable_lines_are_skipped() {
    let mut log = lines(vec![start(), final_answer(1, "there")]);
    let whole = compose_report(&log).unwrap();
    log.push("{\"ts\":\"T\",\"kind\":\"run_e".to_string());
    log.insert(1, "no event".to_string());
    log.insert(0, String::new());
    assert_eq!(compose_report(&log).unwrap(), whole);
}

#[test]
fn long_texts_are_cut() {
    let log = lines(vec![
        response(1, &"r".repeat(501)),
        tool_call(1, "c1", "go", "{}"),
        tool_result(1, "c1", true, &"x".repeat(201)),
        response(2, &"r".repeat(500)),
    ]);
    let report = compose_report(&log).unwrap();
    assert!(report.contains(&format!("*Reasoning:* {}...\n", "r".repeat(500))));
    assert!(report.contains(&format!("*Reasoning:* {}\n", "r".repeat(500))));
    assert!(report.contains(&format!("→ `{}...`\n", "x".repeat(200))));
}

#[test]
fn texts_are_not_cut_inside_a_character() {
    let reasoning = format!("{}é!", "r".repeat(499));
    assert!(compose_report(&lines(vec![response(1, &reasoning)])).is_none());
    let result = format!("{}é!", "x".repeat(199));
    let log = lines(vec![
        tool_call(1, "c1", "go", "{}"),
        tool_result(1, "c1", true, &result),
    ]);
    assert!(compose_report(&log).is_none());
    let unrelated = lines(vec![
        tool_call(1, "c1", "go", "{}"),
        tool_result(1, "c2", true, &result),
    ]);
    assert!(compose_report(&unrelated).is_some());
}

#[test]
fn composed_events_read_missing_members_as_defaults() {
    let events = vec![
        Json::parse(r#"{"kind":"tool_call","iteration":1}"#).unwrap(),
        Json::parse(r#"{"kind":"tool_result","id":"","content":"empty id"}"#).unwrap(),
        Json::parse(r#"{"kind":"run_end","duration_ms":-5}"#).unwrap(),
        Json::parse("[1]").unwrap(),
    ];
    assert!(can_compose(&events));
    let report = compose_events(&events);
    assert!(report.contains("- `?(null)` → `empty id`\n"));
    assert!(report.contains("(1 iterations, 0 ms, 0 tokens)"));
}

#[test]
fn call_is_one_line() {
    assert_eq!(format_call("go", "{}", "ok"), "- `go({})` → `ok`\n");
}

#[test]
fn report_in_its_documented_form() {
    let log = vec![
        r#"{"ts":"T","kind":"run_start","task":"smoke","model":"m"}"#.to_string(),
        r#"{"kind":"tool_call","iteration":1,"id":"c1","name":"f","arguments":{}}"#.to_string(),
        r#"{"kind":"tool_result","iteration":1,"id":"c1","ok":true,"content":"ok"}"#.to_string(),
    ];
    let report = compose_report(&log).unwrap();
    let lines: Vec<&str> = report.lines().collect();
    assert_eq!(lines[0], "# Bakeoff: smoke — T");
    assert!(lines.contains(&"## Model: m"));
    assert!(lines.contains(&"- `f({})` → `ok`"));
}
