use mcpconfig::filter::{admits, can_decide, can_select, keep_flagged, select_tools};
use mcpconfig::globs::is_compilable;
use mcpconfig::mcp::{ContentPart, McpTool, ToolCallResult};
use mcpconfig::registry::{DispatchError, ToolRegistry};

fn make_tool(name: &str) -> McpTool {
    McpTool {
        name: name.to_string(),
        description: Some(format!("Tool: {}", name)),
        input_schema: serde_json::from_str(r#"{"type": "object"}"#).unwrap(),
    }
}

fn strings(texts: &[&str]) -> Vec<String> {
    texts.iter().map(|t| t.to_string()).collect()
}

#[test]
fn test_no_collision() {
    let mut registry = ToolRegistry::new();

    let tools_a = vec![make_tool("browser_navigate"), make_tool("browser_click")];
    let tools_b = vec![make_tool("read_file"), make_tool("write_file")];

    registry.register_tools("hands".to_string(), tools_a);
    registry.register_tools("local".to_string(), tools_b);

    assert_eq!(registry.tool_count(), 4);
    let openai_tools = registry.to_openai_tools();
    assert_eq!(openai_tools.len(), 4);
}

#[test]
fn test_namespace_collision() {
    let mut registry = ToolRegistry::new();

    let hands_tools = vec![make_tool("read_file"), make_tool("browser_navigate")];
    registry.register_tools("hands".to_string(), hands_tools);

    let local_tools = vec![make_tool("read_file"), make_tool("run_command")];
    registry.register_tools("local".to_string(), local_tools);

    assert_eq!(registry.tool_count(), 4);

    let names = registry.tool_names();
    assert!(names.contains(&"hands__read_file".to_string()));
    assert!(names.contains(&"local__read_file".to_string()));
    assert!(names.contains(&"browser_navigate".to_string()));
    assert!(names.contains(&"run_command".to_string()));
    assert!(!names.contains(&"read_file".to_string()));
}

#[test]
fn test_glob_filter() {
    let tools = vec![
        make_tool("browser_navigate"),
        make_tool("browser_click"),
        make_tool("read_file"),
        make_tool("vision_analyze"),
    ];

    let filter = vec!["browser_*".to_string()];
    let filtered: Vec<McpTool> = select_tools(tools, &filter);

    assert_eq!(filtered.len(), 2);
    assert_eq!(filtered[0].name, "browser_navigate");
    assert_eq!(filtered[1].name, "browser_click");
}

#[test]
fn empty_filter_lets_everything_through() {
    let kept = select_tools(vec![make_tool("a"), make_tool("b")], &Vec::new());
    assert_eq!(kept.len(), 2);
}

#[test]
fn invalid_pattern_matches_nothing() {
    let kept = select_tools(vec![make_tool("a"), make_tool("[")], &strings(&["["]));
    assert_eq!(kept.len(), 0);
}

#[test]
fn star_matches_a_slash() {
    let kept = select_tools(vec![make_tool("files/read"), make_tool("other")], &strings(&["files*"]));
    assert_eq!(kept.len(), 1);
    assert_eq!(kept[0].name, "files/read");
}

fn nested(depth: usize) -> String {
    format!("{}a{}", "{".repeat(depth), "}".repeat(depth))
}

#[test]
fn large_patterns_are_told_apart() {
    assert!(is_compilable("browser_*"));
    assert!(is_compilable("{a,b}"));
    assert!(is_compilable(&"a".repeat(325_000)));
    assert!(!is_compilable(&"a".repeat(325_001)));
    assert!(is_compilable(&"*".repeat(65_000)));
    assert!(!is_compilable(&"*".repeat(65_001)));
    assert!(is_compilable(&format!("{{{}}}", "😀".repeat(32_499))));
    assert!(!is_compilable(&format!("{{{}}}", "😀".repeat(32_500))));
    assert!(is_compilable(&nested(249)));
    assert!(!is_compilable(&nested(250)));
    let forked = |depth: usize| format!("{}a{}", "{a,".repeat(depth), "}".repeat(depth));
    assert!(is_compilable(&forked(124)));
    assert!(!is_compilable(&forked(125)));
    let padded = |depth: usize| format!("{}a{}", "{,".repeat(depth), "}".repeat(depth));
    assert!(is_compilable(&padded(249)));
    assert!(!is_compilable(&padded(250)));
    assert!(is_compilable(&"{a}".repeat(500)));
    assert!(is_compilable(&"{[}],b}".repeat(500)));
    assert!(is_compilable(&format!("{}{}", "{[]}]".repeat(124), "}".repeat(124))));
    assert!(!is_compilable(&format!("{}{}", "{[]}]".repeat(125), "}".repeat(125))));
    assert!(is_compilable(&format!("\\{}", nested(80))));
    assert!(!is_compilable(&format!("\\{}", nested(81))));
}

#[test]
fn largest_patterns_compile() {
    for (unit, count) in [
        ("a", 325_000),
        ("é", 162_500),
        ("😀", 81_250),
        ("?", 130_000),
        ("*", 65_000),
        ("[!a]", 59_090),
        ("**/", 29_545),
        ("{a,b}", 26_000),
        ("{*,?}", 18_571),
        ("{é,ß}", 18_571),
        ("{ab,bc}", 18_571),
    ] {
        let pattern: String = unit.repeat(count);
        assert!(is_compilable(&pattern), "{}", unit);
        let kept = select_tools(vec![make_tool("a")], &vec![pattern]);
        assert!(kept.len() <= 1);
    }
}

#[test]
fn largest_alternations_compile() {
    for unit in ["ab", "?", "*", "**/", "/**/", "é", "[a]"] {
        let mut count = 10_400_000 / 80 / (unit.len() + 1);
        let pattern = |count: usize| format!("{{{}}}", vec![unit; count].join(","));
        while !is_compilable(&pattern(count)) {
            count = count * 9 / 10;
        }
        let kept = select_tools(vec![make_tool("zz")], &vec![pattern(count)]);
        assert!(kept.len() <= 1);
    }
    let words: Vec<String> = (0..20_000).map(|n| format!("{:04x}", n)).collect();
    let pattern = format!("{{{}}}", words.join(","));
    assert!(is_compilable(&pattern));
    let kept = select_tools(vec![make_tool("12ab"), make_tool("fffe")], &vec![pattern]);
    assert_eq!(kept.len(), 1);
    assert_eq!(kept[0].name, "12ab");
}

#[test]
fn deepest_patterns_compile() {
    for (level, core, depth) in [
        ("{", "a", 249),
        ("{a,", "a", 124),
        ("{,", "a", 249),
        ("{a,b", "**/[!a]?*", 81),
        ("{*,[a]?", "**", 81),
        ("{a,é", "[^b-]", 82),
        ("{a,", "{**/}", 121),
    ] {
        let pattern = format!("{}{}{}", level.repeat(depth), core, "}".repeat(depth));
        assert!(is_compilable(&pattern), "{} {}", level, core);
        let kept = select_tools(vec![make_tool("a")], &vec![pattern]);
        assert_eq!(kept.len(), 1, "{} {}", level, core);
    }
}

#[test]
fn literal_pattern_of_any_ordinary_length_matches_itself() {
    for length in [10_000, 10_001, 100_000] {
        let name = "a".repeat(length);
        let kept = select_tools(vec![make_tool(&name), make_tool("a")], &vec![name.clone()]);
        assert_eq!(kept.len(), 1);
        assert_eq!(kept[0].name, name);
    }
}

#[test]
fn patterns_behind_a_match_are_not_asked() {
    let filter = vec!["a*".to_string(), "x".repeat(400_000)];
    assert!(can_decide(&filter, "ab"));
    assert!(!can_decide(&filter, "b"));
    let tools = || vec![make_tool("a"), make_tool("abc")];
    assert!(can_select(&tools(), &filter));
    assert_eq!(select_tools(tools(), &filter).len(), 2);
    assert!(!can_select(&vec![make_tool("a"), make_tool("b")], &filter));
    assert!(can_select(&vec![], &filter));
}

#[test]
fn match_counts_beside_a_pattern_with_a_backslash() {
    let filter = strings(&["x\\y", "read_*"]);
    let kept = select_tools(vec![make_tool("read_file"), make_tool("write")], &filter);
    assert_eq!(kept.len(), 1);
    assert_eq!(kept[0].name, "read_file");
}

#[test]
fn filter_applies_when_a_server_is_added() {
    let mut registry = ToolRegistry::new();
    registry.add_server(
        "hands".to_string(),
        vec![make_tool("browser_click"), make_tool("read_file")],
        &strings(&["browser_*"]),
    );
    assert_eq!(registry.tool_names(), strings(&["browser_click"]));
}

#[test]
fn calls_reach_the_owner_under_the_original_name() {
    let mut registry = ToolRegistry::new();
    registry.register_tools("hands".to_string(), vec![make_tool("read_file"), make_tool("click")]);
    registry.register_tools("local".to_string(), vec![make_tool("read_file")]);

    let route = registry.dispatch("hands__read_file").unwrap();
    assert_eq!((route.server.as_str(), route.tool.as_str()), ("hands", "read_file"));
    let route = registry.dispatch("local__read_file").unwrap();
    assert_eq!((route.server.as_str(), route.tool.as_str()), ("local", "read_file"));
    let route = registry.dispatch("click").unwrap();
    assert_eq!((route.server.as_str(), route.tool.as_str()), ("hands", "click"));
}

#[test]
fn unknown_tool_goes_nowhere() {
    let mut registry = ToolRegistry::new();
    registry.register_tools("hands".to_string(), vec![make_tool("click")]);
    let error = registry.dispatch("scroll").unwrap_err();
    assert!(matches!(&error, DispatchError::UnknownTool(name) if name == "scroll"));
    assert_eq!(error.message(), "unknown tool: scroll");
}

#[test]
fn third_server_gets_the_free_bare_name() {
    let mut registry = ToolRegistry::new();
    for server in ["a", "b", "c"] {
        registry.register_tools(server.to_string(), vec![make_tool("x")]);
    }
    assert_eq!(registry.tool_names(), strings(&["a__x", "b__x", "x"]));
    assert_eq!(registry.dispatch("x").unwrap().server, "c");
}

#[test]
fn names_are_sorted() {
    let mut registry = ToolRegistry::new();
    registry.register_tools(
        "s".to_string(),
        vec![make_tool("b"), make_tool("a"), make_tool("ab"), make_tool("B")],
    );
    assert_eq!(registry.tool_names(), strings(&["B", "a", "ab", "b"]));
}

#[test]
fn every_server_is_shut_down_once() {
    let mut registry = ToolRegistry::new();
    registry.register_tools("a".to_string(), vec![]);
    registry.register_tools("b".to_string(), vec![make_tool("x")]);
    registry.register_tools("a".to_string(), vec![make_tool("y")]);
    let mut servers = registry.shutdown_all();
    servers.sort();
    assert_eq!(servers, strings(&["a", "b"]));
}

#[test]
fn offered_tools_carry_description_and_schema() {
    let mut registry = ToolRegistry::new();
    registry.register_tools("hands".to_string(), vec![make_tool("x")]);
    let tools = registry.to_openai_tools();
    assert_eq!(tools[0].function.name, "x");
    assert_eq!(tools[0].function.description, "Tool: x");
    assert_eq!(tools[0].function.parameters.to_string(), r#"{"type":"object"}"#);
}

#[test]
fn text_parts_of_a_result_are_joined() {
    let result = ToolCallResult {
        content: vec![
            ContentPart::Text("one ".to_string()),
            ContentPart::Other,
            ContentPart::Text("two".to_string()),
        ],
        is_error: false,
    };
    assert_eq!(result.text_content(), "one two");
}

#[test]
fn one_matching_pattern_lets_a_tool_through() {
    assert!(admits(&vec![]));
    assert!(admits(&vec![None, Some(false), Some(true)]));
    assert!(!admits(&vec![None, Some(false)]));
}

#[test]
fn flagged_tools_keep_their_order() {
    let tools = vec![make_tool("a"), make_tool("b"), make_tool("c")];
    let kept = keep_flagged(tools, &vec![true, false, true]);
    let names: Vec<String> = kept.into_iter().map(|t| t.name).collect();
    assert_eq!(names, strings(&["a", "c"]));
}

#[test]
fn unclosed_groups_match_nothing_however_many() {
    for pattern in ["{".repeat(65), "{".repeat(20_000), "{".repeat(200_000), "[".repeat(200_000)] {
        assert!(is_compilable(&pattern));
        let filter = vec![pattern];
        assert_eq!(select_tools(vec![make_tool("{"), make_tool("a")], &filter).len(), 0);
    }
}

#[test]
fn many_groups_side_by_side_match() {
    let filter = vec!["{a,b}".repeat(65)];
    let kept = select_tools(vec![make_tool(&"ab".repeat(32)), make_tool(&"a".repeat(65))], &filter);
    assert_eq!(kept.len(), 1);
    assert_eq!(kept[0].name, "a".repeat(65));
}

#[test]
fn calls_carry_the_own_name_of_a_tool() {
    let mut registry = ToolRegistry::new();
    registry.register_tools("a".to_string(), vec![make_tool("t")]);
    registry.register_tools("b".to_string(), vec![make_tool("t")]);
    registry.register_tools("c".to_string(), vec![make_tool("a__t")]);
    assert_eq!(registry.tool_names(), strings(&["a__a__t", "b__t", "c__a__t"]));
    let route = registry.dispatch("a__a__t").unwrap();
    assert_eq!((route.server.as_str(), route.tool.as_str()), ("a", "t"));
    let route = registry.dispatch("c__a__t").unwrap();
    assert_eq!((route.server.as_str(), route.tool.as_str()), ("c", "a__t"));

    let mut registry = ToolRegistry::new();
    registry.register_tools("hands".to_string(), vec![make_tool("hands__x")]);
    assert_eq!(registry.dispatch("hands__x").unwrap().tool, "hands__x");
}

#[test]
fn collisions_are_noted() {
    let mut registry = ToolRegistry::new();
    registry.add_server("a".to_string(), vec![make_tool("t"), make_tool("u")], &vec![]);
    assert!(registry.collisions().is_empty());
    registry.add_server("b".to_string(), vec![make_tool("t"), make_tool("v")], &vec![]);
    assert_eq!(registry.collisions().len(), 1);
    let collision = &registry.collisions()[0];
    assert_eq!(
        collision.existing_message(),
        "namespace collision on 't': renamed existing to 'a__t'"
    );
    assert_eq!(
        collision.added_message(),
        "namespace collision on 't': new tool registered as 'b__t'"
    );
}

#[test]
fn no_tool_is_lost_without_a_filter() {
    let mut registry = ToolRegistry::new();
    registry.add_server("a".to_string(), vec![make_tool("t"), make_tool("w\\x")], &vec![]);
    registry.add_server("b".to_string(), vec![make_tool("t"), make_tool("u")], &vec![]);
    registry.add_server("c".to_string(), vec![make_tool("u"), make_tool("t")], &vec![]);
    assert_eq!(
        registry.tool_names(),
        strings(&["a__t", "b__t", "b__u", "c__u", "t", "w\\x"])
    );
    assert_eq!(registry.tool_count(), 6);
}

#[test]
fn tools_of_several_servers_are_exposed_once_each() {
    let mut registry = ToolRegistry::new();
    let servers = [("a", vec!["x", "y"]), ("b", vec!["x", "z"]), ("c", vec!["x"]), ("d", vec!["z", "x"])];
    for (server, tools) in &servers {
        let list = tools.iter().map(|t| make_tool(t)).collect();
        registry.add_server(server.to_string(), list, &vec![]);
    }
    assert_eq!(
        registry.tool_names(),
        strings(&["a__x", "b__x", "b__z", "c__x", "d__x", "d__z", "y"])
    );
    let mut routes: Vec<(String, String)> = Vec::new();
    for name in registry.tool_names() {
        let route = registry.dispatch(&name).unwrap();
        routes.push((route.server, route.tool));
    }
    for (server, tools) in &servers {
        for tool in tools {
            let same = |r: &&(String, String)| r.0 == *server && r.1 == *tool;
            assert_eq!(routes.iter().filter(same).count(), 1);
        }
    }
}

#[test]
fn filter_is_the_same_as_adding_the_kept_tools() {
    let all = || vec![make_tool("read_a"), make_tool("write"), make_tool("read_b")];
    let filter = strings(&["read_*", "["]);
    let mut filtered = ToolRegistry::new();
    filtered.add_server("s".to_string(), all(), &filter);
    let mut kept = ToolRegistry::new();
    kept.add_server("s".to_string(), select_tools(all(), &filter), &vec![]);
    assert_eq!(format!("{:?}", filtered), format!("{:?}", kept));
}
