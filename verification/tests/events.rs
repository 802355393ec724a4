use mcpconfig::events::{
    final_answer, read_line, run_completed, run_failed, run_start, tools_registered, Event,
    LogEntry,
};
use mcpconfig::json::{Fields, Json};

fn line(entry: LogEntry) -> String {
    let event = Event { ts: "T".to_string(), kind: entry.kind, data: entry.data };
    event.line().unwrap()
}

fn strings(texts: &[&str]) -> Vec<String> {
    texts.iter().map(|t| t.to_string()).collect()
}

#[test]
fn test_jsonl_serialization() {
    let start = Fields::new()
        .with("task", Json::text("smoke"))
        .with("model", Json::text("test-model"))
        .object();
    let entries = vec![
        LogEntry { kind: "run_start".to_string(), data: start },
        tools_registered(&strings(&["a", "b", "c"])),
        final_answer(1, "done"),
    ];
    let lines: Vec<String> = entries.into_iter().map(line).collect();

    assert_eq!(lines.len(), 3);

    for line in &lines {
        let parsed = read_line(line).unwrap();
        assert!(parsed.get("ts").is_some());
        assert!(parsed.get("kind").is_some());
    }

    let first = read_line(&lines[0]).unwrap();
    assert_eq!(first.text_at("kind"), Some("run_start"));
    assert_eq!(first.text_at("task"), Some("smoke"));

    let second = read_line(&lines[1]).unwrap();
    assert_eq!(second.text_at("kind"), Some("tools_registered"));
    assert_eq!(second.number_at("count"), Some(3));
}

#[test]
fn line_holds_time_and_kind_before_the_data() {
    assert_eq!(
        line(final_answer(3, "say \"hi\"")),
        r#"{"ts":"T","kind":"final_answer","iteration":3,"content":"say \"hi\""}"#
    );
    assert_eq!(
        line(run_completed(10, 20, 3)),
        r#"{"ts":"T","kind":"run_end","ok":true,"duration_ms":10,"total_tokens":20,"iterations":3}"#
    );
    assert_eq!(
        line(run_failed("no")),
        r#"{"ts":"T","kind":"run_end","ok":false,"error":"no"}"#
    );
    assert_eq!(
        line(run_start("t", "m", "u", "p", &strings(&["h"]), &None, &Some("r".to_string()), true)),
        r#"{"ts":"T","kind":"run_start","task":"t","model":"m","base_url":"u","user_prompt":"p","mcp_servers":["h"],"tool_call_parser":null,"reasoning_parser":"r","auto_tool_choice":true}"#
    );
}

#[test]
fn null_data_add_nothing() {
    let entry = LogEntry { kind: "k".to_string(), data: Json::Null };
    assert_eq!(line(entry), r#"{"ts":"T","kind":"k"}"#);
}

#[test]
fn data_that_are_no_object_are_refused() {
    for data in [Json::text("x"), Json::Bool(true), Json::Unsigned(1), Json::Array(vec![])] {
        let event = Event { ts: "T".to_string(), kind: "k".to_string(), data };
        assert!(event.line().is_err());
    }
}

#[test]
fn data_with_a_time_of_their_own_are_written_as_they_are() {
    let data = Fields::new().with("ts", Json::text("mine")).object();
    let entry = LogEntry { kind: "k".to_string(), data };
    assert_eq!(line(entry), r#"{"ts":"T","kind":"k","ts":"mine"}"#);
}

#[test]
fn unreadable_line_is_nothing() {
    assert!(read_line("{\"ts\":").is_none());
}

#[test]
fn json_values_are_read_and_written() {
    let text = r#"{"b":[1,-2,1.5,null,true],"a":{"x":"é\n"}}"#;
    let json = Json::parse(text).unwrap();
    assert_eq!(json.render(), text);
    assert_eq!(json.to_value().to_string(), text);
    assert_eq!(json.get("a").unwrap().text_at("x"), Some("é\n"));
    assert!(json.get("c").is_none());
    assert!(json.text_at("b").is_none());
    let twice = Json::parse(r#"{"a":1,"a":2}"#).unwrap();
    assert_eq!(twice.number_at("a"), Some(2));
    assert_eq!(Json::parse(r#"{"a":-1}"#).unwrap().number_at("a"), None);
}

#[test]
fn deep_values_are_read_back() {
    let mut json = Json::text("x");
    for _ in 0..127 {
        json = Json::Array(vec![json]);
    }
    let text = json.render();
    assert_eq!(Json::parse(&text).unwrap().render(), text);
    let deeper = Json::Array(vec![json]).render();
    assert!(Json::parse(&deeper).is_none());
}

#[test]
fn negative_numbers_are_read_back() {
    let data = Fields::new()
        .with("low", Json::Integer(i64::MIN))
        .with("one", Json::Integer(-1))
        .with("zero", Json::Integer(0))
        .with("high", Json::Unsigned(u64::MAX))
        .object();
    let text = line(LogEntry { kind: "k".to_string(), data });
    assert_eq!(
        text,
        r#"{"ts":"T","kind":"k","low":-9223372036854775808,"one":-1,"zero":0,"high":18446744073709551615}"#
    );
    let read = read_line(&text).unwrap();
    assert_eq!(read.render(), text);
    assert!(matches!(read.get("low"), Some(Json::Integer(i64::MIN))));
    assert!(matches!(read.get("zero"), Some(Json::Unsigned(0))));
    assert_eq!(read.number_at("one"), None);
    assert_eq!(Json::Array(vec![Json::Integer(5)]).render(), "[5]");
    let five = Fields::new().with("n", Json::Integer(5)).object();
    assert_eq!(five.number_at("n"), Some(5));
}

#[test]
fn line_is_one_line() {
    let text = line(final_answer(1, "a\nb\r\nc\u{0}\u{2028}\t"));
    assert!(!text.contains('\n'));
    assert!(!text.contains('\r'));
    assert_eq!(read_line(&text).unwrap().text_at("content"), Some("a\nb\r\nc\u{0}\u{2028}\t"));
}

#[test]
fn object_that_begins_with_the_reserved_key_is_read_otherwise() {
    let key = "$serde_json::private::RawValue";
    let alone = Fields::new().with(key, Json::text("1")).object();
    assert_eq!(Json::parse(&alone.render()).unwrap().render(), "1");
    let inner = Fields::new().with(key, Json::Null).object();
    assert!(Json::parse(&inner.render()).is_none());
    let data = Fields::new().with(key, Json::Null).object();
    let text = line(LogEntry { kind: "k".to_string(), data });
    assert_eq!(read_line(&text).unwrap().render(), text);
}
