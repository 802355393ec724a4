//! What a run tells of itself: events, one JSON object per line of the log.

use vstd::prelude::*;
use vstd::string::*;

use crate::json::{
    distinct_keys, field, flag_field, integers_only, json_parse, json_text, lemma_lookup_append,
    lemma_lookup_first, lemma_lookup_none, lemma_storable_deeper, lemma_text_array_storable, lookup,
    member, nested_within, number_field, one_line, optional, plain_objects, reserved_key, round_trips, storable,
    text_array, text_field, Fields, Json, JsonView, MemberView,
};
use crate::mcp::opt_text;
use crate::openai::{
    call_views, calls_json, calls_to_json, law_call_tells, law_usage_tells, lemma_calls_storable,
    lemma_usage_storable, tells_call, tells_usage, usage_json, usage_to_json, ToolCall, ToolCallView, Usage,
};
use crate::text::names;

verus! {

/// A single event in the run log. Its data stand beside `ts` and `kind`.
#[derive(Debug)]
pub struct Event {
    pub ts: String,
    pub kind: String,
    pub data: Json,
}

/// Data that cannot stand beside `ts` and `kind`: neither an object nor null.
#[derive(Debug)]
pub struct NotAnObject;

/// The members of an event: its time, its kind, then its data.
pub open spec fn event_members(ts: Seq<char>, kind: Seq<char>, data: Seq<MemberView>) -> Seq<
    MemberView,
> {
    seq![member("ts"@, JsonView::Text(ts)), member("kind"@, JsonView::Text(kind))] + data
}

/// An event in JSON; `None` where its data are neither an object nor null.
pub open spec fn event_json(ts: Seq<char>, kind: Seq<char>, data: JsonView) -> Option<JsonView> {
    match data {
        JsonView::Object(members) => Some(JsonView::Object(event_members(ts, kind, members))),
        JsonView::Null => Some(JsonView::Object(event_members(ts, kind, Seq::empty()))),
        _ => None,
    }
}

/// Data that can be read back from an event's line: null, or an object without
/// `ts` and `kind` of its own, with no key twice and storable values.
pub open spec fn loggable(data: JsonView) -> bool {
    match data {
        JsonView::Null => true,
        JsonView::Object(members) => {
            &&& lookup(members, "ts"@) is None
            &&& lookup(members, "kind"@) is None
            &&& forall|i: int, j: int|
                0 <= i < j < members.len() ==> (#[trigger] members[i]).key != (
                #[trigger] members[j]).key
            &&& forall|i: int|
                0 <= i < members.len() ==> storable((#[trigger] members[i]).value, 126)
        },
        _ => false,
    }
}

impl Event {
    /// The event as one line of the log.
    pub fn line(&self) -> (line: Result<String, NotAnObject>)
        requires
            distinct_keys(self.data@),
        ensures
            match event_json(self.ts@, self.kind@, self.data@) {
                Some(json) => line matches Ok(text) && text@ == json_text(json),
                None => line is Err,
            },
            line matches Ok(text) ==> one_line(text@),
    {
        let head = Fields::new().with("ts", Json::text(self.ts.as_str())).with(
            "kind",
            Json::text(self.kind.as_str()),
        );
        assert(head@ =~= event_members(self.ts@, self.kind@, Seq::empty()));
        match head.render_with(&self.data) {
            Some(text) => {
                proof {
                    if let JsonView::Object(members) = self.data@ {
                        assert(head@ + members =~= event_members(self.ts@, self.kind@, members));
                    }
                }
                Ok(text)
            },
            None => Err(NotAnObject),
        }
    }
}

/// An event with loggable data is read back from its text.
proof fn lemma_event_round_trips(ts: Seq<char>, kind: Seq<char>, data: JsonView)
    requires
        loggable(data),
    ensures
        event_json(ts, kind, data) is Some,
        round_trips(event_json(ts, kind, data)->0),
{
    reveal_strlit("ts");
    reveal_strlit("kind");
    reveal_strlit("$serde_json::private::RawValue");
    let inner = match data {
        JsonView::Object(members) => members,
        _ => Seq::empty(),
    };
    let members = event_members(ts, kind, inner);
    assert(event_json(ts, kind, data) == Some(JsonView::Object(members)));
    lemma_lookup_none(inner, "ts"@);
    lemma_lookup_none(inner, "kind"@);
    assert(members.len() == inner.len() + 2);
    assert(members[0] == member("ts"@, JsonView::Text(ts)));
    assert(members[1] == member("kind"@, JsonView::Text(kind)));
    assert forall|i: int| 2 <= i < members.len() implies #[trigger] members[i] == inner[i - 2] by {}
    assert forall|i: int, j: int| 0 <= i < j < members.len() implies (#[trigger] members[i]).key
        != (#[trigger] members[j]).key by {
        if i >= 2 {
            assert(inner[i - 2].key != inner[j - 2].key);
        } else if j >= 2 {
            assert(inner[j - 2].key != members[i].key);
        } else {
            assert("ts"@.len() != "kind"@.len());
        }
    }
    assert forall|i: int| 0 <= i < members.len() implies storable(
        (#[trigger] members[i]).value,
        126,
    ) by {
        if i >= 2 {
            assert(storable(inner[i - 2].value, 126));
        }
    }
    assert("ts"@.len() != reserved_key().len());
    let event = JsonView::Object(members);
    assert(distinct_keys(event));
    assert(integers_only(event));
    assert(plain_objects(event));
    assert(nested_within(event, 127));
}

/// What is read of an event: its time and its kind under `ts` and `kind`, and
/// its data under their own keys.
pub proof fn law_event_keeps_its_data(
    ts: Seq<char>,
    kind: Seq<char>,
    data: Seq<MemberView>,
    key: Seq<char>,
)
    ensures
        event_json(ts, kind, JsonView::Object(data)) matches Some(event) && field(event, key)
            == if key == "ts"@ {
            Some(JsonView::Text(ts))
        } else if key == "kind"@ {
            Some(JsonView::Text(kind))
        } else {
            field(JsonView::Object(data), key)
        },
{
    reveal_strlit("ts");
    reveal_strlit("kind");
    let head = seq![member("ts"@, JsonView::Text(ts)), member("kind"@, JsonView::Text(kind))];
    lemma_lookup_append(head, data, key);
    assert(head.drop_first() =~= seq![member("kind"@, JsonView::Text(kind))]);
    assert(head.drop_first().drop_first() =~= Seq::empty());
    reveal_with_fuel(lookup, 3);
}

/// Reads a line of the log; `None` where it is no JSON. What a run logged
/// comes back as it was.
pub fn read_line(line: &str) -> (json: Option<Json>)
    ensures
        json is Some <==> json_parse(line@) is Some,
        json matches Some(j) ==> j@ == json_parse(line@)->0 && distinct_keys(j@),
        forall|written: JsonView|
            round_trips(written) && line@ == #[trigger] json_text(written) ==> (json matches Some(
                j,
            ) && j@ == written),
        forall|ts: Seq<char>, kind: Seq<char>, data: JsonView|
            loggable(data) && line@ == json_text(#[trigger] event_json(ts, kind, data)->0) ==> (
            json matches Some(j) && Some(j@) == event_json(ts, kind, data)),
{
    proof {
        assert forall|ts: Seq<char>, kind: Seq<char>, data: JsonView| loggable(data) implies (
        #[trigger] event_json(ts, kind, data) is Some && round_trips(
            event_json(ts, kind, data)->0,
        )) by {
            lemma_event_round_trips(ts, kind, data);
        }
    }
    Json::parse(line)
}

/// What is to be logged: an event before it gets its time.
#[derive(Debug)]
pub struct LogEntry {
    pub kind: String,
    pub data: Json,
}

/// The mathematical form of a [`LogEntry`].
#[verifier::ext_equal]
pub struct LogView {
    pub kind: Seq<char>,
    pub data: JsonView,
}

impl View for LogEntry {
    type V = LogView;

    open spec fn view(&self) -> LogView {
        LogView { kind: self.kind@, data: self.data@ }
    }
}

/// The entries of a list, one by one.
pub open spec fn log_views(entries: Seq<LogEntry>) -> Seq<LogView> {
    entries.map_values(|e: LogEntry| e@)
}

/// An object is loggable where its keys differ from each other and from `ts`
/// and `kind`, and its values are storable.
proof fn lemma_loggable(members: Seq<MemberView>)
    requires
        forall|i: int, j: int|
            0 <= i < j < members.len() ==> (#[trigger] members[i]).key != (#[trigger] members[j]).key,
        forall|i: int|
            0 <= i < members.len() ==> (#[trigger] members[i]).key != "ts"@ && members[i].key
                != "kind"@ && storable(members[i].value, 126),
    ensures
        loggable(JsonView::Object(members)),
{
    lemma_lookup_none(members, "ts"@);
    lemma_lookup_none(members, "kind"@);
}

/// The tools that a run offers to its model.
pub open spec fn tools_registered_log(exposed: Seq<Seq<char>>) -> LogView {
    LogView {
        kind: "tools_registered"@,
        data: JsonView::Object(
            seq![
                member("count"@, JsonView::Unsigned(exposed.len() as u64)),
                member("names"@, text_array(exposed)),
            ],
        ),
    }
}

/// The entry of [`tools_registered_log`].
pub fn tools_registered(names_of: &Vec<String>) -> (entry: LogEntry)
    ensures
        entry@ == tools_registered_log(names(names_of@)),
        loggable(entry.data@),
{
    let data = Fields::new()
        .with("count", Json::Unsigned(names_of.len() as u64))
        .with("names", Json::texts(names_of))
        .object();
    proof {
        let members = tools_registered_log(names(names_of@)).data->Object_0;
        assert(data@->Object_0 =~= members);
        reveal_strlit("ts");
        reveal_strlit("kind");
        reveal_strlit("count");
        reveal_strlit("names");
        lemma_text_array_storable(names(names_of@));
        lemma_storable_deeper(text_array(names(names_of@)), 1, 126);
        assert(members[0].key == "count"@);
        assert(members[1].key == "names"@);
        assert("count"@[0] != "names"@[0]);
        lemma_loggable(members);
    }
    LogEntry { kind: "tools_registered".to_owned(), data }
}

/// A request that goes to the model.
pub open spec fn llm_request_log(iteration: u32, model: Seq<char>, message_count: nat) -> LogView {
    LogView {
        kind: "llm_request"@,
        data: JsonView::Object(
            seq![
                member("iteration"@, JsonView::Unsigned(iteration as u64)),
                member("model"@, JsonView::Text(model)),
                member("message_count"@, JsonView::Unsigned(message_count as u64)),
            ],
        ),
    }
}

/// The entry of [`llm_request_log`].
pub fn llm_request(iteration: u32, model: &str, message_count: usize) -> (entry: LogEntry)
    ensures
        entry@ == llm_request_log(iteration, model@, message_count as nat),
        loggable(entry.data@),
{
    let data = Fields::new()
        .with("iteration", Json::Unsigned(iteration as u64))
        .with("model", Json::text(model))
        .with("message_count", Json::Unsigned(message_count as u64))
        .object();
    proof {
        let members = llm_request_log(iteration, model@, message_count as nat).data->Object_0;
        assert(data@->Object_0 =~= members);
        reveal_strlit("ts");
        reveal_strlit("kind");
        reveal_strlit("iteration");
        reveal_strlit("model");
        reveal_strlit("message_count");
        assert(members[0].key == "iteration"@);
        assert(members[1].key == "model"@);
        assert(members[2].key == "message_count"@);
        lemma_loggable(members);
    }
    LogEntry { kind: "llm_request".to_owned(), data }
}

/// What the model answered.
pub open spec fn llm_response_log(
    iteration: u32,
    content: Option<Seq<char>>,
    calls: Seq<ToolCallView>,
    reasoning: Option<Seq<char>>,
    usage: Option<Usage>,
) -> LogView {
    LogView {
        kind: "llm_response"@,
        data: JsonView::Object(
            seq![
                member("iteration"@, JsonView::Unsigned(iteration as u64)),
                member("content"@, optional(content)),
                member("tool_calls"@, calls_json(calls)),
                member("reasoning"@, optional(reasoning)),
                member("usage"@, usage_json(usage)),
            ],
        ),
    }
}

/// The entry of [`llm_response_log`].
pub fn llm_response(
    iteration: u32,
    content: &Option<String>,
    calls: &Vec<ToolCall>,
    reasoning: &Option<String>,
    usage: &Option<Usage>,
) -> (entry: LogEntry)
    ensures
        entry@ == llm_response_log(
            iteration,
            opt_text(*content),
            call_views(calls@),
            opt_text(*reasoning),
            *usage,
        ),
        loggable(entry.data@),
{
    let data = Fields::new()
        .with("iteration", Json::Unsigned(iteration as u64))
        .with("content", Json::optional_text(content))
        .with("tool_calls", calls_to_json(calls))
        .with("reasoning", Json::optional_text(reasoning))
        .with("usage", usage_to_json(usage))
        .object();
    proof {
        let members = llm_response_log(
            iteration,
            opt_text(*content),
            call_views(calls@),
            opt_text(*reasoning),
            *usage,
        ).data->Object_0;
        assert(data@->Object_0 =~= members);
        reveal_strlit("ts");
        reveal_strlit("kind");
        reveal_strlit("iteration");
        reveal_strlit("content");
        reveal_strlit("tool_calls");
        reveal_strlit("reasoning");
        reveal_strlit("usage");
        lemma_calls_storable(call_views(calls@));
        lemma_usage_storable(*usage);
        lemma_storable_deeper(calls_json(call_views(calls@)), 3, 126);
        lemma_storable_deeper(usage_json(*usage), 1, 126);
        assert(members[0].key == "iteration"@);
        assert(members[1].key == "content"@);
        assert(members[2].key == "tool_calls"@);
        assert(members[3].key == "reasoning"@);
        assert(members[4].key == "usage"@);
        assert("iteration"@[0] != "reasoning"@[0]);
        lemma_loggable(members);
    }
    LogEntry { kind: "llm_response".to_owned(), data }
}

/// A tool call that the model asked for.
pub open spec fn tool_call_log(
    iteration: u32,
    id: Seq<char>,
    name: Seq<char>,
    arguments: Seq<char>,
) -> LogView {
    LogView {
        kind: "tool_call"@,
        data: JsonView::Object(
            seq![
                member("iteration"@, JsonView::Unsigned(iteration as u64)),
                member("id"@, JsonView::Text(id)),
                member("name"@, JsonView::Text(name)),
                member("arguments"@, JsonView::Text(arguments)),
            ],
        ),
    }
}

/// The entry of [`tool_call_log`].
pub fn tool_call(iteration: u32, id: &str, name: &str, arguments: &str) -> (entry: LogEntry)
    ensures
        entry@ == tool_call_log(iteration, id@, name@, arguments@),
        loggable(entry.data@),
{
    let data = Fields::new()
        .with("iteration", Json::Unsigned(iteration as u64))
        .with("id", Json::text(id))
        .with("name", Json::text(name))
        .with("arguments", Json::text(arguments))
        .object();
    proof {
        let members = tool_call_log(iteration, id@, name@, arguments@).data->Object_0;
        assert(data@->Object_0 =~= members);
        reveal_strlit("ts");
        reveal_strlit("kind");
        reveal_strlit("iteration");
        reveal_strlit("id");
        reveal_strlit("name");
        reveal_strlit("arguments");
        assert(members[0].key == "iteration"@);
        assert(members[1].key == "id"@);
        assert(members[2].key == "name"@);
        assert(members[3].key == "arguments"@);
        assert("ts"@[0] != "id"@[0]);
        assert("kind"@[0] != "name"@[0]);
        assert("iteration"@[0] != "arguments"@[0]);
        lemma_loggable(members);
    }
    LogEntry { kind: "tool_call".to_owned(), data }
}

/// What came of a tool call.
pub open spec fn tool_result_log(
    iteration: u32,
    id: Seq<char>,
    ok: bool,
    content: Seq<char>,
) -> LogView {
    LogView {
        kind: "tool_result"@,
        data: JsonView::Object(
            seq![
                member("iteration"@, JsonView::Unsigned(iteration as u64)),
                member("id"@, JsonView::Text(id)),
                member("ok"@, JsonView::Bool(ok)),
                member("content"@, JsonView::Text(content)),
            ],
        ),
    }
}

/// The entry of [`tool_result_log`].
pub fn tool_result(iteration: u32, id: &str, ok: bool, content: &str) -> (entry: LogEntry)
    ensures
        entry@ == tool_result_log(iteration, id@, ok, content@),
        loggable(entry.data@),
{
    let data = Fields::new()
        .with("iteration", Json::Unsigned(iteration as u64))
        .with("id", Json::text(id))
        .with("ok", Json::Bool(ok))
        .with("content", Json::text(content))
        .object();
    proof {
        let members = tool_result_log(iteration, id@, ok, content@).data->Object_0;
        assert(data@->Object_0 =~= members);
        reveal_strlit("ts");
        reveal_strlit("kind");
        reveal_strlit("iteration");
        reveal_strlit("id");
        reveal_strlit("ok");
        reveal_strlit("content");
        assert(members[0].key == "iteration"@);
        assert(members[1].key == "id"@);
        assert(members[2].key == "ok"@);
        assert(members[3].key == "content"@);
        assert("ts"@[0] != "id"@[0]);
        assert("ts"@[0] != "ok"@[0]);
        assert("id"@[0] != "ok"@[0]);
        lemma_loggable(members);
    }
    LogEntry { kind: "tool_result".to_owned(), data }
}

/// The answer that ends a run.
pub open spec fn final_answer_log(iteration: u32, content: Seq<char>) -> LogView {
    LogView {
        kind: "final_answer"@,
        data: JsonView::Object(
            seq![
                member("iteration"@, JsonView::Unsigned(iteration as u64)),
                member("content"@, JsonView::Text(content)),
            ],
        ),
    }
}

/// The entry of [`final_answer_log`].
pub fn final_answer(iteration: u32, content: &str) -> (entry: LogEntry)
    ensures
        entry@ == final_answer_log(iteration, content@),
        loggable(entry.data@),
{
    let data = Fields::new()
        .with("iteration", Json::Unsigned(iteration as u64))
        .with("content", Json::text(content))
        .object();
    proof {
        let members = final_answer_log(iteration, content@).data->Object_0;
        assert(data@->Object_0 =~= members);
        reveal_strlit("ts");
        reveal_strlit("kind");
        reveal_strlit("iteration");
        reveal_strlit("content");
        assert(members[0].key == "iteration"@);
        assert(members[1].key == "content"@);
        lemma_loggable(members);
    }
    LogEntry { kind: "final_answer".to_owned(), data }
}

/// The task and the model of a run.
pub open spec fn run_start_log(
    task: Seq<char>,
    model: Seq<char>,
    base_url: Seq<char>,
    user_prompt: Seq<char>,
    mcp_servers: Seq<Seq<char>>,
    tool_call_parser: Option<Seq<char>>,
    reasoning_parser: Option<Seq<char>>,
    auto_tool_choice: bool,
) -> LogView {
    LogView {
        kind: "run_start"@,
        data: JsonView::Object(
            seq![
                member("task"@, JsonView::Text(task)),
                member("model"@, JsonView::Text(model)),
                member("base_url"@, JsonView::Text(base_url)),
                member("user_prompt"@, JsonView::Text(user_prompt)),
                member("mcp_servers"@, text_array(mcp_servers)),
                member("tool_call_parser"@, optional(tool_call_parser)),
                member("reasoning_parser"@, optional(reasoning_parser)),
                member("auto_tool_choice"@, JsonView::Bool(auto_tool_choice)),
            ],
        ),
    }
}

/// The entry of [`run_start_log`].
pub fn run_start(
    task: &str,
    model: &str,
    base_url: &str,
    user_prompt: &str,
    mcp_servers: &Vec<String>,
    tool_call_parser: &Option<String>,
    reasoning_parser: &Option<String>,
    auto_tool_choice: bool,
) -> (entry: LogEntry)
    ensures
        entry@ == run_start_log(
            task@,
            model@,
            base_url@,
            user_prompt@,
            names(mcp_servers@),
            opt_text(*tool_call_parser),
            opt_text(*reasoning_parser),
            auto_tool_choice,
        ),
        loggable(entry.data@),
{
    let data = Fields::new()
        .with("task", Json::text(task))
        .with("model", Json::text(model))
        .with("base_url", Json::text(base_url))
        .with("user_prompt", Json::text(user_prompt))
        .with("mcp_servers", Json::texts(mcp_servers))
        .with("tool_call_parser", Json::optional_text(tool_call_parser))
        .with("reasoning_parser", Json::optional_text(reasoning_parser))
        .with("auto_tool_choice", Json::Bool(auto_tool_choice))
        .object();
    proof {
        let members = run_start_log(
            task@,
            model@,
            base_url@,
            user_prompt@,
            names(mcp_servers@),
            opt_text(*tool_call_parser),
            opt_text(*reasoning_parser),
            auto_tool_choice,
        ).data->Object_0;
        assert(data@->Object_0 =~= members);
        reveal_strlit("ts");
        reveal_strlit("kind");
        reveal_strlit("task");
        reveal_strlit("model");
        reveal_strlit("base_url");
        reveal_strlit("user_prompt");
        reveal_strlit("mcp_servers");
        reveal_strlit("tool_call_parser");
        reveal_strlit("reasoning_parser");
        reveal_strlit("auto_tool_choice");
        lemma_text_array_storable(names(mcp_servers@));
        lemma_storable_deeper(text_array(names(mcp_servers@)), 1, 126);
        assert(members[0].key == "task"@);
        assert(members[1].key == "model"@);
        assert(members[2].key == "base_url"@);
        assert(members[3].key == "user_prompt"@);
        assert(members[4].key == "mcp_servers"@);
        assert(members[5].key == "tool_call_parser"@);
        assert(members[6].key == "reasoning_parser"@);
        assert(members[7].key == "auto_tool_choice"@);
        assert("kind"@[0] != "task"@[0]);
        assert("user_prompt"@[0] != "mcp_servers"@[0]);
        assert("tool_call_parser"@[0] != "reasoning_parser"@[0]);
        assert("tool_call_parser"@[0] != "auto_tool_choice"@[0]);
        assert("reasoning_parser"@[0] != "auto_tool_choice"@[0]);
        lemma_loggable(members);
    }
    LogEntry { kind: "run_start".to_owned(), data }
}

/// The end of a run that gave an answer.
pub open spec fn run_completed_log(
    duration_ms: u64,
    total_tokens: u32,
    iterations: u32,
) -> LogView {
    LogView {
        kind: "run_end"@,
        data: JsonView::Object(
            seq![
                member("ok"@, JsonView::Bool(true)),
                member("duration_ms"@, JsonView::Unsigned(duration_ms)),
                member("total_tokens"@, JsonView::Unsigned(total_tokens as u64)),
                member("iterations"@, JsonView::Unsigned(iterations as u64)),
            ],
        ),
    }
}

/// The entry of [`run_completed_log`].
pub fn run_completed(duration_ms: u64, total_tokens: u32, iterations: u32) -> (entry: LogEntry)
    ensures
        entry@ == run_completed_log(duration_ms, total_tokens, iterations),
        loggable(entry.data@),
{
    let data = Fields::new()
        .with("ok", Json::Bool(true))
        .with("duration_ms", Json::Unsigned(duration_ms))
        .with("total_tokens", Json::Unsigned(total_tokens as u64))
        .with("iterations", Json::Unsigned(iterations as u64))
        .object();
    proof {
        let members = run_completed_log(duration_ms, total_tokens, iterations).data->Object_0;
        assert(data@->Object_0 =~= members);
        reveal_strlit("ts");
        reveal_strlit("kind");
        reveal_strlit("ok");
        reveal_strlit("duration_ms");
        reveal_strlit("total_tokens");
        reveal_strlit("iterations");
        assert(members[0].key == "ok"@);
        assert(members[1].key == "duration_ms"@);
        assert(members[2].key == "total_tokens"@);
        assert(members[3].key == "iterations"@);
        assert("ts"@[0] != "ok"@[0]);
        lemma_loggable(members);
    }
    LogEntry { kind: "run_end".to_owned(), data }
}

/// The end of a run that failed.
pub open spec fn run_failed_log(error: Seq<char>) -> LogView {
    LogView {
        kind: "run_end"@,
        data: JsonView::Object(
            seq![
                member("ok"@, JsonView::Bool(false)),
                member("error"@, JsonView::Text(error)),
            ],
        ),
    }
}

/// The entry of [`run_failed_log`].
pub fn run_failed(error: &str) -> (entry: LogEntry)
    ensures
        entry@ == run_failed_log(error@),
        loggable(entry.data@),
{
    let data = Fields::new()
        .with("ok", Json::Bool(false))
        .with("error", Json::text(error))
        .object();
    proof {
        let members = run_failed_log(error@).data->Object_0;
        assert(data@->Object_0 =~= members);
        reveal_strlit("ts");
        reveal_strlit("kind");
        reveal_strlit("ok");
        reveal_strlit("error");
        assert(members[0].key == "ok"@);
        assert(members[1].key == "error"@);
        assert("ts"@[0] != "ok"@[0]);
        lemma_loggable(members);
    }
    LogEntry { kind: "run_end".to_owned(), data }
}

/// A failure, as the last event of a stream.
pub open spec fn run_error_log(error: Seq<char>) -> LogView {
    LogView {
        kind: "error"@,
        data: JsonView::Object(
            seq![
                member("error"@, JsonView::Text(error)),
            ],
        ),
    }
}

/// The entry of [`run_error_log`].
pub fn run_error(error: &str) -> (entry: LogEntry)
    ensures
        entry@ == run_error_log(error@),
        loggable(entry.data@),
{
    let data = Fields::new()
        .with("error", Json::text(error))
        .object();
    proof {
        let members = run_error_log(error@).data->Object_0;
        assert(data@->Object_0 =~= members);
        reveal_strlit("ts");
        reveal_strlit("kind");
        reveal_strlit("error");
        assert(members[0].key == "error"@);
        lemma_loggable(members);
    }
    LogEntry { kind: "error".to_owned(), data }
}

/// The entry of the offered tools tells how many there are and names each.
pub proof fn law_tools_registered_tells(exposed: Seq<Seq<char>>)
    ensures
        ({
            let entry = tools_registered_log(exposed);
            &&& entry.kind == "tools_registered"@
            &&& number_field(entry.data, "count"@) == Some(exposed.len() as u64)
            &&& field(entry.data, "names"@) matches Some(JsonView::Array(items)) && items.len()
                == exposed.len() && forall|i: int|
                0 <= i < exposed.len() ==> #[trigger] items[i] == JsonView::Text(exposed[i])
        }),
{
    reveal_strlit("count");
    reveal_strlit("names");
    let members = tools_registered_log(exposed).data->Object_0;
    assert("count"@[0] != "names"@[0]);
    assert(members[0].key == "count"@);
    assert(members[1].key == "names"@);
    lemma_lookup_first(members, 0);
    lemma_lookup_first(members, 1);
}

/// The entry of a request tells its iteration, the model and how long the
/// conversation is.
pub proof fn law_request_tells(iteration: u32, model: Seq<char>, message_count: nat)
    ensures
        ({
            let entry = llm_request_log(iteration, model, message_count);
            &&& entry.kind == "llm_request"@
            &&& number_field(entry.data, "iteration"@) == Some(iteration as u64)
            &&& text_field(entry.data, "model"@) == Some(model)
            &&& number_field(entry.data, "message_count"@) == Some(message_count as u64)
        }),
{
    reveal_strlit("iteration");
    reveal_strlit("model");
    reveal_strlit("message_count");
    let members = llm_request_log(iteration, model, message_count).data->Object_0;
    assert("iteration"@.len() != "model"@.len());
    assert("iteration"@.len() != "message_count"@.len());
    assert("model"@.len() != "message_count"@.len());
    assert(members[0].key == "iteration"@);
    assert(members[1].key == "model"@);
    assert(members[2].key == "message_count"@);
    lemma_lookup_first(members, 0);
    lemma_lookup_first(members, 1);
    lemma_lookup_first(members, 2);
}

/// The entry of an answer tells its iteration, what was said, every call that was
/// asked for with its id, name and arguments, the reasoning and the token counts.
pub proof fn law_response_tells(
    iteration: u32,
    content: Option<Seq<char>>,
    calls: Seq<ToolCallView>,
    reasoning: Option<Seq<char>>,
    usage: Option<Usage>,
)
    ensures
        ({
            let entry = llm_response_log(iteration, content, calls, reasoning, usage);
            &&& entry.kind == "llm_response"@
            &&& number_field(entry.data, "iteration"@) == Some(iteration as u64)
            &&& text_field(entry.data, "content"@) == content
            &&& field(entry.data, "tool_calls"@) matches Some(JsonView::Array(items)) && items.len()
                == calls.len() && forall|i: int|
                0 <= i < calls.len() ==> tells_call(#[trigger] items[i], calls[i])
            &&& text_field(entry.data, "reasoning"@) == reasoning
            &&& (field(entry.data, "usage"@) matches Some(told) && tells_usage(told, usage))
        }),
{
    reveal_strlit("iteration");
    reveal_strlit("content");
    reveal_strlit("tool_calls");
    reveal_strlit("reasoning");
    reveal_strlit("usage");
    let members = llm_response_log(iteration, content, calls, reasoning, usage).data->Object_0;
    assert("iteration"@.len() != "content"@.len());
    assert("iteration"@.len() != "tool_calls"@.len());
    assert("content"@.len() != "tool_calls"@.len());
    assert("iteration"@[0] != "reasoning"@[0]);
    assert("content"@.len() != "reasoning"@.len());
    assert("tool_calls"@.len() != "reasoning"@.len());
    assert("iteration"@.len() != "usage"@.len());
    assert("content"@.len() != "usage"@.len());
    assert("tool_calls"@.len() != "usage"@.len());
    assert("reasoning"@.len() != "usage"@.len());
    assert(members[0].key == "iteration"@);
    assert(members[1].key == "content"@);
    assert(members[2].key == "tool_calls"@);
    assert(members[3].key == "reasoning"@);
    assert(members[4].key == "usage"@);
    lemma_lookup_first(members, 0);
    lemma_lookup_first(members, 1);
    lemma_lookup_first(members, 2);
    lemma_lookup_first(members, 3);
    lemma_lookup_first(members, 4);
    assert forall|i: int| 0 <= i < calls.len() implies tells_call(
        #[trigger] calls_json(calls)->Array_0[i],
        calls[i],
    ) by {
        law_call_tells(calls[i]);
    }
    if let Some(u) = usage {
        law_usage_tells(u);
    }
}

/// The entry of a tool call tells its iteration, its id, the name and the
/// arguments as the model wrote them.
pub proof fn law_tool_call_tells(iteration: u32, id: Seq<char>, name: Seq<char>, arguments: Seq<char>)
    ensures
        ({
            let entry = tool_call_log(iteration, id, name, arguments);
            &&& entry.kind == "tool_call"@
            &&& number_field(entry.data, "iteration"@) == Some(iteration as u64)
            &&& text_field(entry.data, "id"@) == Some(id)
            &&& text_field(entry.data, "name"@) == Some(name)
            &&& text_field(entry.data, "arguments"@) == Some(arguments)
        }),
{
    reveal_strlit("iteration");
    reveal_strlit("id");
    reveal_strlit("name");
    reveal_strlit("arguments");
    let members = tool_call_log(iteration, id, name, arguments).data->Object_0;
    assert("iteration"@.len() != "id"@.len());
    assert("iteration"@.len() != "name"@.len());
    assert("id"@.len() != "name"@.len());
    assert("iteration"@[0] != "arguments"@[0]);
    assert("id"@.len() != "arguments"@.len());
    assert("name"@.len() != "arguments"@.len());
    assert(members[0].key == "iteration"@);
    assert(members[1].key == "id"@);
    assert(members[2].key == "name"@);
    assert(members[3].key == "arguments"@);
    lemma_lookup_first(members, 0);
    lemma_lookup_first(members, 1);
    lemma_lookup_first(members, 2);
    lemma_lookup_first(members, 3);
}

/// The entry of a tool result tells its iteration, the id of its call, whether it
/// went well, and the whole text.
pub proof fn law_tool_result_tells(iteration: u32, id: Seq<char>, ok: bool, content: Seq<char>)
    ensures
        ({
            let entry = tool_result_log(iteration, id, ok, content);
            &&& entry.kind == "tool_result"@
            &&& number_field(entry.data, "iteration"@) == Some(iteration as u64)
            &&& text_field(entry.data, "id"@) == Some(id)
            &&& flag_field(entry.data, "ok"@) == Some(ok)
            &&& text_field(entry.data, "content"@) == Some(content)
        }),
{
    reveal_strlit("iteration");
    reveal_strlit("id");
    reveal_strlit("ok");
    reveal_strlit("content");
    let members = tool_result_log(iteration, id, ok, content).data->Object_0;
    assert("iteration"@.len() != "id"@.len());
    assert("iteration"@.len() != "ok"@.len());
    assert("id"@[0] != "ok"@[0]);
    assert("iteration"@.len() != "content"@.len());
    assert("id"@.len() != "content"@.len());
    assert("ok"@.len() != "content"@.len());
    assert(members[0].key == "iteration"@);
    assert(members[1].key == "id"@);
    assert(members[2].key == "ok"@);
    assert(members[3].key == "content"@);
    lemma_lookup_first(members, 0);
    lemma_lookup_first(members, 1);
    lemma_lookup_first(members, 2);
    lemma_lookup_first(members, 3);
}

/// The entry of the final answer tells its iteration and the whole answer.
pub proof fn law_final_answer_tells(iteration: u32, content: Seq<char>)
    ensures
        ({
            let entry = final_answer_log(iteration, content);
            &&& entry.kind == "final_answer"@
            &&& number_field(entry.data, "iteration"@) == Some(iteration as u64)
            &&& text_field(entry.data, "content"@) == Some(content)
        }),
{
    reveal_strlit("iteration");
    reveal_strlit("content");
    let members = final_answer_log(iteration, content).data->Object_0;
    assert("iteration"@.len() != "content"@.len());
    assert(members[0].key == "iteration"@);
    assert(members[1].key == "content"@);
    lemma_lookup_first(members, 0);
    lemma_lookup_first(members, 1);
}

/// The entry of a run's start tells the task, the model, its endpoint, the prompt,
/// every server and how the model is served.
pub proof fn law_run_start_tells(
    task: Seq<char>,
    model: Seq<char>,
    base_url: Seq<char>,
    user_prompt: Seq<char>,
    mcp_servers: Seq<Seq<char>>,
    tool_call_parser: Option<Seq<char>>,
    reasoning_parser: Option<Seq<char>>,
    auto_tool_choice: bool,
)
    ensures
        ({
            let entry = run_start_log(
                task,
                model,
                base_url,
                user_prompt,
                mcp_servers,
                tool_call_parser,
                reasoning_parser,
                auto_tool_choice,
            );
            &&& entry.kind == "run_start"@
            &&& text_field(entry.data, "task"@) == Some(task)
            &&& text_field(entry.data, "model"@) == Some(model)
            &&& text_field(entry.data, "base_url"@) == Some(base_url)
            &&& text_field(entry.data, "user_prompt"@) == Some(user_prompt)
            &&& field(entry.data, "mcp_servers"@) matches Some(JsonView::Array(items)) && items.len()
                == mcp_servers.len() && forall|i: int|
                0 <= i < mcp_servers.len() ==> #[trigger] items[i] == JsonView::Text(mcp_servers[i])
            &&& text_field(entry.data, "tool_call_parser"@) == tool_call_parser
            &&& text_field(entry.data, "reasoning_parser"@) == reasoning_parser
            &&& flag_field(entry.data, "auto_tool_choice"@) == Some(auto_tool_choice)
        }),
{
    reveal_strlit("task");
    reveal_strlit("model");
    reveal_strlit("base_url");
    reveal_strlit("user_prompt");
    reveal_strlit("mcp_servers");
    reveal_strlit("tool_call_parser");
    reveal_strlit("reasoning_parser");
    reveal_strlit("auto_tool_choice");
    let members = run_start_log(
                task,
                model,
                base_url,
                user_prompt,
                mcp_servers,
                tool_call_parser,
                reasoning_parser,
                auto_tool_choice,
            ).data->Object_0;
    assert("task"@.len() != "model"@.len());
    assert("task"@.len() != "base_url"@.len());
    assert("model"@.len() != "base_url"@.len());
    assert("task"@.len() != "user_prompt"@.len());
    assert("model"@.len() != "user_prompt"@.len());
    assert("base_url"@.len() != "user_prompt"@.len());
    assert("task"@.len() != "mcp_servers"@.len());
    assert("model"@.len() != "mcp_servers"@.len());
    assert("base_url"@.len() != "mcp_servers"@.len());
    assert("user_prompt"@[0] != "mcp_servers"@[0]);
    assert("task"@.len() != "tool_call_parser"@.len());
    assert("model"@.len() != "tool_call_parser"@.len());
    assert("base_url"@.len() != "tool_call_parser"@.len());
    assert("user_prompt"@.len() != "tool_call_parser"@.len());
    assert("mcp_servers"@.len() != "tool_call_parser"@.len());
    assert("task"@.len() != "reasoning_parser"@.len());
    assert("model"@.len() != "reasoning_parser"@.len());
    assert("base_url"@.len() != "reasoning_parser"@.len());
    assert("user_prompt"@.len() != "reasoning_parser"@.len());
    assert("mcp_servers"@.len() != "reasoning_parser"@.len());
    assert("tool_call_parser"@[0] != "reasoning_parser"@[0]);
    assert("task"@.len() != "auto_tool_choice"@.len());
    assert("model"@.len() != "auto_tool_choice"@.len());
    assert("base_url"@.len() != "auto_tool_choice"@.len());
    assert("user_prompt"@.len() != "auto_tool_choice"@.len());
    assert("mcp_servers"@.len() != "auto_tool_choice"@.len());
    assert("tool_call_parser"@[0] != "auto_tool_choice"@[0]);
    assert("reasoning_parser"@[0] != "auto_tool_choice"@[0]);
    assert(members[0].key == "task"@);
    assert(members[1].key == "model"@);
    assert(members[2].key == "base_url"@);
    assert(members[3].key == "user_prompt"@);
    assert(members[4].key == "mcp_servers"@);
    assert(members[5].key == "tool_call_parser"@);
    assert(members[6].key == "reasoning_parser"@);
    assert(members[7].key == "auto_tool_choice"@);
    lemma_lookup_first(members, 0);
    lemma_lookup_first(members, 1);
    lemma_lookup_first(members, 2);
    lemma_lookup_first(members, 3);
    lemma_lookup_first(members, 4);
    lemma_lookup_first(members, 5);
    lemma_lookup_first(members, 6);
    lemma_lookup_first(members, 7);
}

/// The end of a run with an answer tells that it went well, how long it took, the
/// tokens and the iterations.
pub proof fn law_completed_run_tells(duration_ms: u64, total_tokens: u32, iterations: u32)
    ensures
        ({
            let entry = run_completed_log(duration_ms, total_tokens, iterations);
            &&& entry.kind == "run_end"@
            &&& flag_field(entry.data, "ok"@) == Some(true)
            &&& number_field(entry.data, "duration_ms"@) == Some(duration_ms as u64)
            &&& number_field(entry.data, "total_tokens"@) == Some(total_tokens as u64)
            &&& number_field(entry.data, "iterations"@) == Some(iterations as u64)
        }),
{
    reveal_strlit("ok");
    reveal_strlit("duration_ms");
    reveal_strlit("total_tokens");
    reveal_strlit("iterations");
    let members = run_completed_log(duration_ms, total_tokens, iterations).data->Object_0;
    assert("ok"@.len() != "duration_ms"@.len());
    assert("ok"@.len() != "total_tokens"@.len());
    assert("duration_ms"@.len() != "total_tokens"@.len());
    assert("ok"@.len() != "iterations"@.len());
    assert("duration_ms"@.len() != "iterations"@.len());
    assert("total_tokens"@.len() != "iterations"@.len());
    assert(members[0].key == "ok"@);
    assert(members[1].key == "duration_ms"@);
    assert(members[2].key == "total_tokens"@);
    assert(members[3].key == "iterations"@);
    lemma_lookup_first(members, 0);
    lemma_lookup_first(members, 1);
    lemma_lookup_first(members, 2);
    lemma_lookup_first(members, 3);
}

/// The end of a run that failed tells so, and why.
pub proof fn law_failed_run_tells(error: Seq<char>)
    ensures
        ({
            let entry = run_failed_log(error);
            &&& entry.kind == "run_end"@
            &&& flag_field(entry.data, "ok"@) == Some(false)
            &&& text_field(entry.data, "error"@) == Some(error)
        }),
{
    reveal_strlit("ok");
    reveal_strlit("error");
    let members = run_failed_log(error).data->Object_0;
    assert("ok"@.len() != "error"@.len());
    assert(members[0].key == "ok"@);
    assert(members[1].key == "error"@);
    lemma_lookup_first(members, 0);
    lemma_lookup_first(members, 1);
}

/// The last event of a stream that failed tells why.
pub proof fn law_error_tells(error: Seq<char>)
    ensures
        ({
            let entry = run_error_log(error);
            &&& entry.kind == "error"@
            &&& text_field(entry.data, "error"@) == Some(error)
        }),
{
    reveal_strlit("error");
    let members = run_error_log(error).data->Object_0;
    assert(members[0].key == "error"@);
    lemma_lookup_first(members, 0);
}

} // verus!
