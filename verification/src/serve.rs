//! What the HTTP server answers, apart from the transport.

use vstd::prelude::*;
use vstd::string::*;

use crate::agent::AgentResult;
use crate::config::{unknown_model_text, DriverConfig, McpServerConfig, ModelConfig, Task};
use crate::events::{event_json, loggable, run_error, run_error_log, Event, LogEntry};
use crate::json::{
    distinct_keys, field, json_text, lemma_lookup_first, lemma_text_array_storable, member,
    number_field, optional, text_array, text_field, Fields, Json, JsonView,
};
use crate::mcp::opt_text;
use crate::text::{decimal, decimal_text, names};

verus! {

/// Shared state across all requests.
#[derive(Debug)]
pub struct AppState {
    pub config: DriverConfig,
}

/// POST /run request body.
#[derive(Debug)]
pub struct RunRequest {
    pub task: Task,
    pub model: String,
}

/// A server in the answer to GET /health.
pub open spec fn server_json(server: McpServerConfig) -> JsonView {
    JsonView::Object(
        seq![
            member("name"@, JsonView::Text(server.name@)),
            member("command"@, JsonView::Text(server.command@)),
            member("alive_check"@, JsonView::Text("not_implemented_yet"@)),
        ],
    )
}

/// The answer to GET /health.
pub open spec fn health_json(config: DriverConfig) -> JsonView {
    JsonView::Object(
        seq![
            member("status"@, JsonView::Text("ok"@)),
            member("models_configured"@, JsonView::Unsigned(config.models@.len() as u64)),
            member(
                "mcp_servers"@,
                JsonView::Array(
                    config.mcp_servers@.map_values(|s: McpServerConfig| server_json(s)),
                ),
            ),
        ],
    )
}

/// A model in the answer to GET /models.
pub open spec fn model_json(model: ModelConfig) -> JsonView {
    JsonView::Object(
        seq![
            member("name"@, JsonView::Text(model.name@)),
            member("model_id"@, JsonView::Text(model.model_id@)),
            member("base_url"@, JsonView::Text(model.base_url@)),
            member("mcp_servers"@, text_array(names(model.mcp_servers@))),
            member("tool_call_parser"@, optional(opt_text(model.tool_call_parser))),
            member("reasoning_parser"@, optional(opt_text(model.reasoning_parser))),
        ],
    )
}

/// The answer to GET /models.
pub open spec fn models_json(config: DriverConfig) -> JsonView {
    JsonView::Array(config.models@.map_values(|m: ModelConfig| model_json(m)))
}

/// A server in the answer to GET /health.
fn describe_server(server: &McpServerConfig) -> (json: Json)
    ensures
        json@ == server_json(*server),
        distinct_keys(json@),
{
    let json = Fields::new().with("name", Json::text(server.name.as_str())).with(
        "command",
        Json::text(server.command.as_str()),
    ).with("alive_check", Json::text("not_implemented_yet")).object();
    proof {
        reveal_strlit("name");
        reveal_strlit("command");
        reveal_strlit("alive_check");
        let members = server_json(*server)->Object_0;
        assert(json@->Object_0 =~= members);
        assert(members[0].key == "name"@);
        assert(members[1].key == "command"@);
        assert(members[2].key == "alive_check"@);
        assert forall|i: int| 0 <= i < members.len() implies distinct_keys(
            (#[trigger] members[i]).value,
        ) by {}
    }
    json
}

/// GET /health
pub fn health(state: &AppState) -> (body: Json)
    ensures
        body@ == health_json(state.config),
        distinct_keys(body@),
{
    let mut servers: Vec<Json> = Vec::new();
    let mut i: usize = 0;
    while i < state.config.mcp_servers.len()
        invariant
            i <= state.config.mcp_servers@.len(),
            servers@.len() == i,
            forall|k: int|
                0 <= k < i ==> (#[trigger] servers@[k])@ == server_json(
                    state.config.mcp_servers@[k],
                ) && distinct_keys(servers@[k]@),
        decreases state.config.mcp_servers@.len() - i,
    {
        servers.push(describe_server(&state.config.mcp_servers[i]));
        i += 1;
    }
    let list = Json::Array(servers);
    let count: u64 = state.config.models.len() as u64;
    proof {
        let items = health_json(state.config)->Object_0[2].value->Array_0;
        assert(list@->Array_0 =~= items);
        assert forall|k: int| 0 <= k < items.len() implies distinct_keys(#[trigger] items[k]) by {
            assert(items[k] == servers@[k]@);
        }
    }
    let body = Fields::new().with("status", Json::text("ok")).with(
        "models_configured",
        Json::Unsigned(count),
    ).with("mcp_servers", list).object();
    proof {
        reveal_strlit("status");
        reveal_strlit("models_configured");
        reveal_strlit("mcp_servers");
        let members = health_json(state.config)->Object_0;
        assert(body@->Object_0 =~= members);
        assert(members[0].key == "status"@);
        assert(members[1].key == "models_configured"@);
        assert(members[2].key == "mcp_servers"@);
        assert forall|i: int| 0 <= i < members.len() implies distinct_keys(
            (#[trigger] members[i]).value,
        ) by {}
    }
    body
}

/// A model in the answer to GET /models.
fn describe_model(model: &ModelConfig) -> (json: Json)
    ensures
        json@ == model_json(*model),
        distinct_keys(json@),
{
    let json = Fields::new().with("name", Json::text(model.name.as_str())).with(
        "model_id",
        Json::text(model.model_id.as_str()),
    ).with("base_url", Json::text(model.base_url.as_str())).with(
        "mcp_servers",
        Json::texts(&model.mcp_servers),
    ).with("tool_call_parser", Json::optional_text(&model.tool_call_parser)).with(
        "reasoning_parser",
        Json::optional_text(&model.reasoning_parser),
    ).object();
    proof {
        reveal_strlit("name");
        reveal_strlit("model_id");
        reveal_strlit("base_url");
        reveal_strlit("mcp_servers");
        reveal_strlit("tool_call_parser");
        reveal_strlit("reasoning_parser");
        let members = model_json(*model)->Object_0;
        assert(json@->Object_0 =~= members);
        assert(members[0].key == "name"@);
        assert(members[1].key == "model_id"@);
        assert(members[2].key == "base_url"@);
        assert(members[3].key == "mcp_servers"@);
        assert(members[4].key == "tool_call_parser"@);
        assert(members[5].key == "reasoning_parser"@);
        assert("model_id"@[0] != "base_url"@[0]);
        assert("tool_call_parser"@[0] != "reasoning_parser"@[0]);
        lemma_text_array_storable(names(model.mcp_servers@));
        assert forall|i: int| 0 <= i < members.len() implies distinct_keys(
            (#[trigger] members[i]).value,
        ) by {}
    }
    json
}

/// GET /models
pub fn models(state: &AppState) -> (body: Json)
    ensures
        body@ == models_json(state.config),
        distinct_keys(body@),
{
    let mut list: Vec<Json> = Vec::new();
    let mut i: usize = 0;
    while i < state.config.models.len()
        invariant
            i <= state.config.models@.len(),
            list@.len() == i,
            forall|k: int|
                0 <= k < i ==> (#[trigger] list@[k])@ == model_json(state.config.models@[k])
                    && distinct_keys(list@[k]@),
        decreases state.config.models@.len() - i,
    {
        list.push(describe_model(&state.config.models[i]));
        i += 1;
    }
    let body = Json::Array(list);
    proof {
        let items = models_json(state.config)->Array_0;
        assert(body@->Array_0 =~= items);
        assert forall|k: int| 0 <= k < items.len() implies distinct_keys(#[trigger] items[k]) by {
            assert(items[k] == list@[k]@);
        }
    }
    body
}

/// An answer that refuses a request.
#[derive(Debug)]
pub struct Refusal {
    pub status: u16,
    pub body: Json,
}

/// POST /run: the task to run, with the model that the request names. A model
/// that is not configured is refused.
pub fn accept_run(state: &AppState, request: RunRequest) -> (accepted: Result<Task, Refusal>)
    ensures
        accepted is Ok <==> state.config.has_model(request.model@),
        accepted matches Ok(task) ==> task == (Task { model: request.model, ..request.task }),
        accepted matches Err(refusal) ==> {
            &&& refusal.status == 400
            &&& refusal.body@ == JsonView::Object(
                seq![member("error"@, JsonView::Text(unknown_model_text(request.model@)))],
            )
            &&& distinct_keys(refusal.body@)
        },
{
    match state.config.find_model(request.model.as_str()) {
        Ok(_) => Ok(
            Task {
                name: request.task.name,
                model: request.model,
                mcp_servers: request.task.mcp_servers,
                system_prompt: request.task.system_prompt,
                user_prompt: request.task.user_prompt,
                max_iterations: request.task.max_iterations,
                tool_filter: request.task.tool_filter,
            },
        ),
        Err(error) => {
            let body = Fields::new().with("error", Json::text(error.message().as_str())).object();
            assert(body@->Object_0 =~= seq![
                member("error"@, JsonView::Text(unknown_model_text(request.model@))),
            ]);
            assert(distinct_keys(body@->Object_0[0].value));
            Err(Refusal { status: 400, body })
        },
    }
}

/// One message of an event stream.
#[derive(Debug)]
pub struct StreamMessage {
    pub event: String,
    pub data: String,
}

/// An event as a message of the stream: its kind, and its line as data. Without
/// a line the data are empty.
pub fn stream_message(event: &Event) -> (message: StreamMessage)
    requires
        distinct_keys(event.data@),
    ensures
        message.event@ == event.kind@,
        message.data@ == (match event_json(event.ts@, event.kind@, event.data@) {
            Some(json) => json_text(json),
            None => Seq::empty(),
        }),
{
    let data = match event.line() {
        Ok(line) => line,
        Err(_) => String::new(),
    };
    StreamMessage { event: event.kind.clone(), data }
}

/// What closes the stream of a run: an error event where the run failed.
pub fn closing_entry(outcome: &Result<AgentResult, String>) -> (entry: Option<LogEntry>)
    ensures
        match *outcome {
            Ok(_) => entry is None,
            Err(error) => entry matches Some(e) && e@ == run_error_log(error@) && loggable(e.data@),
        },
{
    match outcome {
        Ok(_) => None,
        Err(error) => Some(run_error(error.as_str())),
    }
}

/// The address that the server listens on.
pub fn listen_address(bind: &str, port: u16) -> (address: String)
    ensures
        address@ == bind@ + ":"@ + decimal(port as nat),
{
    bind.to_owned().concat(":").concat(decimal_text(port as u64).as_str())
}

/// The answer to GET /health tells that all is well, how many models there are, and
/// each server with its name and its command, in their order.
pub proof fn law_health_tells_every_server(config: DriverConfig)
    ensures
        ({
            let body = health_json(config);
            &&& text_field(body, "status"@) == Some("ok"@)
            &&& number_field(body, "models_configured"@) == Some(config.models@.len() as u64)
            &&& field(body, "mcp_servers"@) matches Some(JsonView::Array(items)) && items.len()
                == config.mcp_servers@.len() && forall|k: int|
                0 <= k < items.len() ==> {
                    &&& text_field(#[trigger] items[k], "name"@) == Some(
                        config.mcp_servers@[k].name@,
                    )
                    &&& text_field(items[k], "command"@) == Some(config.mcp_servers@[k].command@)
                    &&& text_field(items[k], "alive_check"@) == Some("not_implemented_yet"@)
                }
        }),
{
    reveal_strlit("status");
    reveal_strlit("models_configured");
    reveal_strlit("mcp_servers");
    let members = health_json(config)->Object_0;
    assert("status"@.len() != "models_configured"@.len());
    assert("status"@.len() != "mcp_servers"@.len());
    assert("models_configured"@.len() != "mcp_servers"@.len());
    assert(members[0].key == "status"@);
    assert(members[1].key == "models_configured"@);
    assert(members[2].key == "mcp_servers"@);
    lemma_lookup_first(members, 0);
    lemma_lookup_first(members, 1);
    lemma_lookup_first(members, 2);
    let items = members[2].value->Array_0;
    assert forall|k: int| 0 <= k < items.len() implies {
        &&& text_field(#[trigger] items[k], "name"@) == Some(config.mcp_servers@[k].name@)
        &&& text_field(items[k], "command"@) == Some(config.mcp_servers@[k].command@)
        &&& text_field(items[k], "alive_check"@) == Some("not_implemented_yet"@)
    } by {
        lemma_server_json(config.mcp_servers@[k]);
    }
}

proof fn lemma_server_json(server: McpServerConfig)
    ensures
        text_field(server_json(server), "name"@) == Some(server.name@),
        text_field(server_json(server), "command"@) == Some(server.command@),
        text_field(server_json(server), "alive_check"@) == Some("not_implemented_yet"@),
{
    reveal_strlit("name");
    reveal_strlit("command");
    reveal_strlit("alive_check");
    let members = server_json(server)->Object_0;
    assert("name"@.len() != "command"@.len());
    assert("name"@.len() != "alive_check"@.len());
    assert("command"@.len() != "alive_check"@.len());
    assert(members[0].key == "name"@);
    assert(members[1].key == "command"@);
    assert(members[2].key == "alive_check"@);
    lemma_lookup_first(members, 0);
    lemma_lookup_first(members, 1);
    lemma_lookup_first(members, 2);
}

/// The answer to GET /models tells each model in its order: its name, what it is
/// called at its endpoint, the endpoint, its servers and its parsers.
pub proof fn law_models_are_told(config: DriverConfig)
    ensures
        models_json(config) matches JsonView::Array(items) && items.len() == config.models@.len()
            && forall|k: int|
            0 <= k < items.len() ==> tells_model(#[trigger] items[k], config.models@[k]),
{
    let items = models_json(config)->Array_0;
    assert forall|k: int| 0 <= k < items.len() implies tells_model(
        #[trigger] items[k],
        config.models@[k],
    ) by {
        lemma_model_json(config.models@[k]);
    }
}

/// A JSON value tells of a model, each setting under its name.
pub open spec fn tells_model(json: JsonView, model: ModelConfig) -> bool {
    &&& text_field(json, "name"@) == Some(model.name@)
    &&& text_field(json, "model_id"@) == Some(model.model_id@)
    &&& text_field(json, "base_url"@) == Some(model.base_url@)
    &&& field(json, "mcp_servers"@) matches Some(JsonView::Array(items)) && items.len()
        == model.mcp_servers@.len() && forall|k: int|
        0 <= k < items.len() ==> #[trigger] items[k] == JsonView::Text(model.mcp_servers@[k]@)
    &&& text_field(json, "tool_call_parser"@) == opt_text(model.tool_call_parser)
    &&& text_field(json, "reasoning_parser"@) == opt_text(model.reasoning_parser)
}

proof fn lemma_model_json(model: ModelConfig)
    ensures
        tells_model(model_json(model), model),
{
    reveal_strlit("name");
    reveal_strlit("model_id");
    reveal_strlit("base_url");
    reveal_strlit("mcp_servers");
    reveal_strlit("tool_call_parser");
    reveal_strlit("reasoning_parser");
    let members = model_json(model)->Object_0;
    assert("name"@.len() != "model_id"@.len());
    assert("name"@.len() != "base_url"@.len());
    assert("model_id"@[0] != "base_url"@[0]);
    assert("name"@.len() != "mcp_servers"@.len());
    assert("model_id"@.len() != "mcp_servers"@.len());
    assert("base_url"@.len() != "mcp_servers"@.len());
    assert("name"@.len() != "tool_call_parser"@.len());
    assert("model_id"@.len() != "tool_call_parser"@.len());
    assert("base_url"@.len() != "tool_call_parser"@.len());
    assert("mcp_servers"@.len() != "tool_call_parser"@.len());
    assert("name"@.len() != "reasoning_parser"@.len());
    assert("model_id"@.len() != "reasoning_parser"@.len());
    assert("base_url"@.len() != "reasoning_parser"@.len());
    assert("mcp_servers"@.len() != "reasoning_parser"@.len());
    assert("tool_call_parser"@[0] != "reasoning_parser"@[0]);
    assert(members[0].key == "name"@);
    assert(members[1].key == "model_id"@);
    assert(members[2].key == "base_url"@);
    assert(members[3].key == "mcp_servers"@);
    assert(members[4].key == "tool_call_parser"@);
    assert(members[5].key == "reasoning_parser"@);
    lemma_lookup_first(members, 0);
    lemma_lookup_first(members, 1);
    lemma_lookup_first(members, 2);
    lemma_lookup_first(members, 3);
    lemma_lookup_first(members, 4);
    lemma_lookup_first(members, 5);
}

} // verus!
