//! A run from its task to its end: connect the MCP servers, run the agent
//! loop, tell of the end.
//!
//! Like [`Agent`], a [`Run`] decides and never waits.

use vstd::prelude::*;
use vstd::string::*;

use crate::agent::{
    after_reply, after_tool, agent_error_text, conversation_kept, counts_all,
    law_answer_ends_the_loop, law_counts_are_sums,
    law_calls_are_made_in_turn, law_calls_are_taken_up, law_loop_begins_with_the_prompts,
    law_tool_keeps_conversation, outcome_text, started, steady, steps_left, token_sum, tool_message, usage_fits, ActionView, Agent,
    AgentAction, AgentResult, AgentStep, AgentView, Phase, ResultView, ToolOutcome, Transition,
};
use crate::config::{
    first_model, first_server, unknown_server_text, ConfigError, DriverConfig, McpServerConfig,
    ModelConfig, Task,
};
use crate::events::{
    law_completed_run_tells, law_failed_run_tells, law_run_start_tells, law_tool_result_tells,
    log_views, loggable, run_completed, run_completed_log, run_failed, run_failed_log, run_start,
    run_start_log, LogEntry, LogView,
};
use crate::filter::{admitted, can_select, portable_choice, selectable};
use crate::json::{
    distinct_keys, field, flag_field, json_parse, number_field, text_field, Json, JsonView,
};
use crate::mcp::{opt_text, tool_views, McpTool, McpToolView};
use crate::openai::{
    offered, ChatCompletionRequest, ChatCompletionResponse, OpenAIToolView, RequestView,
    ToolCallView, Usage,
};
use crate::registry::{
    collision_views, offers, server_added, with_tools, Collision, CollisionView, Registered,
    ToolRegistry, ToolTable,
};
use crate::text::{lemma_shows_between, names, same_text, shows};

verus! {

/// The servers of a run: those of the task, or else the model's.
pub open spec fn wanted_servers(task: Task, model: ModelConfig) -> Seq<String> {
    match task.mcp_servers {
        Some(list) => list@,
        None => model.mcp_servers@,
    }
}

/// The tool filter of a run: that of the task, or else the model's.
pub open spec fn wanted_filter(task: Task, model: ModelConfig) -> Seq<String> {
    match task.tool_filter {
        Some(list) => list@,
        None => model.tool_filter@,
    }
}

/// The system prompt of a run: that of the task, or else the default one.
pub open spec fn wanted_prompt(task: Task, default: Seq<char>) -> Seq<char> {
    match task.system_prompt {
        Some(prompt) => prompt@,
        None => default,
    }
}

/// The system prompt where neither the task nor a file gives one.
pub open spec fn built_in_prompt() -> Seq<char> {
    "You are an agent with access to browser automation tools. When asked to find information online, use the tools to navigate and extract content. Provide a clear final answer once you have what you need."@
}

/// The default system prompt: what its file holds, where it could be read.
pub fn default_system_prompt(file: Option<String>) -> (prompt: String)
    ensures
        prompt@ == (match opt_text(file) {
            Some(text) => text,
            None => built_in_prompt(),
        }),
{
    match file {
        Some(text) => text,
        None => "You are an agent with access to browser automation tools. When asked to find information online, use the tools to navigate and extract content. Provide a clear final answer once you have what you need.".to_owned(),
    }
}

/// Why a server could not be connected.
#[derive(Debug)]
pub enum ConnectFailure {
    /// Its process could not be started, and why.
    Spawn(String),
    /// It did not complete the handshake.
    Initialize,
    /// It did not list its tools.
    ListTools,
}

/// The message for a server that could not be connected.
pub open spec fn connect_failure_text(failure: ConnectFailure, server: Seq<char>) -> Seq<char> {
    match failure {
        ConnectFailure::Spawn(error) => error@,
        ConnectFailure::Initialize => "MCP initialize handshake with '"@ + server + "'"@,
        ConnectFailure::ListTools => "tools/list from '"@ + server + "'"@,
    }
}

impl ConnectFailure {
    /// The message for the log.
    pub fn message(&self, server: &str) -> (text: String)
        ensures
            text@ == connect_failure_text(*self, server@),
    {
        match self {
            ConnectFailure::Spawn(error) => error.clone(),
            ConnectFailure::Initialize => "MCP initialize handshake with '".to_owned().concat(
                server,
            ).concat("'"),
            ConnectFailure::ListTools => "tools/list from '".to_owned().concat(server).concat("'"),
        }
    }
}

/// A run.
#[derive(Debug)]
pub struct Run<'a> {
    config: &'a DriverConfig,
    task: &'a Task,
    model: &'a ModelConfig,
    prompt: String,
    connected: usize,
    registry: ToolRegistry,
    agent: Option<Agent>,
}

/// The mathematical form of a [`Run`].
#[verifier::ext_equal]
pub struct RunView {
    pub config: DriverConfig,
    pub task: Task,
    pub model: ModelConfig,
    /// The system prompt.
    pub prompt: Seq<char>,
    /// How many servers are connected.
    pub connected: nat,
    /// The servers whose clients are to be shut down.
    pub servers: Set<Seq<char>>,
    pub tools: ToolTable,
    /// The collisions of tool names so far.
    pub collisions: Seq<CollisionView>,
    /// The agent loop, once it runs.
    pub agent: Option<AgentView>,
}

/// What to do next.
#[derive(Debug)]
pub enum RunAction<'a> {
    /// Start the server and list its tools, then go on with
    /// [`Run::on_listing`].
    Connect(&'a McpServerConfig),
    /// Send the request, then go on with [`Run::on_reply`].
    Chat(ChatCompletionRequest),
    /// Make the call, then go on with [`Run::on_result`].
    CallTool(ServerCall),
    /// Shut the servers down: the run has ended, with an answer or with the
    /// message of an error.
    Close(Result<AgentResult, String>),
    /// Give up before the loop has begun, with the message of an error.
    Abort(String),
}

/// A tool call to make: the server, the tool's name there and its arguments.
#[derive(Debug)]
pub struct ServerCall {
    pub server: String,
    pub tool: String,
    pub arguments: Json,
}

/// The mathematical form of a [`RunAction`].
#[verifier::ext_equal]
pub enum RunActionView {
    Connect(McpServerConfig),
    Chat(RequestView),
    CallTool(Seq<char>, Seq<char>, JsonView),
    Close(Result<ResultView, Seq<char>>),
    Abort(Seq<char>),
}

impl View for RunAction<'_> {
    type V = RunActionView;

    open spec fn view(&self) -> RunActionView {
        match self {
            RunAction::Connect(server) => RunActionView::Connect(**server),
            RunAction::Chat(request) => RunActionView::Chat(request@),
            RunAction::CallTool(call) => RunActionView::CallTool(
                call.server@,
                call.tool@,
                call.arguments@,
            ),
            RunAction::Close(Ok(result)) => RunActionView::Close(Ok(result@)),
            RunAction::Close(Err(error)) => RunActionView::Close(Err(error@)),
            RunAction::Abort(error) => RunActionView::Abort(error@),
        }
    }
}

/// One step of a run: what to log, in order, and then what to do.
#[derive(Debug)]
pub struct RunStep<'a> {
    pub log: Vec<LogEntry>,
    pub action: RunAction<'a>,
}

impl RunStep<'_> {
    /// What is logged can be written and read back, and the arguments of a call
    /// can be sent.
    pub open spec fn sound(self) -> bool {
        &&& forall|i: int| 0 <= i < self.log@.len() ==> loggable((#[trigger] self.log@[i]).data@)
        &&& self.action matches RunAction::CallTool(call) ==> distinct_keys(call.arguments@)
    }
}

/// The state after a step, and what the step says.
#[verifier::ext_equal]
pub struct RunTransition {
    pub run: RunView,
    pub log: Seq<LogView>,
    pub action: RunActionView,
}

/// A call reaches a server: the one that owns the tool of that name, under the
/// tool's own name there. The arguments are those that the call's text says, or
/// none where it is no JSON.
pub open spec fn reaches(
    tools: ToolTable,
    call: ToolCallView,
    server: Seq<char>,
    tool: Seq<char>,
    arguments: JsonView,
) -> bool {
    &&& tools.contains_key(call.name)
    &&& server == tools[call.name].owner
    &&& tool == tools[call.name].tool.name
    &&& json_parse(call.arguments) matches Some(json) ==> arguments == json
    &&& json_parse(call.arguments) is None ==> arguments == JsonView::Object(Seq::empty())
}

/// A call of a run is the one that the model waits for, and reaches its server.
pub open spec fn routed(
    run: RunView,
    server: Seq<char>,
    tool: Seq<char>,
    arguments: JsonView,
) -> bool {
    run.agent matches Some(agent) && agent.answered < agent.calls.len() && reaches(
        run.tools,
        agent.calls[agent.answered as int],
        server,
        tool,
        arguments,
    )
}

/// The run is where an action leaves it: it waits for the outcome of that
/// action. A call goes to a connected server, the one that owns the tool.
pub open spec fn awaits(run: RunView, action: RunActionView) -> bool {
    &&& in_place(run, action)
    &&& action matches RunActionView::CallTool(server, tool, arguments) ==> routed(
        run,
        server,
        tool,
        arguments,
    )
}

/// The run waits for what an action brings. A call goes to a connected server.
pub open spec fn in_place(run: RunView, action: RunActionView) -> bool {
    match action {
        RunActionView::Connect(_) => run.agent is None && run.connected < wanted_servers(
            run.task,
            run.model,
        ).len(),
        RunActionView::Chat(_) => run.agent matches Some(agent) && agent.phase == Phase::Reply,
        RunActionView::CallTool(server, _, _) => run.servers.contains(server) && (
        run.agent matches Some(agent) && agent.phase == Phase::Tool),
        _ => true,
    }
}

/// A step of the agent loop, and the steps after it as long as the model asks
/// for tools that nobody has: it is told so, and no server is called.
pub open spec fn resolved(tools: ToolTable, step: Transition) -> Transition
    decreases steps_left(step.agent),
{
    match step.action {
        ActionView::CallTool(name, _) => if !tools.contains_key(name) && steady(step.agent)
            && step.agent.phase == Phase::Tool {
            let next = after_tool(step.agent, false, "Error: "@ + ("unknown tool: "@ + name));
            resolved(tools, Transition { log: step.log + next.log, ..next })
        } else {
            step
        },
        _ => step,
    }
}

/// What a step of the agent loop means for the run. A call goes to the server
/// that owns the tool, under the tool's name there; the end is told.
pub open spec fn concluded(run: RunView, step: Transition) -> RunTransition {
    let to = RunView { agent: Some(step.agent), ..run };
    match step.action {
        ActionView::Chat(request) => RunTransition {
            run: to,
            log: step.log,
            action: RunActionView::Chat(request),
        },
        ActionView::CallTool(name, arguments) => {
            let owner = run.tools[name].owner;
            RunTransition {
                run: to,
                log: step.log,
                action: RunActionView::CallTool(owner, run.tools[name].tool.name, arguments),
            }
        },
        ActionView::Finish(result) => RunTransition {
            run: to,
            log: step.log.push(
                run_completed_log(
                    result.duration_ms,
                    result.total_usage.total_tokens,
                    result.iterations,
                ),
            ),
            action: RunActionView::Close(Ok(result)),
        },
        ActionView::Fail(error) => RunTransition {
            run: to,
            log: step.log.push(run_failed_log(agent_error_text(error))),
            action: RunActionView::Close(Err(agent_error_text(error))),
        },
    }
}

/// The next server to connect or, once all are, the agent loop with the tools
/// in the order in which they are offered.
pub open spec fn advanced(run: RunView, order: Seq<OpenAIToolView>, to: RunTransition) -> bool {
    let wanted = names(wanted_servers(run.task, run.model));
    if run.connected < wanted.len() {
        let name = wanted[run.connected as int];
        &&& to.run == run
        &&& to.log == Seq::<LogView>::empty()
        &&& if run.config.has_server(name) {
            exists|i: int| #[trigger]
                first_server(run.config.mcp_servers@, name, i) && to.action
                    == RunActionView::Connect(run.config.mcp_servers@[i])
        } else {
            to.action == RunActionView::Abort(unknown_server_text(name))
        }
    } else {
        to == concluded(
            run,
            resolved(run.tools, started(run.task, run.model, order, run.prompt)),
        )
    }
}

/// The log entry that opens a run.
pub open spec fn opening_log(task: Task, model: ModelConfig) -> LogView {
    run_start_log(
        task.name@,
        model.name@,
        model.base_url@,
        task.user_prompt@,
        names(wanted_servers(task, model)),
        opt_text(model.tool_call_parser),
        opt_text(model.reasoning_parser),
        model.auto_tool_choice,
    )
}

/// A run that has connected nothing.
pub open spec fn fresh_run(
    config: DriverConfig,
    task: Task,
    model: ModelConfig,
    prompt: Seq<char>,
) -> RunView {
    RunView {
        config,
        task,
        model,
        prompt,
        connected: 0,
        servers: Set::empty(),
        tools: Map::empty(),
        collisions: Seq::empty(),
        agent: None,
    }
}

/// The run `after` is `before` with one server more and those of its tools that
/// the filter lets through.
pub open spec fn connects(
    before: RunView,
    name: Seq<char>,
    list: Seq<McpToolView>,
    after: RunView,
) -> bool {
    &&& after == RunView {
        connected: before.connected + 1,
        servers: before.servers.insert(name),
        tools: after.tools,
        collisions: after.collisions,
        ..before
    }
    &&& after.collisions.len() >= before.collisions.len()
    &&& after.collisions.take(before.collisions.len() as int) == before.collisions
    &&& server_added(
        before.tools,
        after.tools,
        after.collisions.skip(before.collisions.len() as int),
        name,
        list,
        wanted_filter(before.task, before.model),
    )
}

/// What a listing of the next server leads to: its tools are added and the run
/// goes on, or the run is given up.
pub open spec fn listed(
    run: RunView,
    listing: Result<Vec<McpTool>, ConnectFailure>,
    to: RunTransition,
) -> bool {
    let name = wanted_servers(run.task, run.model)[run.connected as int]@;
    match listing {
        Ok(tools) => exists|middle: RunView, order: Seq<OpenAIToolView>|
            {
                &&& connects(run, name, tool_views(tools@), middle)
                &&& offers(middle.tools, order)
                &&& #[trigger] advanced(middle, order, to)
            },
        Err(failure) => {
            &&& to.run == run
            &&& to.log == Seq::<LogView>::empty()
            &&& to.action == RunActionView::Abort(connect_failure_text(failure, name))
        },
    }
}

/// The run of a task begins with the model at this index, and goes on so.
pub open spec fn begins(
    config: DriverConfig,
    task: Task,
    default_prompt: Seq<char>,
    i: int,
    order: Seq<OpenAIToolView>,
    to: RunTransition,
) -> bool {
    let prompt = wanted_prompt(task, default_prompt);
    &&& first_model(config.models@, task.model@, i)
    &&& offers(Map::empty(), order)
    &&& advanced(fresh_run(config, task, config.models@[i], prompt), order, to)
}

/// Two lists of entries, one after the other.
proof fn lemma_log_views_append(first: Seq<LogEntry>, then: Seq<LogEntry>)
    ensures
        log_views(first + then) == log_views(first) + log_views(then),
{
    assert(log_views(first + then) =~= log_views(first) + log_views(then));
}

/// Only tools that some server has are called.
pub proof fn law_only_known_tools_are_called(tools: ToolTable, step: Transition)
    requires
        steady(step.agent),
        step.action is CallTool <==> step.agent.phase == Phase::Tool,
    ensures
        ({
            let to = resolved(tools, step);
            &&& steady(to.agent)
            &&& to.action is CallTool <==> to.agent.phase == Phase::Tool
            &&& to.action matches ActionView::CallTool(name, _) ==> tools.contains_key(name)
        }),
    decreases steps_left(step.agent),
{
    if let ActionView::CallTool(name, _) = step.action {
        if !tools.contains_key(name) {
            let next = after_tool(step.agent, false, "Error: "@ + ("unknown tool: "@ + name));
            law_only_known_tools_are_called(tools, Transition { log: step.log + next.log, ..next });
        }
    }
}

impl<'a> View for Run<'a> {
    type V = RunView;

    closed spec fn view(&self) -> RunView {
        RunView {
            config: *self.config,
            task: *self.task,
            model: *self.model,
            prompt: self.prompt@,
            connected: self.connected as nat,
            servers: self.registry.servers(),
            tools: self.registry.tools(),
            collisions: self.registry.noted(),
            agent: match self.agent {
                Some(agent) => Some(agent@),
                None => None,
            },
        }
    }
}

impl<'a> Run<'a> {
    /// The state is one that a run can be in.
    pub closed spec fn well_formed(self) -> bool {
        &&& self.registry.well_formed()
        &&& self.registry.owned()
        &&& self.connected <= wanted_servers(*self.task, *self.model).len()
        &&& self.agent matches Some(agent) ==> agent.well_formed()
    }

    /// The servers to connect.
    fn server_names(&self) -> (list: &Vec<String>)
        ensures
            list@ == wanted_servers(self@.task, self@.model),
    {
        match &self.task.mcp_servers {
            Some(list) => list,
            None => &self.model.mcp_servers,
        }
    }

    /// The tool filter.
    pub fn tool_filter(&self) -> (list: &Vec<String>)
        ensures
            list@ == wanted_filter(self@.task, self@.model),
    {
        match &self.task.tool_filter {
            Some(list) => list,
            None => &self.model.tool_filter,
        }
    }

    /// The model of the run.
    pub fn model(&self) -> (model: &'a ModelConfig)
        ensures
            *model == self@.model,
    {
        self.model
    }

    /// Number of registered tools.
    pub fn tool_count(&self) -> (count: usize)
        requires
            self.well_formed(),
        ensures
            count == self@.tools.len(),
    {
        self.registry.tool_count()
    }

    /// The collisions of tool names so far, in their order.
    pub fn collisions(&self) -> (collisions: &Vec<Collision>)
        ensures
            collision_views(collisions@) == self@.collisions,
    {
        self.registry.collisions()
    }

    /// The tokens used so far, once the agent loop runs.
    pub fn total_usage(&self) -> (usage: Option<Usage>)
        ensures
            usage == (match self@.agent {
                Some(agent) => Some(agent.usage),
                None => None,
            }),
    {
        match &self.agent {
            Some(agent) => Some(agent.total_usage()),
            None => None,
        }
    }

    /// Ends the run: the servers whose clients are to be shut down, each once.
    pub fn close(self) -> (servers: Vec<String>)
        requires
            self.well_formed(),
        ensures
            names(servers@).no_duplicates(),
            names(servers@).to_set() == self@.servers,
    {
        self.registry.shutdown_all()
    }

    /// What a step of the agent loop means for the run.
    fn conclude(&mut self, agent: Agent, step: AgentStep) -> (to: RunStep<'a>)
        requires
            old(self).well_formed(),
            agent.well_formed(),
            step.sound(),
            step.action is CallTool <==> agent@.phase == Phase::Tool,
            step.action is Chat ==> agent@.phase == Phase::Reply,
        ensures
            final(self).well_formed(),
            to.sound(),
            in_place(final(self)@, to.action@),
            (step.action is CallTool ==> pending(agent@, step.action@)) ==> awaits(
                final(self)@,
                to.action@,
            ),
            ({
                let taken = Transition {
                    agent: agent@,
                    log: log_views(step.log@),
                    action: step.action@,
                };
                let meant = concluded(old(self)@, resolved(old(self)@.tools, taken));
                &&& final(self)@ == meant.run
                &&& log_views(to.log@) == meant.log
                &&& to.action@ == meant.action
            }),
    {
        let ghost before = self@;
        let ghost whole = resolved(
            before.tools,
            Transition { agent: agent@, log: log_views(step.log@), action: step.action@ },
        );
        let mut current = agent;
        let mut log = step.log;
        let mut action = step.action;
        loop
            invariant
                *self == *old(self),
                self.well_formed(),
                before == self@,
                current.well_formed(),
                (AgentStep { log, action }).sound(),
                action is CallTool <==> current@.phase == Phase::Tool,
                (step.action is CallTool ==> pending(agent@, step.action@)) ==> (
                action is CallTool ==> pending(current@, action@)),
                action is Chat ==> current@.phase == Phase::Reply,
                whole == resolved(
                    before.tools,
                    Transition { agent: agent@, log: log_views(step.log@), action: step.action@ },
                ),
                whole == resolved(
                    before.tools,
                    Transition { agent: current@, log: log_views(log@), action: action@ },
                ),
            decreases steps_left(current@),
        {
            let ghost at = Transition { agent: current@, log: log_views(log@), action: action@ };
            assert(!(action@ is CallTool) ==> whole == at);
            match action {
                AgentAction::Chat(request) => {
                    self.agent = Some(current);
                    assert(self@ =~= concluded(before, whole).run);
                    return RunStep { log, action: RunAction::Chat(request) };
                },
                AgentAction::CallTool(call) => match self.registry.dispatch(call.name.as_str()) {
                    Ok(route) => {
                        self.agent = Some(current);
                        return RunStep {
                            log,
                            action: RunAction::CallTool(
                                ServerCall {
                                    server: route.server,
                                    tool: route.tool,
                                    arguments: call.arguments,
                                },
                            ),
                        };
                    },
                    Err(error) => {
                        let mut next = current.on_tool_outcome(ToolOutcome::Failed(error.message()));
                        proof {
                            lemma_log_views_append(log@, next.log@);
                        }
                        log.append(&mut next.log);
                        action = next.action;
                    },
                },
                AgentAction::Finish(result) => {
                    let ghost told = log@;
                    log.push(
                        run_completed(
                            result.duration_ms,
                            result.total_usage.total_tokens,
                            result.iterations,
                        ),
                    );
                    assert(log_views(log@) =~= log_views(told).push(log@.last()@));
                    self.agent = Some(current);
                    assert(self@ =~= concluded(before, whole).run);
                    return RunStep { log, action: RunAction::Close(Ok(result)) };
                },
                AgentAction::Fail(error) => {
                    let message = error.message();
                    let ghost told = log@;
                    log.push(run_failed(message.as_str()));
                    assert(log_views(log@) =~= log_views(told).push(log@.last()@));
                    self.agent = Some(current);
                    assert(self@ =~= concluded(before, whole).run);
                    return RunStep { log, action: RunAction::Close(Err(message)) };
                },
            }
        }
    }

    /// Connects the next server or, once all are, begins the agent loop.
    fn advance(&mut self) -> (to: RunStep<'a>)
        requires
            old(self).well_formed(),
            old(self)@.agent is None,
        ensures
            final(self).well_formed(),
            to.sound(),
            awaits(final(self)@, to.action@),
            exists|order: Seq<OpenAIToolView>|
                offers(old(self)@.tools, order) && #[trigger] advanced(
                    old(self)@,
                    order,
                    RunTransition {
                        run: final(self)@,
                        log: log_views(to.log@),
                        action: to.action@,
                    },
                ),
    {
        let ghost before = self@;
        let tools = self.registry.to_openai_tools();
        let ghost order = offered(tools@);
        if self.connected < self.server_names().len() {
            let name = self.server_names()[self.connected].as_str();
            assert(names(wanted_servers(before.task, before.model))[before.connected as int]
                == name@);
            let log: Vec<LogEntry> = Vec::new();
            assert(log_views(log@) =~= Seq::empty());
            let config = self.config;
            let step = match config.find_server(name) {
                Ok(server) => RunStep { log, action: RunAction::Connect(server) },
                Err(error) => RunStep { log, action: RunAction::Abort(error.message()) },
            };
            assert(advanced(
                before,
                order,
                RunTransition { run: self@, log: log_views(step.log@), action: step.action@ },
            ));
            step
        } else {
            let (agent, step) = Agent::start(self.task, self.model, tools, self.prompt.as_str());
            let step = self.conclude(agent, step);
            assert(advanced(
                before,
                order,
                RunTransition { run: self@, log: log_views(step.log@), action: step.action@ },
            ));
            step
        }
    }

    /// Begins a run of a task. `default_prompt` is the system prompt where the
    /// task has none.
    pub fn begin(config: &'a DriverConfig, task: &'a Task, default_prompt: String) -> (begun: Result<
        (Run<'a>, RunStep<'a>),
        ConfigError,
    >)
        ensures
            begun is Ok <==> config.has_model(task.model@),
            begun matches Err(e) ==> (e matches ConfigError::UnknownModel(n) && n@ == task.model@),
            begun matches Ok((run, step)) ==> {
                &&& run.well_formed()
                &&& step.sound()
                &&& awaits(run@, step.action@)
                &&& exists|i: int, order: Seq<OpenAIToolView>, to: RunTransition|
                    {
                        &&& #[trigger] begins(*config, *task, default_prompt@, i, order, to)
                        &&& run@ == to.run
                        &&& log_views(step.log@) == seq![opening_log(*task, config.models@[i])]
                            + to.log
                        &&& step.action@ == to.action
                    }
            },
    {
        let model = match config.find_model(task.model.as_str()) {
            Ok(model) => model,
            Err(error) => return Err(error),
        };
        let prompt = match &task.system_prompt {
            Some(prompt) => prompt.clone(),
            None => default_prompt,
        };
        let mut run = Run {
            config,
            task,
            model,
            prompt,
            connected: 0,
            registry: ToolRegistry::new(),
            agent: None,
        };
        let mut log: Vec<LogEntry> = Vec::new();
        log.push(
            run_start(
                task.name.as_str(),
                model.name.as_str(),
                model.base_url.as_str(),
                task.user_prompt.as_str(),
                run.server_names(),
                &model.tool_call_parser,
                &model.reasoning_parser,
                model.auto_tool_choice,
            ),
        );
        let ghost start = run@;
        assert(start =~= fresh_run(*config, *task, *model, wanted_prompt(*task, default_prompt@)));
        assert(log_views(log@) =~= seq![opening_log(*task, *model)]);
        let mut step = run.advance();
        let ghost to = RunTransition {
            run: run@,
            log: log_views(step.log@),
            action: step.action@,
        };
        proof {
            lemma_log_views_append(log@, step.log@);
        }
        log.append(&mut step.log);
        proof {
            let i = choose|i: int| #[trigger]
                first_model(config.models@, task.model@, i) && *model == config.models@[i];
            let order = choose|order: Seq<OpenAIToolView>|
                offers(start.tools, order) && #[trigger] advanced(start, order, to);
            assert(begins(*config, *task, default_prompt@, i, order, to));
        }
        Ok((run, RunStep { log, action: step.action }))
    }

    /// Takes the tools that the server lists which was to be connected, or why
    /// it was not.
    pub fn on_listing(&mut self, listing: Result<Vec<McpTool>, ConnectFailure>) -> (step: RunStep<
        'a,
    >)
        requires
            old(self).well_formed(),
            old(self)@.agent is None,
            old(self)@.connected < wanted_servers(old(self)@.task, old(self)@.model).len(),
            listing matches Ok(tools) ==> selectable(
                tool_views(tools@),
                wanted_filter(old(self)@.task, old(self)@.model),
            ),
        ensures
            final(self).well_formed(),
            step.sound(),
            awaits(final(self)@, step.action@),
            listed(
                old(self)@,
                listing,
                RunTransition {
                    run: final(self)@,
                    log: log_views(step.log@),
                    action: step.action@,
                },
            ),
    {
        let ghost before = self@;
        let total = self.server_names().len();
        let name = self.server_names()[self.connected].clone();
        match listing {
            Ok(tools) => {
                let filter = match &self.task.tool_filter {
                    Some(list) => list,
                    None => &self.model.tool_filter,
                };
                self.registry.add_server(name, tools, filter);
                assert(self.connected < total);
                self.connected = self.connected + 1;
                let ghost middle = self@;
                assert(connects(before, name@, tool_views(tools@), middle));
                let step = self.advance();
                proof {
                    let to = RunTransition {
                        run: self@,
                        log: log_views(step.log@),
                        action: step.action@,
                    };
                    let order = choose|order: Seq<OpenAIToolView>|
                        offers(middle.tools, order) && #[trigger] advanced(middle, order, to);
                    assert(advanced(middle, order, to));
                }
                step
            },
            Err(failure) => {
                let log: Vec<LogEntry> = Vec::new();
                assert(log_views(log@) =~= Seq::empty());
                RunStep { log, action: RunAction::Abort(failure.message(name.as_str())) }
            },
        }
    }

    /// Takes the tools that the server lists which was to be connected, like
    /// [`Run::on_listing`], where its tools can be filtered: `None`, and nothing
    /// changed, where a pattern that has to be asked about a tool is too large.
    pub fn take_listing(&mut self, listing: Result<Vec<McpTool>, ConnectFailure>) -> (step: Option<
        RunStep<'a>,
    >)
        requires
            old(self).well_formed(),
            old(self)@.agent is None,
            old(self)@.connected < wanted_servers(old(self)@.task, old(self)@.model).len(),
        ensures
            final(self).well_formed(),
            step is None <==> (listing matches Ok(tools) && !selectable(
                tool_views(tools@),
                wanted_filter(old(self)@.task, old(self)@.model),
            )),
            step is None ==> final(self)@ == old(self)@,
            step matches Some(s) ==> s.sound() && awaits(final(self)@, s.action@),
            step matches Some(s) ==> listed(
                old(self)@,
                listing,
                RunTransition { run: final(self)@, log: log_views(s.log@), action: s.action@ },
            ),
    {
        let blocked = match &listing {
            Ok(tools) => !can_select(tools, self.tool_filter()),
            Err(_) => false,
        };
        if blocked {
            None
        } else {
            Some(self.on_listing(listing))
        }
    }

    /// Takes the failure to log an entry of this kind. Once the agent loop runs,
    /// it fails with the error; the end of the run is logged and the servers are
    /// shut down. Where the entry was the first or the last of the run, the run
    /// is given up at once.
    pub fn on_log_failure(&mut self, kind: &str, error: String) -> (step: RunStep<'a>)
        requires
            old(self).well_formed(),
        ensures
            final(self).well_formed(),
            final(self)@ == old(self)@,
            step.sound(),
            ({
                let looping = old(self)@.agent is Some && kind@ != "run_start"@ && kind@
                    != "run_end"@;
                &&& looping ==> log_views(step.log@) == seq![run_failed_log(error@)]
                    && step.action@ == RunActionView::Close(Err(error@))
                &&& !looping ==> log_views(step.log@) == Seq::<LogView>::empty() && step.action@
                    == RunActionView::Abort(error@)
            }),
    {
        let mut log: Vec<LogEntry> = Vec::new();
        if self.agent.is_none() || same_text(kind, "run_start") || same_text(kind, "run_end") {
            assert(log_views(log@) =~= Seq::empty());
            RunStep { log, action: RunAction::Abort(error) }
        } else {
            log.push(run_failed(error.as_str()));
            assert(log_views(log@) =~= seq![run_failed_log(error@)]);
            RunStep { log, action: RunAction::Close(Err(error)) }
        }
    }

    /// Takes the model's answer, or why there is none. `elapsed_ms` is the time
    /// since the agent loop began.
    pub fn on_reply(
        &mut self,
        reply: Result<ChatCompletionResponse, String>,
        elapsed_ms: u64,
    ) -> (step: RunStep<'a>)
        requires
            old(self).well_formed(),
            old(self)@.agent matches Some(agent) && agent.phase == Phase::Reply && (reply matches Ok(
                response,
            ) ==> usage_fits(agent.usage, response.usage)),
        ensures
            final(self).well_formed(),
            step.sound(),
            awaits(final(self)@, step.action@),
            ({
                let to = RunTransition {
                    run: final(self)@,
                    log: log_views(step.log@),
                    action: step.action@,
                };
                match reply {
                    Ok(response) => to == concluded(
                        old(self)@,
                        resolved(
                            old(self)@.tools,
                            after_reply(old(self)@.agent->0, response, elapsed_ms),
                        ),
                    ),
                    Err(error) => {
                        &&& to.run == old(self)@
                        &&& to.log == seq![run_failed_log(error@)]
                        &&& to.action == RunActionView::Close(Err(error@))
                    },
                }
            }),
    {
        let ghost before = self@;
        match reply {
            Ok(response) => {
                let mut agent = self.agent.take().unwrap();
                let step = agent.on_reply(response, elapsed_ms);
                let to = self.conclude(agent, step);
                assert(self@ =~= concluded(
                    before,
                    resolved(
                        before.tools,
                        after_reply(before.agent->0, response, elapsed_ms),
                    ),
                ).run);
                to
            },
            Err(error) => {
                let mut log: Vec<LogEntry> = Vec::new();
                log.push(run_failed(error.as_str()));
                assert(log_views(log@) =~= seq![run_failed_log(error@)]);
                RunStep { log, action: RunAction::Close(Err(error)) }
            },
        }
    }

    /// Takes the outcome of the tool call that was to be made.
    pub fn on_result(&mut self, outcome: ToolOutcome) -> (step: RunStep<'a>)
        requires
            old(self).well_formed(),
            old(self)@.agent matches Some(agent) && agent.phase == Phase::Tool,
        ensures
            final(self).well_formed(),
            step.sound(),
            awaits(final(self)@, step.action@),
            ({
                let (ok, content) = outcome_text(outcome);
                RunTransition {
                    run: final(self)@,
                    log: log_views(step.log@),
                    action: step.action@,
                } == concluded(
                    old(self)@,
                    resolved(old(self)@.tools, after_tool(old(self)@.agent->0, ok, content)),
                )
            }),
    {
        let ghost before = self@;
        let mut agent = self.agent.take().unwrap();
        let step = agent.on_tool_outcome(outcome);
        let to = self.conclude(agent, step);
        assert(self@ =~= concluded(
            before,
            resolved(
                before.tools,
                after_tool(before.agent->0, outcome_text(outcome).0, outcome_text(outcome).1),
            ),
        ).run);
        to
    }
}

/// The conversation is kept also where the model asks for tools that nobody has.
pub proof fn law_run_keeps_conversation(tools: ToolTable, step: Transition)
    requires
        steady(step.agent),
        conversation_kept(step.agent),
        step.action is CallTool <==> step.agent.phase == Phase::Tool,
    ensures
        conversation_kept(resolved(tools, step).agent),
    decreases steps_left(step.agent),
{
    if let ActionView::CallTool(name, _) = step.action {
        if !tools.contains_key(name) {
            let message = "Error: "@ + ("unknown tool: "@ + name);
            let next = after_tool(step.agent, false, message);
            law_tool_keeps_conversation(step.agent, false, message);
            law_run_keeps_conversation(tools, Transition { log: step.log + next.log, ..next });
        }
    }
}

/// What a task names comes before what its model names: servers and tool filter
/// are the task's where it has them, and the model's otherwise.
pub proof fn law_task_overrides_model(task: Task, model: ModelConfig)
    ensures
        task.mcp_servers matches Some(list) ==> wanted_servers(task, model) == list@,
        task.mcp_servers is None ==> wanted_servers(task, model) == model.mcp_servers@,
        task.tool_filter matches Some(list) ==> wanted_filter(task, model) == list@,
        task.tool_filter is None ==> wanted_filter(task, model) == model.tool_filter@,
{
}

/// The end of every run is told: the last entry before its servers are shut
/// down is `run_end`.
pub proof fn law_end_is_told(run: RunView, step: Transition)
    ensures
        concluded(run, step).action is Close ==> concluded(run, step).log.len() > 0 && concluded(
            run,
            step,
        ).log.last().kind == "run_end"@,
{
}

/// What a run logs and does as the model asks for a tool that nobody has: no
/// server is called, and the model is told.
pub proof fn law_unknown_tool_is_answered(tools: ToolTable, step: Transition)
    requires
        steady(step.agent),
        step.agent.phase == Phase::Tool,
        step.action matches ActionView::CallTool(name, _) && !tools.contains_key(name),
    ensures
        ({
            let message = "Error: "@ + ("unknown tool: "@ + step.action->CallTool_0);
            let id = step.agent.calls[step.agent.answered as int].id;
            let to = resolved(tools, step);
            &&& to.agent.messages.len() > step.agent.messages.len()
            &&& to.agent.messages[step.agent.messages.len() as int] == tool_message(id, message)
            &&& step.agent.messages.is_prefix_of(to.agent.messages)
            &&& step.log.is_prefix_of(to.log)
        }),
{
    let message = "Error: "@ + ("unknown tool: "@ + step.action->CallTool_0);
    let next = after_tool(step.agent, false, message);
    let joined = Transition { log: step.log + next.log, ..next };
    assert(resolved(tools, step) == resolved(tools, joined));
    lemma_resolved_grows(tools, joined);
    let to = resolved(tools, step);
    assert(joined.agent.messages[step.agent.messages.len() as int] == tool_message(
        step.agent.calls[step.agent.answered as int].id,
        message,
    ));
    assert(to.agent.messages.take(joined.agent.messages.len() as int)[step.agent.messages.len() as int]
        == to.agent.messages[step.agent.messages.len() as int]);
    assert(step.agent.messages =~= to.agent.messages.subrange(
        0,
        step.agent.messages.len() as int,
    )) by {
        assert forall|i: int| 0 <= i < step.agent.messages.len() implies #[trigger] to.agent.messages[i]
            == step.agent.messages[i] by {
            assert(to.agent.messages.take(joined.agent.messages.len() as int)[i]
                == joined.agent.messages[i]);
        }
    }
    assert(step.log =~= to.log.subrange(0, step.log.len() as int)) by {
        assert forall|i: int| 0 <= i < step.log.len() implies #[trigger] to.log[i]
            == step.log[i] by {
            assert(to.log.take(joined.log.len() as int)[i] == joined.log[i]);
        }
    }
}

/// Resolving a step only adds to the conversation and to the log.
proof fn lemma_resolved_grows(tools: ToolTable, step: Transition)
    ensures
        ({
            let to = resolved(tools, step);
            &&& to.agent.messages.len() >= step.agent.messages.len()
            &&& to.agent.messages.take(step.agent.messages.len() as int) == step.agent.messages
            &&& to.log.len() >= step.log.len()
            &&& to.log.take(step.log.len() as int) == step.log
        }),
    decreases steps_left(step.agent),
{
    let to = resolved(tools, step);
    assert(step.agent.messages.take(step.agent.messages.len() as int) =~= step.agent.messages);
    assert(step.log.take(step.log.len() as int) =~= step.log);
    if let ActionView::CallTool(name, _) = step.action {
        if !tools.contains_key(name) && steady(step.agent) && step.agent.phase == Phase::Tool {
            let next = after_tool(step.agent, false, "Error: "@ + ("unknown tool: "@ + name));
            let joined = Transition { log: step.log + next.log, ..next };
            lemma_resolved_grows(tools, joined);
            assert(to.agent.messages.take(step.agent.messages.len() as int)
                =~= to.agent.messages.take(joined.agent.messages.len() as int).take(
                step.agent.messages.len() as int,
            ));
            assert(joined.agent.messages.take(step.agent.messages.len() as int)
                =~= step.agent.messages);
            assert(to.log.take(step.log.len() as int) =~= to.log.take(
                joined.log.len() as int,
            ).take(step.log.len() as int));
            assert(joined.log.take(step.log.len() as int) =~= step.log);
        }
    }
}

/// The action makes the call that the agent waits for.
pub open spec fn pending(agent: AgentView, action: ActionView) -> bool {
    let call = agent.calls[agent.answered as int];
    &&& agent.answered < agent.calls.len()
    &&& action matches ActionView::CallTool(name, arguments) && name == call.name && match json_parse(
        call.arguments,
    ) {
        Some(json) => arguments == json,
        None => arguments == JsonView::Object(Seq::empty()),
    }
}

/// Resolving a step passes over calls of tools that nobody has, and no others: it
/// ends at the first call of a tool that some server has, or after the last call.
proof fn lemma_resolved_passes_unknown(tools: ToolTable, step: Transition)
    requires
        steady(step.agent),
        step.action is CallTool <==> step.agent.phase == Phase::Tool,
        step.action is CallTool ==> pending(step.agent, step.action),
    ensures
        ({
            let to = resolved(tools, step);
            &&& steady(to.agent)
            &&& to.action is CallTool <==> to.agent.phase == Phase::Tool
            &&& to.action is CallTool ==> pending(to.agent, to.action) && tools.contains_key(
                to.action->CallTool_0,
            )
            &&& step.action is CallTool ==> {
                &&& to.agent.calls == step.agent.calls
                &&& step.agent.answered <= to.agent.answered <= step.agent.calls.len()
                &&& forall|k: int|
                    step.agent.answered <= k < to.agent.answered ==> !tools.contains_key(
                        (#[trigger] step.agent.calls[k]).name,
                    )
                &&& !(to.action is CallTool) ==> to.agent.answered == step.agent.calls.len() && (
                to.action is Chat || to.action is Fail)
            }
            &&& !(step.action is CallTool) ==> to == step
        }),
    decreases steps_left(step.agent),
{
    if let ActionView::CallTool(name, _) = step.action {
        if !tools.contains_key(name) {
            let message = "Error: "@ + ("unknown tool: "@ + name);
            let next = after_tool(step.agent, false, message);
            law_calls_are_made_in_turn(step.agent, false, message);
            lemma_resolved_passes_unknown(tools, Transition { log: step.log + next.log, ..next });
        }
    }
}

/// Each call of the model goes to the server that owns the tool, under the tool's
/// own name there, with the arguments that the model wrote. On an answer of the
/// model it is the first of its calls whose tool some server has; where there is
/// none, no server is called.
pub proof fn law_calls_of_a_reply_reach_their_owner(
    run: RunView,
    response: ChatCompletionResponse,
    elapsed_ms: u64,
)
    requires
        run.agent matches Some(agent) && steady(agent) && agent.phase == Phase::Reply
            && usage_fits(agent.usage, response.usage),
        response.choices@.len() > 0,
    ensures
        ({
            let calls = response.choices@[0].message@.tool_calls;
            let to = concluded(
                run,
                resolved(run.tools, after_reply(run.agent->0, response, elapsed_ms)),
            );
            &&& to.run.tools == run.tools
            &&& to.action matches RunActionView::CallTool(server, tool, arguments) ==> exists|
                k: int,
            |
                {
                    &&& 0 <= k < calls.len()
                    &&& reaches(run.tools, #[trigger] calls[k], server, tool, arguments)
                    &&& forall|j: int|
                        0 <= j < k ==> !run.tools.contains_key((#[trigger] calls[j]).name)
                    &&& to.run.agent matches Some(agent) && agent.calls == calls && agent.answered
                        == k
                }
            &&& !(to.action is CallTool) ==> forall|j: int|
                0 <= j < calls.len() ==> !run.tools.contains_key((#[trigger] calls[j]).name)
        }),
{
    let agent = run.agent->0;
    let step = after_reply(agent, response, elapsed_ms);
    let calls = response.choices@[0].message@.tool_calls;
    if calls.len() > 0 {
        law_calls_are_taken_up(agent, response, elapsed_ms);
    }
    lemma_resolved_passes_unknown(run.tools, step);
    let to = concluded(run, resolved(run.tools, step));
    if to.action is CallTool {
        let k = to.run.agent->0.answered as int;
        assert(reaches(
            run.tools,
            calls[k],
            to.action->CallTool_0,
            to.action->CallTool_1,
            to.action->CallTool_2,
        ));
    }
}

/// After the outcome of a call the next call of the same answer reaches its owner,
/// the first whose tool some server has; where there is none, no server is called.
pub proof fn law_next_call_reaches_its_owner(run: RunView, outcome: ToolOutcome)
    requires
        run.agent matches Some(agent) && steady(agent) && agent.phase == Phase::Tool,
    ensures
        ({
            let before = run.agent->0;
            let (ok, content) = outcome_text(outcome);
            let to = concluded(run, resolved(run.tools, after_tool(before, ok, content)));
            &&& to.run.tools == run.tools
            &&& to.action matches RunActionView::CallTool(server, tool, arguments) ==> exists|
                k: int,
            |
                {
                    &&& before.answered < k < before.calls.len()
                    &&& reaches(run.tools, #[trigger] before.calls[k], server, tool, arguments)
                    &&& forall|j: int|
                        before.answered < j < k ==> !run.tools.contains_key(
                            (#[trigger] before.calls[j]).name,
                        )
                    &&& to.run.agent matches Some(agent) && agent.calls == before.calls
                        && agent.answered == k
                }
            &&& !(to.action is CallTool) ==> forall|j: int|
                before.answered < j < before.calls.len() ==> !run.tools.contains_key(
                    (#[trigger] before.calls[j]).name,
                )
        }),
{
    let before = run.agent->0;
    let (ok, content) = outcome_text(outcome);
    let step = after_tool(before, ok, content);
    law_calls_are_made_in_turn(before, ok, content);
    lemma_resolved_passes_unknown(run.tools, step);
    let to = concluded(run, resolved(run.tools, step));
    if to.action is CallTool {
        let k = to.run.agent->0.answered as int;
        assert(reaches(
            run.tools,
            before.calls[k],
            to.action->CallTool_0,
            to.action->CallTool_1,
            to.action->CallTool_2,
        ));
    }
}

/// A request of the agent is sent as it is, and its log is kept; nothing but a
/// result or an error ends a run.
pub proof fn law_run_does_what_the_agent_decides(run: RunView, step: Transition)
    ensures
        ({
            let to = concluded(run, step);
            &&& to.run.agent == Some(step.agent)
            &&& to.run == RunView { agent: to.run.agent, ..run }
            &&& step.log.is_prefix_of(to.log)
            &&& step.action matches ActionView::Chat(request) ==> to.action == RunActionView::Chat(
                request,
            ) && to.log == step.log
            &&& step.action is CallTool ==> to.action is CallTool && to.log == step.log
            &&& step.action matches ActionView::Finish(result) ==> to.action
                == RunActionView::Close(Ok(result))
            &&& step.action matches ActionView::Fail(error) ==> to.action == RunActionView::Close(
                Err(agent_error_text(error)),
            )
        }),
{
    let to = concluded(run, step);
    assert(step.log =~= to.log.subrange(0, step.log.len() as int));
}

/// The end of a run tells its result: the one entry that follows what the agent
/// logged is `run_end`. With a result it says that the run went well, and the time,
/// the tokens in total and the iterations of the result; with an error it says that
/// it did not, and the error.
pub proof fn law_end_tells_the_result(run: RunView, step: Transition)
    ensures
        ({
            let to = concluded(run, step);
            let entry = to.log.last();
            &&& to.action is Close ==> {
                &&& to.log.len() == step.log.len() + 1
                &&& to.log.drop_last() == step.log
                &&& entry.kind == "run_end"@
            }
            &&& to.action matches RunActionView::Close(Ok(result)) ==> {
                &&& flag_field(entry.data, "ok"@) == Some(true)
                &&& number_field(entry.data, "duration_ms"@) == Some(result.duration_ms)
                &&& number_field(entry.data, "total_tokens"@) == Some(
                    result.total_usage.total_tokens as u64,
                )
                &&& number_field(entry.data, "iterations"@) == Some(result.iterations as u64)
            }
            &&& to.action matches RunActionView::Close(Err(error)) ==> {
                &&& flag_field(entry.data, "ok"@) == Some(false)
                &&& text_field(entry.data, "error"@) == Some(error)
            }
        }),
{
    let to = concluded(run, step);
    match step.action {
        ActionView::Finish(result) => {
            law_completed_run_tells(
                result.duration_ms,
                result.total_usage.total_tokens,
                result.iterations,
            );
            assert(to.log.drop_last() =~= step.log);
        },
        ActionView::Fail(error) => {
            law_failed_run_tells(agent_error_text(error));
            assert(to.log.drop_last() =~= step.log);
        },
        _ => {},
    }
}

/// The end of a run tells the tokens of every answer: those of the earlier ones
/// with those of the last. It tells the time at which the last answer came, and
/// the requests that were made.
pub proof fn law_end_counts_every_answer(
    run: RunView,
    response: ChatCompletionResponse,
    elapsed_ms: u64,
)
    requires
        run.agent matches Some(agent) && usage_fits(agent.usage, response.usage),
    ensures
        ({
            let to = concluded(
                run,
                resolved(run.tools, after_reply(run.agent->0, response, elapsed_ms)),
            );
            let entry = to.log.last();
            let more = match response.usage {
                Some(u) => u.total_tokens as int,
                None => 0,
            };
            response.choices@.len() > 0 && response.choices@[0].message@.tool_calls.len() == 0 ==> {
                &&& to.action matches RunActionView::Close(Ok(_))
                &&& number_field(entry.data, "total_tokens"@) == Some(
                    (run.agent->0.usage.total_tokens + more) as u64,
                )
                &&& number_field(entry.data, "duration_ms"@) == Some(elapsed_ms)
                &&& number_field(entry.data, "iterations"@) == Some(
                    run.agent->0.iterations as u64,
                )
            }
        }),
{
    let agent = run.agent->0;
    if response.choices@.len() > 0 && response.choices@[0].message@.tool_calls.len() == 0 {
        let step = after_reply(agent, response, elapsed_ms);
        law_answer_ends_the_loop(agent, response, elapsed_ms);
        law_end_tells_the_result(run, step);
        assert(resolved(run.tools, step) == step);
    }
}

/// A run begins by telling its task and its model, with the servers that it will
/// connect.
pub proof fn law_start_tells_the_task(task: Task, model: ModelConfig)
    ensures
        ({
            let entry = opening_log(task, model);
            let servers = match task.mcp_servers {
                Some(list) => list@,
                None => model.mcp_servers@,
            };
            &&& entry.kind == "run_start"@
            &&& text_field(entry.data, "task"@) == Some(task.name@)
            &&& text_field(entry.data, "model"@) == Some(model.name@)
            &&& text_field(entry.data, "base_url"@) == Some(model.base_url@)
            &&& text_field(entry.data, "user_prompt"@) == Some(task.user_prompt@)
            &&& field(entry.data, "mcp_servers"@) matches Some(JsonView::Array(items))
                && items.len() == servers.len() && forall|k: int|
                0 <= k < servers.len() ==> #[trigger] items[k] == JsonView::Text(servers[k]@)
            &&& text_field(entry.data, "tool_call_parser"@) == opt_text(model.tool_call_parser)
            &&& text_field(entry.data, "reasoning_parser"@) == opt_text(model.reasoning_parser)
            &&& flag_field(entry.data, "auto_tool_choice"@) == Some(model.auto_tool_choice)
        }),
{
    let listed = names(wanted_servers(task, model));
    law_run_start_tells(
        task.name@,
        model.name@,
        model.base_url@,
        task.user_prompt@,
        listed,
        opt_text(model.tool_call_parser),
        opt_text(model.reasoning_parser),
        model.auto_tool_choice,
    );
    assert forall|k: int| 0 <= k < listed.len() implies #[trigger] listed[k] == wanted_servers(
        task,
        model,
    )[k]@ by {}
}

/// The servers of a run are connected in their order, each under its name from the
/// configuration; the agent loop begins once all are. A name that the
/// configuration does not have ends the run.
pub proof fn law_servers_are_connected_in_order(
    run: RunView,
    order: Seq<OpenAIToolView>,
    to: RunTransition,
)
    requires
        advanced(run, order, to),
    ensures
        ({
            let wanted = match run.task.mcp_servers {
                Some(list) => list@,
                None => run.model.mcp_servers@,
            };
            let name = wanted[run.connected as int]@;
            &&& run.connected < wanted.len() ==> {
                &&& to.run == run
                &&& to.log.len() == 0
                &&& match to.action {
                    RunActionView::Connect(server) => exists|i: int|
                        {
                            &&& 0 <= i < run.config.mcp_servers@.len()
                            &&& #[trigger] run.config.mcp_servers@[i] == server
                            &&& server.name@ == name
                            &&& forall|k: int|
                                0 <= k < i ==> (#[trigger] run.config.mcp_servers@[k]).name@
                                    != name
                        },
                    RunActionView::Abort(_) => forall|k: int|
                        0 <= k < run.config.mcp_servers@.len() ==> (
                        #[trigger] run.config.mcp_servers@[k]).name@ != name,
                    _ => false,
                }
            }
            &&& run.connected >= wanted.len() ==> to.run.agent is Some && !(to.action is Connect)
                && !(to.action is Abort)
        }),
{
    let wanted = wanted_servers(run.task, run.model);
    if run.connected < wanted.len() {
        let name = names(wanted)[run.connected as int];
        assert(name == wanted[run.connected as int]@);
        if run.config.has_server(name) {
            let i = choose|i: int| #[trigger]
                first_server(run.config.mcp_servers@, name, i) && to.action
                    == RunActionView::Connect(run.config.mcp_servers@[i]);
            assert(run.config.mcp_servers@[i].name@ == name);
        }
    }
}

/// A server that is connected brings its tools, as far as the filter of the task,
/// or else of the model, lets them through; all of them where that is empty. It is
/// one server more to shut down, and nothing else of the run changes.
pub proof fn law_connected_server_brings_its_tools(
    before: RunView,
    name: Seq<char>,
    list: Seq<McpToolView>,
    after: RunView,
)
    requires
        connects(before, name, list, after),
    ensures
        ({
            let filter = match before.task.tool_filter {
                Some(patterns) => patterns@,
                None => before.model.tool_filter@,
            };
            &&& filter.len() == 0 ==> after.tools == with_tools(before.tools, name, list)
            &&& portable_choice(list, filter) ==> after.tools == with_tools(
                before.tools,
                name,
                admitted(list, filter),
            )
            &&& after.connected == before.connected + 1
            &&& after.servers == before.servers.insert(name)
            &&& after.agent == before.agent
            &&& after.prompt == before.prompt
            &&& after.task == before.task
            &&& after.model == before.model
            &&& after.config == before.config
            &&& before.collisions.is_prefix_of(after.collisions)
        }),
{
    assert(before.collisions =~= after.collisions.subrange(
        0,
        before.collisions.len() as int,
    ));
}

/// A server that cannot be connected ends the run before it begins: nothing is
/// logged, nothing changes, and the message names the server or says why.
pub proof fn law_failed_connection_ends_the_run(
    run: RunView,
    failure: ConnectFailure,
    to: RunTransition,
)
    requires
        listed(run, Err(failure), to),
    ensures
        ({
            let name = wanted_servers(run.task, run.model)[run.connected as int]@;
            &&& to.run == run
            &&& to.log.len() == 0
            &&& to.action matches RunActionView::Abort(text) && match failure {
                ConnectFailure::Spawn(error) => text == error@,
                _ => shows(text, "'"@ + name + "'"@),
            }
        }),
{
    let name = wanted_servers(run.task, run.model)[run.connected as int]@;
    let quoted = "'"@ + name + "'"@;
    reveal_strlit("'");
    reveal_strlit("MCP initialize handshake with '");
    reveal_strlit("MCP initialize handshake with ");
    reveal_strlit("tools/list from '");
    reveal_strlit("tools/list from ");
    match failure {
        ConnectFailure::Spawn(_) => {},
        ConnectFailure::Initialize => {
            let text = connect_failure_text(failure, name);
            assert(text =~= "MCP initialize handshake with "@ + quoted + Seq::empty());
            lemma_shows_between("MCP initialize handshake with "@, quoted, Seq::empty(), text);
        },
        ConnectFailure::ListTools => {
            let text = connect_failure_text(failure, name);
            assert(text =~= "tools/list from "@ + quoted + Seq::empty());
            lemma_shows_between("tools/list from "@, quoted, Seq::empty(), text);
        },
    }
}

/// Once all servers are connected the loop begins with the prompt of the run and
/// that of the task, and offers every tool that was registered.
pub proof fn law_loop_begins_with_the_run(
    run: RunView,
    order: Seq<OpenAIToolView>,
    to: RunTransition,
)
    requires
        run.connected >= wanted_servers(run.task, run.model).len(),
        run.task.max_iterations > 0,
        advanced(run, order, to),
    ensures
        to.run == (RunView { agent: to.run.agent, ..run }),
        to.log.len() == 2,
        to.log[0].kind == "tools_registered"@,
        number_field(to.log[0].data, "count"@) == Some(order.len() as u64),
        to.log[1].kind == "llm_request"@,
        to.action matches RunActionView::Chat(request) && {
            &&& request.model == run.model.model_id@
            &&& request.max_tokens == Some(run.model.max_tokens)
            &&& request.tools == if order.len() > 0 {
                Some(order)
            } else {
                None
            }
            &&& if run.model.system_prompt_strategy@ == "first_user_turn"@ {
                &&& request.messages.len() == 1
                &&& request.messages[0].content == Some(
                    run.prompt + "\n\n"@ + run.task.user_prompt@,
                )
            } else {
                &&& request.messages.len() == 2
                &&& request.messages[0].content == Some(run.prompt)
                &&& request.messages[1].content == Some(run.task.user_prompt@)
            }
        },
{
    law_loop_begins_with_the_prompts(run.task, run.model, order, run.prompt);
    let step = started(run.task, run.model, order, run.prompt);
    assert(resolved(run.tools, step) == step);
}

/// A run begins with the first model of the name that the task gives, and with the
/// task's own prompt, or the default one where it has none; nothing is connected
/// and no tool is known yet.
pub proof fn law_run_begins_with_the_tasks_model(
    config: DriverConfig,
    task: Task,
    default_prompt: Seq<char>,
    i: int,
    order: Seq<OpenAIToolView>,
    to: RunTransition,
)
    requires
        begins(config, task, default_prompt, i, order, to),
    ensures
        0 <= i < config.models@.len(),
        config.models@[i].name@ == task.model@,
        forall|k: int| 0 <= k < i ==> (#[trigger] config.models@[k]).name@ != task.model@,
        to.run.model == config.models@[i],
        to.run.task == task,
        to.run.config == config,
        to.run.prompt == (match task.system_prompt {
            Some(prompt) => prompt@,
            None => default_prompt,
        }),
        to.run.connected == 0,
        to.run.servers == Set::<Seq<char>>::empty(),
        to.run.tools == Map::<Seq<char>, Registered>::empty(),
{
}

/// The model is told of a tool that nobody has, and so is the log: the next message
/// is in the role of a tool, under the id of the call, and names the tool; the next
/// entry says that the call failed, with the same text.
pub proof fn law_unknown_tool_is_named(tools: ToolTable, step: Transition)
    requires
        steady(step.agent),
        step.agent.phase == Phase::Tool,
        pending(step.agent, step.action),
        !tools.contains_key(step.agent.calls[step.agent.answered as int].name),
    ensures
        ({
            let call = step.agent.calls[step.agent.answered as int];
            let to = resolved(tools, step);
            let message = to.agent.messages[step.agent.messages.len() as int];
            let entry = to.log[step.log.len() as int];
            &&& to.agent.messages.len() > step.agent.messages.len()
            &&& message.role == "tool"@
            &&& message.tool_call_id == Some(call.id)
            &&& message.tool_calls is None
            &&& message.content == Some("Error: "@ + ("unknown tool: "@ + call.name))
            &&& to.log.len() > step.log.len()
            &&& entry.kind == "tool_result"@
            &&& text_field(entry.data, "id"@) == Some(call.id)
            &&& flag_field(entry.data, "ok"@) == Some(false)
            &&& text_field(entry.data, "content"@) == message.content
            &&& to.agent.usage == step.agent.usage
        }),
{
    let call = step.agent.calls[step.agent.answered as int];
    let message = "Error: "@ + ("unknown tool: "@ + call.name);
    let next = after_tool(step.agent, false, message);
    let joined = Transition { log: step.log + next.log, ..next };
    law_unknown_tool_is_answered(tools, step);
    law_tool_result_tells(step.agent.iterations, call.id, false, message);
    lemma_resolved_grows(tools, joined);
    lemma_resolved_keeps_usage(tools, step);
    let to = resolved(tools, step);
    assert(to == resolved(tools, joined));
    assert(joined.log[step.log.len() as int] == next.log[0]);
    assert(to.log.take(joined.log.len() as int)[step.log.len() as int]
        == to.log[step.log.len() as int]);
}

/// Calls of tools that nobody has take no tokens.
proof fn lemma_resolved_keeps_usage(tools: ToolTable, step: Transition)
    ensures
        resolved(tools, step).agent.usage == step.agent.usage,
    decreases steps_left(step.agent),
{
    if let ActionView::CallTool(name, _) = step.action {
        if !tools.contains_key(name) && steady(step.agent) && step.agent.phase == Phase::Tool {
            let next = after_tool(step.agent, false, "Error: "@ + ("unknown tool: "@ + name));
            lemma_resolved_keeps_usage(tools, Transition { log: step.log + next.log, ..next });
        }
    }
}

/// The counts of a run are the sums over all answers of the model, from step to
/// step: an answer adds its own and the outcome of a call adds none. The end of the
/// run tells the sum of the totals.
pub proof fn law_end_tells_the_sum(
    run: RunView,
    usages: Seq<Option<Usage>>,
    response: ChatCompletionResponse,
    elapsed_ms: u64,
    outcome: ToolOutcome,
)
    requires
        run.agent matches Some(agent) && counts_all(agent.usage, usages) && usage_fits(
            agent.usage,
            response.usage,
        ),
    ensures
        ({
            let agent = run.agent->0;
            let all = usages.push(response.usage);
            let replied = concluded(
                run,
                resolved(run.tools, after_reply(agent, response, elapsed_ms)),
            );
            let (ok, content) = outcome_text(outcome);
            let told = concluded(run, resolved(run.tools, after_tool(agent, ok, content)));
            &&& replied.run.agent matches Some(after) && counts_all(after.usage, all)
            &&& told.run.agent matches Some(after) && counts_all(after.usage, usages)
            &&& replied.action matches RunActionView::Close(Ok(_)) ==> (number_field(
                replied.log.last().data,
                "total_tokens"@,
            ) matches Some(n) && n == token_sum(all, |u: Usage| u.total_tokens as int))
        }),
{
    let agent = run.agent->0;
    let (ok, content) = outcome_text(outcome);
    let step = after_reply(agent, response, elapsed_ms);
    law_counts_are_sums(
        run.task,
        run.model,
        Seq::empty(),
        run.prompt,
        agent,
        usages,
        response,
        elapsed_ms,
        ok,
        content,
    );
    lemma_resolved_keeps_usage(run.tools, step);
    lemma_resolved_keeps_usage(run.tools, after_tool(agent, ok, content));
    let ended = resolved(run.tools, step);
    law_end_tells_the_result(run, ended);
    if ended.action is Finish {
        lemma_only_an_answer_finishes(run.tools, step);
    }
}

/// Resolving a step ends no loop with a result.
proof fn lemma_only_an_answer_finishes(tools: ToolTable, step: Transition)
    ensures
        resolved(tools, step).action is Finish ==> resolved(tools, step) == step,
    decreases steps_left(step.agent),
{
    if let ActionView::CallTool(name, _) = step.action {
        if !tools.contains_key(name) && steady(step.agent) && step.agent.phase == Phase::Tool {
            let next = after_tool(step.agent, false, "Error: "@ + ("unknown tool: "@ + name));
            lemma_only_an_answer_finishes(tools, Transition { log: step.log + next.log, ..next });
        }
    }
}

} // verus!
