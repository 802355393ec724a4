//! The agent loop: chat, tool calls, tool results, and again, until the model
//! answers without asking for a tool.
//!
//! [`Agent`] decides; it never waits. Each step says what to log and what to
//! do next, and is followed by the step that takes the outcome of that action.

use vstd::prelude::*;
use vstd::string::*;

use crate::config::{ModelConfig, Task};
use crate::events::{
    final_answer, final_answer_log, law_final_answer_tells, law_request_tells, law_response_tells,
    law_tool_call_tells, law_tool_result_tells, law_tools_registered_tells, llm_request,
    llm_request_log, llm_response, llm_response_log, log_views, loggable, tool_call, tool_call_log, tool_result, tool_result_log, tools_registered,
    tools_registered_log, LogEntry, LogView,
};
use crate::json::{
    distinct_keys, field, flag_field, json_parse, number_field, text_field, Fields, Json, JsonView,
};
use crate::mcp::{joined_text, opt_text, ToolCallResult};
use crate::openai::{
    call_views, duplicate_calls, duplicate_messages, duplicate_text, duplicate_tools,
    message_views, offered, ChatCompletionRequest, ChatCompletionResponse, Message, MessageView,
    tells_call, tells_usage, OpenAITool, OpenAIToolView, ReplyView, RequestView, ToolCall, ToolCallView, Usage,
};
use crate::text::{decimal, decimal_text, lemma_shows_between, names, same_text, shows};
use crate::thinking::{strip_thinking_tags, without_thinking};

verus! {

/// What an agent waits for.
#[derive(Debug, Clone, Copy, PartialEq, Eq, Structural)]
pub enum Phase {
    /// The model's answer to the last request.
    Reply,
    /// The result of the first call that is not answered yet.
    Tool,
    /// Nothing: the loop has ended.
    Done,
}

/// The state of an agent loop.
#[derive(Debug)]
pub struct Agent {
    model_id: String,
    max_tokens: u32,
    max_iterations: u32,
    strip_thinking: bool,
    tools: Vec<OpenAITool>,
    messages: Vec<Message>,
    iterations: u32,
    usage: Usage,
    calls: Vec<ToolCall>,
    answered: usize,
    phase: Phase,
}

/// The mathematical form of an [`Agent`].
#[verifier::ext_equal]
pub struct AgentView {
    pub model_id: Seq<char>,
    pub max_tokens: u32,
    pub max_iterations: u32,
    /// Whether reasoning is taken out of what the model says.
    pub strip_thinking: bool,
    pub tools: Seq<OpenAIToolView>,
    /// The conversation so far.
    pub messages: Seq<MessageView>,
    /// The requests made so far.
    pub iterations: u32,
    /// The tokens used so far.
    pub usage: Usage,
    /// The calls of the model's last answer.
    pub calls: Seq<ToolCallView>,
    /// How many of these calls are answered.
    pub answered: nat,
    pub phase: Phase,
}

impl View for Agent {
    type V = AgentView;

    closed spec fn view(&self) -> AgentView {
        AgentView {
            model_id: self.model_id@,
            max_tokens: self.max_tokens,
            max_iterations: self.max_iterations,
            strip_thinking: self.strip_thinking,
            tools: offered(self.tools@),
            messages: message_views(self.messages@),
            iterations: self.iterations,
            usage: self.usage,
            calls: call_views(self.calls@),
            answered: self.answered as nat,
            phase: self.phase,
        }
    }
}

/// The outcome of a run that gave an answer.
#[derive(Debug)]
pub struct AgentResult {
    pub final_answer: String,
    pub iterations: u32,
    pub duration_ms: u64,
    pub total_usage: Usage,
}

/// The mathematical form of an [`AgentResult`].
#[verifier::ext_equal]
pub struct ResultView {
    pub final_answer: Seq<char>,
    pub iterations: u32,
    pub duration_ms: u64,
    pub total_usage: Usage,
}

impl View for AgentResult {
    type V = ResultView;

    open spec fn view(&self) -> ResultView {
        ResultView {
            final_answer: self.final_answer@,
            iterations: self.iterations,
            duration_ms: self.duration_ms,
            total_usage: self.total_usage,
        }
    }
}

/// Why a loop ended without an answer.
#[derive(Debug, Clone, Copy, PartialEq, Eq)]
pub enum AgentError {
    /// The model asked for tools in every request that the task allows.
    TooManyIterations(u32),
    /// The endpoint answered without a choice.
    NoChoices,
}

/// The message of an error.
pub open spec fn agent_error_text(error: AgentError) -> Seq<char> {
    match error {
        AgentError::TooManyIterations(limit) => "max iterations ("@ + decimal(limit as nat)
            + ") exceeded"@,
        AgentError::NoChoices => "no choices in LLM response"@,
    }
}

impl AgentError {
    /// The message for the log.
    pub fn message(&self) -> (text: String)
        ensures
            text@ == agent_error_text(*self),
    {
        match self {
            AgentError::TooManyIterations(limit) => "max iterations (".to_owned().concat(
                decimal_text(*limit as u64).as_str(),
            ).concat(") exceeded"),
            AgentError::NoChoices => "no choices in LLM response".to_owned(),
        }
    }
}

/// A tool call to make: the exposed name and the parsed arguments.
#[derive(Debug)]
pub struct ToolRequest {
    pub name: String,
    pub arguments: Json,
}

/// What to do next.
#[derive(Debug)]
pub enum AgentAction {
    /// Send the request, then go on with [`Agent::on_reply`].
    Chat(ChatCompletionRequest),
    /// Make the call, then go on with [`Agent::on_tool_outcome`].
    CallTool(ToolRequest),
    /// The loop has ended with an answer.
    Finish(AgentResult),
    /// The loop has ended without one.
    Fail(AgentError),
}

/// The mathematical form of an [`AgentAction`].
#[verifier::ext_equal]
pub enum ActionView {
    Chat(RequestView),
    CallTool(Seq<char>, JsonView),
    Finish(ResultView),
    Fail(AgentError),
}

impl View for AgentAction {
    type V = ActionView;

    open spec fn view(&self) -> ActionView {
        match self {
            AgentAction::Chat(request) => ActionView::Chat(request@),
            AgentAction::CallTool(call) => ActionView::CallTool(call.name@, call.arguments@),
            AgentAction::Finish(result) => ActionView::Finish(result@),
            AgentAction::Fail(error) => ActionView::Fail(*error),
        }
    }
}

/// One step of the loop: what to log, in order, and then what to do.
#[derive(Debug)]
pub struct AgentStep {
    pub log: Vec<LogEntry>,
    pub action: AgentAction,
}

impl AgentStep {
    /// What is logged can be written and read back, and the arguments of a call
    /// can be sent.
    pub open spec fn sound(self) -> bool {
        &&& forall|i: int| 0 <= i < self.log@.len() ==> loggable((#[trigger] self.log@[i]).data@)
        &&& self.action matches AgentAction::CallTool(call) ==> distinct_keys(call.arguments@)
    }
}

/// The state after a step, and what the step says.
#[verifier::ext_equal]
pub struct Transition {
    pub agent: AgentView,
    pub log: Seq<LogView>,
    pub action: ActionView,
}

/// What came of a tool call.
#[derive(Debug)]
pub enum ToolOutcome {
    /// The server answered.
    Answered(ToolCallResult),
    /// The call could not be made, and why.
    Failed(String),
}

/// Whether a call went well, and what the model is told of it.
pub open spec fn outcome_text(outcome: ToolOutcome) -> (bool, Seq<char>) {
    match outcome {
        ToolOutcome::Answered(result) => (!result.is_error, joined_text(result.content@)),
        ToolOutcome::Failed(error) => (false, "Error: "@ + error@),
    }
}

/// A message of plain text.
pub open spec fn plain_message(role: Seq<char>, content: Seq<char>) -> MessageView {
    MessageView { role, content: Some(content), tool_calls: None, tool_call_id: None }
}

/// What the model said when it asked for tools. Its reasoning is left out.
pub open spec fn assistant_message(reply: ReplyView) -> MessageView {
    MessageView {
        role: "assistant"@,
        content: reply.content,
        tool_calls: Some(reply.tool_calls),
        tool_call_id: None,
    }
}

/// The answer to a tool call.
pub open spec fn tool_message(id: Seq<char>, content: Seq<char>) -> MessageView {
    MessageView {
        role: "tool"@,
        content: Some(content),
        tool_calls: None,
        tool_call_id: Some(id),
    }
}

/// The messages that open a conversation.
pub open spec fn opening(
    strategy: Seq<char>,
    system_prompt: Seq<char>,
    user_prompt: Seq<char>,
) -> Seq<MessageView> {
    if strategy == "first_user_turn"@ {
        seq![plain_message("user"@, system_prompt + "\n\n"@ + user_prompt)]
    } else {
        seq![plain_message("system"@, system_prompt), plain_message("user"@, user_prompt)]
    }
}

/// The request for the model's next answer. Tools are offered where there are
/// any, and the model chooses.
pub open spec fn chat_request(agent: AgentView) -> RequestView {
    RequestView {
        model: agent.model_id,
        messages: agent.messages,
        tools: if agent.tools.len() == 0 {
            None
        } else {
            Some(agent.tools)
        },
        tool_choice: if agent.tools.len() == 0 {
            None
        } else {
            Some("auto"@)
        },
        max_tokens: Some(agent.max_tokens),
        stream: false,
    }
}

/// One more request, unless the task allows no more.
pub open spec fn next_request(agent: AgentView) -> Transition {
    if agent.iterations >= agent.max_iterations {
        Transition {
            agent: AgentView { phase: Phase::Done, ..agent },
            log: Seq::empty(),
            action: ActionView::Fail(AgentError::TooManyIterations(agent.max_iterations)),
        }
    } else {
        let iteration = (agent.iterations + 1) as u32;
        Transition {
            agent: AgentView { iterations: iteration, phase: Phase::Reply, ..agent },
            log: seq![llm_request_log(iteration, agent.model_id, agent.messages.len())],
            action: ActionView::Chat(chat_request(agent)),
        }
    }
}

/// The names under which tools are offered.
pub open spec fn offered_names(tools: Seq<OpenAIToolView>) -> Seq<Seq<char>> {
    tools.map_values(|t: OpenAIToolView| t.name)
}

/// No tokens.
pub open spec fn no_usage() -> Usage {
    Usage { prompt_tokens: 0, completion_tokens: 0, total_tokens: 0 }
}

/// The state before the first request.
pub open spec fn fresh(
    task: Task,
    model: ModelConfig,
    tools: Seq<OpenAIToolView>,
    system_prompt: Seq<char>,
) -> AgentView {
    AgentView {
        model_id: model.model_id@,
        max_tokens: model.max_tokens,
        max_iterations: task.max_iterations,
        strip_thinking: model.strip_thinking_tags,
        tools,
        messages: opening(model.system_prompt_strategy@, system_prompt, task.user_prompt@),
        iterations: 0,
        usage: no_usage(),
        calls: Seq::empty(),
        answered: 0,
        phase: Phase::Reply,
    }
}

/// The beginning of the loop.
pub open spec fn started(
    task: Task,
    model: ModelConfig,
    tools: Seq<OpenAIToolView>,
    system_prompt: Seq<char>,
) -> Transition {
    let first = next_request(fresh(task, model, tools, system_prompt));
    Transition { log: seq![tools_registered_log(offered_names(tools))] + first.log, ..first }
}

/// The counts of two usages fit together.
pub open spec fn usage_fits(total: Usage, more: Option<Usage>) -> bool {
    more matches Some(u) ==> {
        &&& total.prompt_tokens + u.prompt_tokens <= u32::MAX
        &&& total.completion_tokens + u.completion_tokens <= u32::MAX
        &&& total.total_tokens + u.total_tokens <= u32::MAX
    }
}

/// The counts of two usages together.
pub open spec fn usage_sum(total: Usage, more: Option<Usage>) -> Usage {
    match more {
        Some(u) => Usage {
            prompt_tokens: (total.prompt_tokens + u.prompt_tokens) as u32,
            completion_tokens: (total.completion_tokens + u.completion_tokens) as u32,
            total_tokens: (total.total_tokens + u.total_tokens) as u32,
        },
        None => total,
    }
}

/// What is shown of the model's answer: without reasoning, where the model is
/// configured so and gives none apart.
pub open spec fn displayed(strip_thinking: bool, reply: ReplyView) -> Option<Seq<char>> {
    match reply.content {
        Some(content) => if strip_thinking && reply.reasoning is None {
            Some(without_thinking(content))
        } else {
            Some(content)
        },
        None => None,
    }
}

/// The arguments of a call: those of its JSON text, or none where it is none.
pub open spec fn call_arguments(text: Seq<char>) -> JsonView {
    match json_parse(text) {
        Some(json) => json,
        None => JsonView::Object(Seq::empty()),
    }
}

/// The log entry of the next call to make.
pub open spec fn call_log(agent: AgentView) -> LogView {
    let call = agent.calls[agent.answered as int];
    tool_call_log(agent.iterations, call.id, call.name, call.arguments)
}

/// The next call to make.
pub open spec fn call_action(agent: AgentView) -> ActionView {
    let call = agent.calls[agent.answered as int];
    ActionView::CallTool(call.name, call_arguments(call.arguments))
}

/// The step on the model's answer.
pub open spec fn after_reply(
    agent: AgentView,
    response: ChatCompletionResponse,
    elapsed_ms: u64,
) -> Transition {
    let counted = AgentView { usage: usage_sum(agent.usage, response.usage), ..agent };
    if response.choices@.len() == 0 {
        Transition {
            agent: AgentView { phase: Phase::Done, ..counted },
            log: Seq::empty(),
            action: ActionView::Fail(AgentError::NoChoices),
        }
    } else {
        let reply = response.choices@[0].message@;
        let shown = displayed(agent.strip_thinking, reply);
        let told = llm_response_log(
            agent.iterations,
            shown,
            reply.tool_calls,
            reply.reasoning,
            response.usage,
        );
        if reply.tool_calls.len() == 0 {
            let answer = match shown {
                Some(content) => content,
                None => Seq::empty(),
            };
            Transition {
                agent: AgentView { phase: Phase::Done, ..counted },
                log: seq![told, final_answer_log(agent.iterations, answer)],
                action: ActionView::Finish(
                    ResultView {
                        final_answer: answer,
                        iterations: agent.iterations,
                        duration_ms: elapsed_ms,
                        total_usage: counted.usage,
                    },
                ),
            }
        } else {
            let asked = AgentView {
                messages: agent.messages.push(assistant_message(reply)),
                calls: reply.tool_calls,
                answered: 0,
                phase: Phase::Tool,
                ..counted
            };
            Transition { agent: asked, log: seq![told, call_log(asked)], action: call_action(asked) }
        }
    }
}

/// The step on the outcome of a tool call: whether it went well, and what the
/// model is told of it.
pub open spec fn after_tool(agent: AgentView, ok: bool, content: Seq<char>) -> Transition {
    let id = agent.calls[agent.answered as int].id;
    let told = tool_result_log(agent.iterations, id, ok, content);
    let informed = AgentView {
        messages: agent.messages.push(tool_message(id, content)),
        answered: agent.answered + 1,
        ..agent
    };
    if informed.answered < agent.calls.len() {
        Transition {
            agent: informed,
            log: seq![told, call_log(informed)],
            action: call_action(informed),
        }
    } else {
        let next = next_request(informed);
        Transition { log: seq![told] + next.log, ..next }
    }
}

/// A message with this role and this text alone.
fn message_of(role: &str, content: String) -> (message: Message)
    ensures
        message@ == plain_message(role@, content@),
{
    Message {
        role: role.to_owned(),
        content: Some(content),
        tool_calls: None,
        tool_call_id: None,
    }
}

/// The names of a list of tools.
fn tool_labels(tools: &Vec<OpenAITool>) -> (labels: Vec<String>)
    ensures
        names(labels@) == offered_names(offered(tools@)),
{
    let mut labels: Vec<String> = Vec::new();
    let mut i: usize = 0;
    while i < tools.len()
        invariant
            i <= tools@.len(),
            labels@.len() == i,
            forall|k: int| 0 <= k < i ==> (#[trigger] labels@[k])@ == tools@[k].function.name@,
        decreases tools@.len() - i,
    {
        labels.push(tools[i].function.name.clone());
        i += 1;
    }
    assert(names(labels@) =~= offered_names(offered(tools@)));
    labels
}

/// The messages that open a conversation.
fn open_conversation(strategy: &str, system_prompt: &str, user_prompt: &str) -> (messages: Vec<
    Message,
>)
    ensures
        message_views(messages@) == opening(strategy@, system_prompt@, user_prompt@),
{
    let mut messages: Vec<Message> = Vec::new();
    if same_text(strategy, "first_user_turn") {
        messages.push(
            message_of("user", system_prompt.to_owned().concat("\n\n").concat(user_prompt)),
        );
    } else {
        messages.push(message_of("system", system_prompt.to_owned()));
        messages.push(message_of("user", user_prompt.to_owned()));
    }
    assert(message_views(messages@) =~= opening(strategy@, system_prompt@, user_prompt@));
    messages
}

/// Whether the token counts of an answer can be added to the total.
pub fn can_add_usage(total: &Usage, more: &Option<Usage>) -> (fits: bool)
    ensures
        fits == usage_fits(*total, *more),
{
    match more {
        Some(u) => total.prompt_tokens <= u32::MAX - u.prompt_tokens && total.completion_tokens
            <= u32::MAX - u.completion_tokens && total.total_tokens <= u32::MAX - u.total_tokens,
        None => true,
    }
}

/// The arguments that a call carries, or none where they are no JSON.
pub fn parse_arguments(text: &str) -> (arguments: Json)
    ensures
        arguments@ == call_arguments(text@),
        distinct_keys(arguments@),
{
    match Json::parse(text) {
        Some(json) => json,
        None => Fields::new().object(),
    }
}

impl ToolOutcome {
    /// Whether the call went well, and what the model is told of it.
    pub fn report(&self) -> (told: (bool, String))
        ensures
            (told.0, told.1@) == outcome_text(*self),
    {
        match self {
            ToolOutcome::Answered(result) => (!result.is_error, result.text_content()),
            ToolOutcome::Failed(error) => (false, "Error: ".to_owned().concat(error.as_str())),
        }
    }
}

/// What holds in every state of the loop: no more requests than the task
/// allows, and calls to answer exactly while one is waited for.
pub open spec fn steady(agent: AgentView) -> bool {
    &&& agent.iterations <= agent.max_iterations
    &&& agent.phase == Phase::Tool ==> agent.answered < agent.calls.len()
    &&& agent.phase == Phase::Reply ==> agent.answered == agent.calls.len()
}

impl Agent {
    /// The state is one that the loop can be in.
    pub open spec fn well_formed(self) -> bool {
        steady(self@)
    }

    /// The tokens used so far.
    pub fn total_usage(&self) -> (usage: Usage)
        ensures
            usage == self@.usage,
    {
        self.usage
    }

    /// What the agent waits for.
    pub fn phase(&self) -> (phase: Phase)
        ensures
            phase == self@.phase,
    {
        self.phase
    }

    /// The request for the model's next answer.
    fn request(&self) -> (request: ChatCompletionRequest)
        ensures
            request@ == chat_request(self@),
    {
        let bare = self.tools.len() == 0;
        ChatCompletionRequest {
            model: self.model_id.clone(),
            messages: duplicate_messages(&self.messages),
            tools: if bare {
                None
            } else {
                Some(duplicate_tools(&self.tools))
            },
            tool_choice: if bare {
                None
            } else {
                Some("auto".to_owned())
            },
            max_tokens: Some(self.max_tokens),
            stream: false,
        }
    }

    /// One more request, unless the task allows no more. Appends to `log`.
    fn ask(&mut self, log: &mut Vec<LogEntry>) -> (action: AgentAction)
        requires
            old(self)@.iterations <= old(self)@.max_iterations,
            forall|i: int| 0 <= i < old(log)@.len() ==> loggable((#[trigger] old(log)@[i]).data@),
        ensures
            final(self)@ == next_request(old(self)@).agent,
            log_views(final(log)@) == log_views(old(log)@) + next_request(old(self)@).log,
            forall|i: int|
                0 <= i < final(log)@.len() ==> loggable((#[trigger] final(log)@[i]).data@),
            action@ == next_request(old(self)@).action,
            action !is CallTool,
    {
        let ghost before = log_views(log@);
        if self.iterations >= self.max_iterations {
            self.phase = Phase::Done;
            assert(before + Seq::<LogView>::empty() =~= before);
            AgentAction::Fail(AgentError::TooManyIterations(self.max_iterations))
        } else {
            let request = self.request();
            self.iterations = self.iterations + 1;
            self.phase = Phase::Reply;
            log.push(
                llm_request(self.iterations, self.model_id.as_str(), self.messages.len()),
            );
            assert(log_views(log@) =~= before + next_request(old(self)@).log);
            AgentAction::Chat(request)
        }
    }

    /// Begins the loop for a task.
    pub fn start(
        task: &Task,
        model: &ModelConfig,
        tools: Vec<OpenAITool>,
        system_prompt: &str,
    ) -> (begun: (Agent, AgentStep))
        ensures
            ({
                let to = started(*task, *model, offered(tools@), system_prompt@);
                &&& begun.0@ == to.agent
                &&& log_views(begun.1.log@) == to.log
                &&& begun.1.action@ == to.action
            }),
            begun.0.well_formed(),
            begun.1.sound(),
    {
        let mut log: Vec<LogEntry> = Vec::new();
        log.push(tools_registered(&tool_labels(&tools)));
        let messages = open_conversation(
            model.system_prompt_strategy.as_str(),
            system_prompt,
            task.user_prompt.as_str(),
        );
        let mut agent = Agent {
            model_id: model.model_id.clone(),
            max_tokens: model.max_tokens,
            max_iterations: task.max_iterations,
            strip_thinking: model.strip_thinking_tags,
            tools,
            messages,
            iterations: 0,
            usage: Usage { prompt_tokens: 0, completion_tokens: 0, total_tokens: 0 },
            calls: Vec::new(),
            answered: 0,
            phase: Phase::Reply,
        };
        assert(agent@ =~= fresh(*task, *model, offered(tools@), system_prompt@));
        assert(log_views(log@) =~= seq![tools_registered_log(offered_names(offered(tools@)))]);
        let action = agent.ask(&mut log);
        (agent, AgentStep { log, action })
    }

    /// The next call to make, with its log entry appended to `log`.
    fn next_call(&self, log: &mut Vec<LogEntry>) -> (action: AgentAction)
        requires
            self@.answered < self@.calls.len(),
            forall|i: int| 0 <= i < old(log)@.len() ==> loggable((#[trigger] old(log)@[i]).data@),
        ensures
            log_views(final(log)@) == log_views(old(log)@).push(call_log(self@)),
            forall|i: int|
                0 <= i < final(log)@.len() ==> loggable((#[trigger] final(log)@[i]).data@),
            action@ == call_action(self@),
            action matches AgentAction::CallTool(call) ==> distinct_keys(call.arguments@),
    {
        let ghost before = log_views(log@);
        let call = &self.calls[self.answered];
        log.push(
            tool_call(
                self.iterations,
                call.id.as_str(),
                call.function.name.as_str(),
                call.function.arguments.as_str(),
            ),
        );
        assert(log_views(log@) =~= before.push(call_log(self@)));
        AgentAction::CallTool(
            ToolRequest {
                name: call.function.name.clone(),
                arguments: parse_arguments(call.function.arguments.as_str()),
            },
        )
    }

    /// Takes the model's answer. `elapsed_ms` is the time since the loop began.
    pub fn on_reply(&mut self, response: ChatCompletionResponse, elapsed_ms: u64) -> (step:
        AgentStep)
        requires
            old(self).well_formed(),
            old(self)@.phase == Phase::Reply,
            usage_fits(old(self)@.usage, response.usage),
        ensures
            ({
                let to = after_reply(old(self)@, response, elapsed_ms);
                &&& final(self)@ == to.agent
                &&& log_views(step.log@) == to.log
                &&& step.action@ == to.action
            }),
            final(self).well_formed(),
            step.sound(),
    {
        let ghost before = self@;
        let ghost to = after_reply(before, response, elapsed_ms);
        let mut log: Vec<LogEntry> = Vec::new();
        if let Some(u) = response.usage {
            self.usage = Usage {
                prompt_tokens: self.usage.prompt_tokens + u.prompt_tokens,
                completion_tokens: self.usage.completion_tokens + u.completion_tokens,
                total_tokens: self.usage.total_tokens + u.total_tokens,
            };
        }
        if response.choices.len() == 0 {
            self.phase = Phase::Done;
            assert(log_views(log@) =~= to.log);
            return AgentStep { log, action: AgentAction::Fail(AgentError::NoChoices) };
        }
        let message = &response.choices[0].message;
        let calls: Vec<ToolCall> = match &message.tool_calls {
            Some(calls) => duplicate_calls(calls),
            None => {
                let none: Vec<ToolCall> = Vec::new();
                assert(call_views(none@) =~= Seq::empty());
                none
            },
        };
        let shown: Option<String> = match &message.content {
            Some(content) => if self.strip_thinking && message.reasoning_content.is_none() {
                Some(strip_thinking_tags(content.as_str()))
            } else {
                Some(content.clone())
            },
            None => None,
        };
        assert(opt_text(shown) == displayed(before.strip_thinking, message@));
        log.push(
            llm_response(
                self.iterations,
                &shown,
                &calls,
                &message.reasoning_content,
                &response.usage,
            ),
        );
        if calls.len() == 0 {
            let answer = match shown {
                Some(content) => content,
                None => String::new(),
            };
            log.push(final_answer(self.iterations, answer.as_str()));
            self.phase = Phase::Done;
            assert(log_views(log@) =~= to.log);
            AgentStep {
                log,
                action: AgentAction::Finish(
                    AgentResult {
                        final_answer: answer,
                        iterations: self.iterations,
                        duration_ms: elapsed_ms,
                        total_usage: self.usage,
                    },
                ),
            }
        } else {
            let spoken = Message {
                role: "assistant".to_owned(),
                content: duplicate_text(&message.content),
                tool_calls: Some(duplicate_calls(&calls)),
                tool_call_id: None,
            };
            assert(spoken@ =~= assistant_message(message@));
            self.messages.push(spoken);
            assert(message_views(self.messages@) =~= before.messages.push(
                assistant_message(message@),
            ));
            self.calls = calls;
            self.answered = 0;
            self.phase = Phase::Tool;
            assert(self@ =~= to.agent);
            let action = self.next_call(&mut log);
            assert(log_views(log@) =~= to.log);
            AgentStep { log, action }
        }
    }

    /// Takes the outcome of the call that was last asked for.
    pub fn on_tool_outcome(&mut self, outcome: ToolOutcome) -> (step: AgentStep)
        requires
            old(self).well_formed(),
            old(self)@.phase == Phase::Tool,
        ensures
            ({
                let (ok, content) = outcome_text(outcome);
                let to = after_tool(old(self)@, ok, content);
                &&& final(self)@ == to.agent
                &&& log_views(step.log@) == to.log
                &&& step.action@ == to.action
            }),
            final(self).well_formed(),
            step.sound(),
    {
        let ghost before = self@;
        let ghost to = after_tool(before, outcome_text(outcome).0, outcome_text(outcome).1);
        let mut log: Vec<LogEntry> = Vec::new();
        let (ok, content) = outcome.report();
        let total = self.calls.len();
        let id = self.calls[self.answered].id.clone();
        log.push(tool_result(self.iterations, id.as_str(), ok, content.as_str()));
        self.messages.push(
            Message {
                role: "tool".to_owned(),
                content: Some(content),
                tool_calls: None,
                tool_call_id: Some(id),
            },
        );
        self.answered = self.answered + 1;
        assert(message_views(self.messages@) =~= before.messages.push(
            tool_message(before.calls[before.answered as int].id, outcome_text(outcome).1),
        ));
        if self.answered < total {
            assert(self@ =~= to.agent);
            let action = self.next_call(&mut log);
            assert(log_views(log@) =~= to.log);
            AgentStep { log, action }
        } else {
            assert(log_views(log@) =~= to.log.take(1));
            let action = self.ask(&mut log);
            assert(log_views(log@) =~= to.log);
            AgentStep { log, action }
        }
    }
}

/// Every call of the model is answered: the messages after one that asks for
/// tools are the answers to its calls, in their order.
pub open spec fn answers_follow(messages: Seq<MessageView>) -> bool {
    forall|at: int, i: int|
        #![trigger messages[at], messages[i]]
        0 <= at < i < messages.len() && (messages[at].tool_calls matches Some(calls) && i - at - 1
            < calls.len()) ==> {
            &&& messages[i].role == "tool"@
            &&& messages[i].tool_calls is None
            &&& messages[i].tool_call_id == Some(messages[at].tool_calls->0[i - at - 1].id)
        }
}

/// The message that asked for the current calls comes right before their
/// answers, and every earlier call is answered.
pub open spec fn conversation_kept(agent: AgentView) -> bool {
    &&& answers_follow(agent.messages)
    &&& forall|at: int|
        0 <= at < agent.messages.len() && (#[trigger] agent.messages[at]).tool_calls is Some && !(
        agent.phase == Phase::Tool && at == agent.messages.len() - 1 - agent.answered) ==> at
            + agent.messages[at].tool_calls->0.len() < agent.messages.len()
    &&& agent.phase == Phase::Tool ==> {
        &&& agent.messages.len() > agent.answered
        &&& agent.messages[agent.messages.len() - 1 - agent.answered].tool_calls == Some(
            agent.calls,
        )
    }
}

/// A loop begins with a conversation in which nothing waits for an answer.
pub proof fn law_start_keeps_conversation(
    task: Task,
    model: ModelConfig,
    tools: Seq<OpenAIToolView>,
    system_prompt: Seq<char>,
)
    ensures
        conversation_kept(started(task, model, tools, system_prompt).agent),
        steady(started(task, model, tools, system_prompt).agent),
{
}

/// No model is special: two models with the same settings are asked in the same
/// way, whatever they are called.
pub proof fn law_settings_alone_decide(
    task: Task,
    one: ModelConfig,
    other: ModelConfig,
    tools: Seq<OpenAIToolView>,
    system_prompt: Seq<char>,
)
    requires
        one.model_id@ == other.model_id@,
        one.max_tokens == other.max_tokens,
        one.strip_thinking_tags == other.strip_thinking_tags,
        one.system_prompt_strategy@ == other.system_prompt_strategy@,
    ensures
        started(task, one, tools, system_prompt) == started(task, other, tools, system_prompt),
{
}

/// Whatever the model answers, each of its calls gets its own answer, in the
/// order of the calls and under the call's id.
pub proof fn law_reply_keeps_conversation(
    agent: AgentView,
    response: ChatCompletionResponse,
    elapsed_ms: u64,
)
    requires
        steady(agent),
        conversation_kept(agent),
        agent.phase == Phase::Reply,
    ensures
        conversation_kept(after_reply(agent, response, elapsed_ms).agent),
        steady(after_reply(agent, response, elapsed_ms).agent),
{
    let before = agent.messages;
    let after = after_reply(agent, response, elapsed_ms).agent.messages;
    assert forall|at: int| 0 <= at < before.len() implies #[trigger] after[at] == before[at] by {}
    assert forall|at: int, i: int|
        #![trigger after[at], after[i]]
        0 <= at < i < after.len() && (after[at].tool_calls matches Some(calls) && i - at - 1
            < calls.len()) implies {
        &&& after[i].role == "tool"@
        &&& after[i].tool_calls is None
        &&& after[i].tool_call_id == Some(after[at].tool_calls->0[i - at - 1].id)
    } by {
        assert(before[at].tool_calls is Some);
        assert(before[at] == after[at]);
        assert(before[i] == after[i]);
    }
}

/// Whatever comes of a call, the conversation goes on with its answer.
pub proof fn law_tool_keeps_conversation(agent: AgentView, ok: bool, content: Seq<char>)
    requires
        steady(agent),
        conversation_kept(agent),
        agent.phase == Phase::Tool,
    ensures
        conversation_kept(after_tool(agent, ok, content).agent),
        steady(after_tool(agent, ok, content).agent),
{
    let before = agent.messages;
    let after = after_tool(agent, ok, content).agent.messages;
    let asker = before.len() - 1 - agent.answered;
    assert forall|at: int| 0 <= at < before.len() implies #[trigger] after[at] == before[at] by {}
    assert forall|at: int, i: int|
        #![trigger after[at], after[i]]
        0 <= at < i < after.len() && (after[at].tool_calls matches Some(calls) && i - at - 1
            < calls.len()) implies {
        &&& after[i].role == "tool"@
        &&& after[i].tool_calls is None
        &&& after[i].tool_call_id == Some(after[at].tool_calls->0[i - at - 1].id)
    } by {
        assert(before[at] == after[at]);
        if i < before.len() {
            assert(before[i] == after[i]);
        } else if at != asker {
            assert(at + before[at].tool_calls->0.len() < before.len());
        }
    }
    assert forall|at: int|
        0 <= at < after.len() && (#[trigger] after[at]).tool_calls is Some && !(after_tool(
            agent,
            ok,
            content,
        ).agent.phase == Phase::Tool && at == after.len() - 1 - (agent.answered
            + 1)) implies at + after[at].tool_calls->0.len() < after.len() by {
        if at < before.len() {
            assert(before[at] == after[at]);
            assert(before[asker] == after[asker]);
        }
    }
}

/// The reasoning of the model is never sent back to it: two answers that differ
/// in their reasoning alone lead to the same conversation.
pub proof fn law_reasoning_is_not_echoed(
    agent: AgentView,
    one: ChatCompletionResponse,
    other: ChatCompletionResponse,
    elapsed_ms: u64,
)
    requires
        one.choices@.len() > 0,
        other.choices@.len() > 0,
        one.choices@[0].message@.content == other.choices@[0].message@.content,
        one.choices@[0].message@.tool_calls == other.choices@[0].message@.tool_calls,
    ensures
        after_reply(agent, one, elapsed_ms).agent.messages == after_reply(
            agent,
            other,
            elapsed_ms,
        ).agent.messages,
{
}

/// Nothing that was said is forgotten or changed: a step keeps the conversation
/// and at most goes on with it.
pub proof fn law_conversation_grows(
    agent: AgentView,
    response: ChatCompletionResponse,
    ok: bool,
    content: Seq<char>,
    elapsed_ms: u64,
)
    ensures
        agent.messages.is_prefix_of(after_reply(agent, response, elapsed_ms).agent.messages),
        agent.messages.is_prefix_of(after_tool(agent, ok, content).agent.messages),
{
    let replied = after_reply(agent, response, elapsed_ms).agent.messages;
    assert(agent.messages =~= replied.subrange(0, agent.messages.len() as int));
    let told = after_tool(agent, ok, content).agent.messages;
    assert(agent.messages =~= told.subrange(0, agent.messages.len() as int));
}

/// A request is sent exactly while the task allows one more, and carries the
/// whole conversation and all tools. With none allowed the loop ends, and says
/// how many were.
pub proof fn law_requests_are_counted(agent: AgentView)
    ensures
        ({
            let to = next_request(agent);
            &&& to.action is Chat <==> agent.iterations < agent.max_iterations
            &&& to.action is Chat ==> {
                &&& to.agent.iterations == agent.iterations + 1
                &&& to.action->Chat_0.messages == agent.messages
                &&& to.action->Chat_0.tools == if agent.tools.len() == 0 {
                    None
                } else {
                    Some(agent.tools)
                }
            }
            &&& agent.iterations >= agent.max_iterations ==> to.action == ActionView::Fail(
                AgentError::TooManyIterations(agent.max_iterations),
            )
        }),
{
}

/// How many steps a loop can still take without a new answer of the model.
pub open spec fn steps_left(agent: AgentView) -> nat {
    if agent.phase == Phase::Tool {
        (agent.calls.len() - agent.answered) as nat
    } else {
        0
    }
}

/// The loop ends: a step on a tool call either ends it, or leaves fewer calls
/// to answer, or uses up one of the requests that the task allows. A step on an
/// answer either ends it or turns to its calls.
pub proof fn law_loop_ends(
    agent: AgentView,
    response: ChatCompletionResponse,
    ok: bool,
    content: Seq<char>,
    elapsed_ms: u64,
)
    requires
        steady(agent),
    ensures
        agent.phase == Phase::Reply ==> {
            let to = after_reply(agent, response, elapsed_ms).agent;
            to.iterations == agent.iterations && (to.phase == Phase::Done || to.phase
                == Phase::Tool)
        },
        agent.phase == Phase::Tool ==> {
            let to = after_tool(agent, ok, content).agent;
            ||| to.phase == Phase::Done
            ||| to.iterations == agent.iterations && to.phase == Phase::Tool && steps_left(to)
                < steps_left(agent)
            ||| to.phase == Phase::Reply && to.max_iterations - to.iterations
                < agent.max_iterations - agent.iterations
        },
{
}

/// The tokens of all answers together.
pub open spec fn usage_of_all(usages: Seq<Option<Usage>>) -> Usage
    decreases usages.len(),
{
    if usages.len() == 0 {
        no_usage()
    } else {
        usage_sum(usage_of_all(usages.drop_last()), usages.last())
    }
}

/// The total counts the tokens of every answer: where it stands at the sum of
/// the answers so far, it stands at the sum of all after one more.
pub proof fn law_usage_adds_up(
    agent: AgentView,
    usages: Seq<Option<Usage>>,
    response: ChatCompletionResponse,
    elapsed_ms: u64,
)
    requires
        agent.usage == usage_of_all(usages),
    ensures
        after_reply(agent, response, elapsed_ms).agent.usage == usage_of_all(
            usages.push(response.usage),
        ),
{
    assert(usages.push(response.usage).drop_last() =~= usages);
}

/// What comes of a call is told in full, to the model and to the log: the
/// conversation goes on with one message in the role of a tool, under the id of
/// the call, whose content is the text of the answer, or what went wrong; and the
/// log says the same.
pub proof fn law_tool_outcome_is_told(agent: AgentView, outcome: ToolOutcome)
    requires
        agent.answered < agent.calls.len(),
    ensures
        ({
            let to = after_tool(agent, outcome_text(outcome).0, outcome_text(outcome).1);
            let call = agent.calls[agent.answered as int];
            let message = to.agent.messages.last();
            let entry = to.log[0];
            &&& to.agent.messages.len() == agent.messages.len() + 1
            &&& agent.messages.is_prefix_of(to.agent.messages)
            &&& message.role == "tool"@
            &&& message.tool_call_id == Some(call.id)
            &&& message.tool_calls is None
            &&& outcome matches ToolOutcome::Answered(result) ==> message.content == Some(
                joined_text(result.content@),
            ) && flag_field(entry.data, "ok"@) == Some(!result.is_error)
            &&& outcome matches ToolOutcome::Failed(error) ==> message.content == Some(
                "Error: "@ + error@,
            ) && flag_field(entry.data, "ok"@) == Some(false)
            &&& to.log.len() > 0
            &&& entry.kind == "tool_result"@
            &&& text_field(entry.data, "content"@) == message.content
            &&& text_field(entry.data, "id"@) == Some(call.id)
            &&& number_field(entry.data, "iteration"@) == Some(agent.iterations as u64)
        }),
{
    let (ok, content) = outcome_text(outcome);
    let to = after_tool(agent, ok, content);
    let call = agent.calls[agent.answered as int];
    law_tool_result_tells(agent.iterations, call.id, ok, content);
    assert(to.log[0] == tool_result_log(agent.iterations, call.id, ok, content));
    assert(agent.messages =~= to.agent.messages.subrange(0, agent.messages.len() as int));
}

/// After the outcome of a call the next call of the same answer is made, and after
/// that of the last one the model is asked again; tokens, tools and limits stay.
pub proof fn law_calls_are_made_in_turn(agent: AgentView, ok: bool, content: Seq<char>)
    requires
        agent.answered < agent.calls.len(),
    ensures
        ({
            let to = after_tool(agent, ok, content);
            &&& to.agent.calls == agent.calls
            &&& to.agent.answered == agent.answered + 1
            &&& to.agent.usage == agent.usage
            &&& to.agent.tools == agent.tools
            &&& to.agent.model_id == agent.model_id
            &&& to.agent.max_tokens == agent.max_tokens
            &&& to.agent.max_iterations == agent.max_iterations
            &&& to.agent.strip_thinking == agent.strip_thinking
            &&& agent.answered + 1 < agent.calls.len() ==> {
                &&& asks_for(
                    to.action,
                    to.log[1],
                    agent.iterations,
                    agent.calls[agent.answered as int + 1],
                )
                &&& to.log.len() == 2
                &&& to.agent.iterations == agent.iterations
            }
            &&& agent.answered + 1 == agent.calls.len() ==> !(to.action is CallTool)
        }),
{
    if agent.answered + 1 < agent.calls.len() {
        let call = agent.calls[agent.answered as int + 1];
        law_tool_call_tells(agent.iterations, call.id, call.name, call.arguments);
    }
}

/// An action makes a call that the model asked for: by its name, with what its
/// arguments say, or no arguments where they are no JSON; and the log tells of the
/// call as the model wrote it.
pub open spec fn asks_for(
    action: ActionView,
    entry: LogView,
    iteration: u32,
    call: ToolCallView,
) -> bool {
    &&& action matches ActionView::CallTool(name, arguments) && name == call.name && match json_parse(
        call.arguments,
    ) {
        Some(json) => arguments == json,
        None => arguments == JsonView::Object(Seq::empty()),
    }
    &&& entry.kind == "tool_call"@
    &&& number_field(entry.data, "iteration"@) == Some(iteration as u64)
    &&& text_field(entry.data, "id"@) == Some(call.id)
    &&& text_field(entry.data, "name"@) == Some(call.name)
    &&& text_field(entry.data, "arguments"@) == Some(call.arguments)
}

/// A request carries the whole conversation and the settings of the model, offers
/// every tool and leaves the choice to the model; the log counts it.
pub proof fn law_request_carries_all(agent: AgentView)
    requires
        agent.iterations < agent.max_iterations,
    ensures
        ({
            let to = next_request(agent);
            let entry = to.log[0];
            &&& to.action matches ActionView::Chat(request) && {
                &&& request.model == agent.model_id
                &&& request.messages == agent.messages
                &&& request.max_tokens == Some(agent.max_tokens)
                &&& !request.stream
                &&& agent.tools.len() > 0 ==> request.tools == Some(agent.tools)
                    && request.tool_choice == Some("auto"@)
                &&& agent.tools.len() == 0 ==> request.tools is None && request.tool_choice is None
            }
            &&& to.agent == AgentView {
                iterations: to.agent.iterations,
                phase: Phase::Reply,
                ..agent
            }
            &&& to.agent.iterations == agent.iterations + 1
            &&& to.log.len() == 1
            &&& entry.kind == "llm_request"@
            &&& number_field(entry.data, "iteration"@) == Some((agent.iterations + 1) as u64)
            &&& text_field(entry.data, "model"@) == Some(agent.model_id)
            &&& number_field(entry.data, "message_count"@) == Some(agent.messages.len() as u64)
        }),
{
    law_request_tells((agent.iterations + 1) as u32, agent.model_id, agent.messages.len());
}

/// A loop begins with the prompts and nothing else: as a system message and a user
/// message, or both in one user message where the model wants them so. The tools
/// are told first, and the first request is the first iteration. No request is
/// made where the task allows none.
pub proof fn law_loop_begins_with_the_prompts(
    task: Task,
    model: ModelConfig,
    tools: Seq<OpenAIToolView>,
    system_prompt: Seq<char>,
)
    ensures
        ({
            let to = started(task, model, tools, system_prompt);
            let messages = to.agent.messages;
            let told = to.log[0];
            let combined = model.system_prompt_strategy@ == "first_user_turn"@;
            &&& combined ==> {
                &&& messages.len() == 1
                &&& messages[0].role == "user"@
                &&& messages[0].content == Some(system_prompt + "\n\n"@ + task.user_prompt@)
            }
            &&& !combined ==> {
                &&& messages.len() == 2
                &&& messages[0].role == "system"@
                &&& messages[0].content == Some(system_prompt)
                &&& messages[1].role == "user"@
                &&& messages[1].content == Some(task.user_prompt@)
            }
            &&& forall|k: int|
                0 <= k < messages.len() ==> (#[trigger] messages[k]).tool_calls is None
                    && messages[k].tool_call_id is None
            &&& to.agent.usage.prompt_tokens == 0
            &&& to.agent.usage.completion_tokens == 0
            &&& to.agent.usage.total_tokens == 0
            &&& to.agent.model_id == model.model_id@
            &&& to.agent.max_tokens == model.max_tokens
            &&& to.agent.max_iterations == task.max_iterations
            &&& to.agent.strip_thinking == model.strip_thinking_tags
            &&& to.agent.tools == tools
            &&& told.kind == "tools_registered"@
            &&& number_field(told.data, "count"@) == Some(tools.len() as u64)
            &&& field(told.data, "names"@) matches Some(JsonView::Array(items)) && items.len()
                == tools.len() && forall|k: int|
                0 <= k < tools.len() ==> #[trigger] items[k] == JsonView::Text(tools[k].name)
            &&& task.max_iterations == 0 ==> to.log.len() == 1 && to.action == ActionView::Fail(
                AgentError::TooManyIterations(0),
            )
            &&& task.max_iterations > 0 ==> {
                &&& to.log.len() == 2
                &&& to.log[1].kind == "llm_request"@
                &&& number_field(to.log[1].data, "iteration"@) == Some(1u64)
                &&& to.agent.iterations == 1
                &&& to.action matches ActionView::Chat(request) && {
                    &&& request.model == model.model_id@
                    &&& request.messages == messages
                    &&& request.max_tokens == Some(model.max_tokens)
                    &&& request.tools == if tools.len() > 0 {
                        Some(tools)
                    } else {
                        None
                    }
                }
            }
        }),
{
    let before = fresh(task, model, tools, system_prompt);
    let to = started(task, model, tools, system_prompt);
    let exposed = offered_names(tools);
    law_tools_registered_tells(exposed);
    assert(to.log[0] == tools_registered_log(exposed));
    assert forall|k: int| 0 <= k < tools.len() implies #[trigger] exposed[k] == tools[k].name by {}
    if task.max_iterations > 0 {
        law_request_carries_all(before);
        assert(to.log[1] == next_request(before).log[0]);
    }
    reveal_strlit("first_user_turn");
}

/// The log entry of an answer tells of it: its iteration, what is shown of it, its
/// reasoning, each of its calls and its token counts.
pub open spec fn tells_reply(
    entry: LogView,
    iteration: u32,
    shown: Option<Seq<char>>,
    reply: ReplyView,
    usage: Option<Usage>,
) -> bool {
    &&& entry.kind == "llm_response"@
    &&& number_field(entry.data, "iteration"@) == Some(iteration as u64)
    &&& text_field(entry.data, "content"@) == shown
    &&& text_field(entry.data, "reasoning"@) == reply.reasoning
    &&& field(entry.data, "tool_calls"@) matches Some(JsonView::Array(items)) && items.len()
        == reply.tool_calls.len() && forall|k: int|
        0 <= k < items.len() ==> tells_call(#[trigger] items[k], reply.tool_calls[k])
    &&& field(entry.data, "usage"@) matches Some(counts) && tells_usage(counts, usage)
}

/// An answer without calls ends the loop with what the model said, nothing where
/// it said nothing: all of it, unless the model is configured to have its
/// reasoning stripped and gave none apart. The log tells the answer and the
/// result; the result counts the iterations, the time and the tokens.
pub proof fn law_answer_ends_the_loop(
    agent: AgentView,
    response: ChatCompletionResponse,
    elapsed_ms: u64,
)
    requires
        response.choices@.len() > 0,
        response.choices@[0].message@.tool_calls.len() == 0,
        usage_fits(agent.usage, response.usage),
    ensures
        ({
            let to = after_reply(agent, response, elapsed_ms);
            let reply = response.choices@[0].message@;
            let stripped = agent.strip_thinking && reply.reasoning is None;
            &&& to.agent.messages == agent.messages
            &&& to.agent.phase == Phase::Done
            &&& to.log.len() == 2
            &&& to.action matches ActionView::Finish(result) && {
                &&& result.iterations == agent.iterations
                &&& result.duration_ms == elapsed_ms
                &&& counts_add_up(agent.usage, response.usage, result.total_usage)
                &&& reply.content is None ==> result.final_answer == Seq::<char>::empty()
                &&& reply.content matches Some(content) ==> result.final_answer == if stripped {
                    without_thinking(content)
                } else {
                    content
                }
                &&& tells_reply(
                    to.log[0],
                    agent.iterations,
                    if reply.content is Some {
                        Some(result.final_answer)
                    } else {
                        None
                    },
                    reply,
                    response.usage,
                )
                &&& to.log[1].kind == "final_answer"@
                &&& text_field(to.log[1].data, "content"@) == Some(result.final_answer)
                &&& number_field(to.log[1].data, "iteration"@) == Some(agent.iterations as u64)
            }
        }),
{
    let reply = response.choices@[0].message@;
    let shown = displayed(agent.strip_thinking, reply);
    law_response_tells(
        agent.iterations,
        shown,
        reply.tool_calls,
        reply.reasoning,
        response.usage,
    );
    law_final_answer_tells(
        agent.iterations,
        match shown {
            Some(content) => content,
            None => Seq::empty(),
        },
    );
    lemma_counts_add_up(agent.usage, response.usage);
}

/// An answer with calls goes on with the first of them: the conversation grows by
/// what the model said and asked for, word for word, and the log tells the answer
/// and the call.
pub proof fn law_calls_are_taken_up(
    agent: AgentView,
    response: ChatCompletionResponse,
    elapsed_ms: u64,
)
    requires
        response.choices@.len() > 0,
        response.choices@[0].message@.tool_calls.len() > 0,
        usage_fits(agent.usage, response.usage),
    ensures
        ({
            let to = after_reply(agent, response, elapsed_ms);
            let reply = response.choices@[0].message@;
            let message = to.agent.messages.last();
            &&& to.agent.messages.len() == agent.messages.len() + 1
            &&& agent.messages.is_prefix_of(to.agent.messages)
            &&& message.role == "assistant"@
            &&& message.content == reply.content
            &&& message.tool_calls == Some(reply.tool_calls)
            &&& message.tool_call_id is None
            &&& to.agent.calls == reply.tool_calls
            &&& to.agent.answered == 0
            &&& to.agent.phase == Phase::Tool
            &&& to.agent.iterations == agent.iterations
            &&& counts_add_up(agent.usage, response.usage, to.agent.usage)
            &&& to.log.len() == 2
            &&& tells_reply(
                to.log[0],
                agent.iterations,
                match reply.content {
                    Some(content) => if agent.strip_thinking && reply.reasoning is None {
                        Some(without_thinking(content))
                    } else {
                        Some(content)
                    },
                    None => None,
                },
                reply,
                response.usage,
            )
            &&& asks_for(to.action, to.log[1], agent.iterations, reply.tool_calls[0])
        }),
{
    let to = after_reply(agent, response, elapsed_ms);
    let reply = response.choices@[0].message@;
    let shown = displayed(agent.strip_thinking, reply);
    let call = reply.tool_calls[0];
    law_response_tells(
        agent.iterations,
        shown,
        reply.tool_calls,
        reply.reasoning,
        response.usage,
    );
    law_tool_call_tells(agent.iterations, call.id, call.name, call.arguments);
    lemma_counts_add_up(agent.usage, response.usage);
    assert(agent.messages =~= to.agent.messages.subrange(0, agent.messages.len() as int));
    assert(tells_reply(to.log[0], agent.iterations, shown, reply, response.usage));
}

/// An answer without a choice ends the loop with an error, and nothing is logged.
pub proof fn law_answer_without_choice_fails(
    agent: AgentView,
    response: ChatCompletionResponse,
    elapsed_ms: u64,
)
    requires
        response.choices@.len() == 0,
    ensures
        ({
            let to = after_reply(agent, response, elapsed_ms);
            &&& to.action == ActionView::Fail(AgentError::NoChoices)
            &&& to.log.len() == 0
            &&& to.agent.messages == agent.messages
            &&& to.agent.phase == Phase::Done
        }),
{
}

/// Each count of the one usage is that of the other with what one answer took.
pub open spec fn counts_add_up(before: Usage, more: Option<Usage>, after: Usage) -> bool {
    let (prompt, completion, total) = match more {
        Some(u) => (
            u.prompt_tokens as int,
            u.completion_tokens as int,
            u.total_tokens as int,
        ),
        None => (0, 0, 0),
    };
    &&& after.prompt_tokens == before.prompt_tokens + prompt
    &&& after.completion_tokens == before.completion_tokens + completion
    &&& after.total_tokens == before.total_tokens + total
}

proof fn lemma_counts_add_up(before: Usage, more: Option<Usage>)
    requires
        usage_fits(before, more),
    ensures
        counts_add_up(before, more, usage_sum(before, more)),
{
}

/// The sum of one count over all answers; those without counts add nothing.
pub open spec fn token_sum(usages: Seq<Option<Usage>>, count: spec_fn(Usage) -> int) -> int
    decreases usages.len(),
{
    if usages.len() == 0 {
        0
    } else {
        token_sum(usages.drop_last(), count) + match usages.last() {
            Some(u) => count(u),
            None => 0,
        }
    }
}

/// The usage holds the sums over these answers.
pub open spec fn counts_all(usage: Usage, usages: Seq<Option<Usage>>) -> bool {
    &&& usage.prompt_tokens == token_sum(usages, |u: Usage| u.prompt_tokens as int)
    &&& usage.completion_tokens == token_sum(usages, |u: Usage| u.completion_tokens as int)
    &&& usage.total_tokens == token_sum(usages, |u: Usage| u.total_tokens as int)
}

/// Each count of a run is the sum of that count over all answers of the model:
/// it is so at the beginning, an answer adds its own counts, and the outcome of a
/// tool call adds none.
pub proof fn law_counts_are_sums(
    task: Task,
    model: ModelConfig,
    tools: Seq<OpenAIToolView>,
    system_prompt: Seq<char>,
    agent: AgentView,
    usages: Seq<Option<Usage>>,
    response: ChatCompletionResponse,
    elapsed_ms: u64,
    ok: bool,
    content: Seq<char>,
)
    requires
        counts_all(agent.usage, usages),
        usage_fits(agent.usage, response.usage),
    ensures
        counts_all(started(task, model, tools, system_prompt).agent.usage, Seq::empty()),
        counts_all(
            after_reply(agent, response, elapsed_ms).agent.usage,
            usages.push(response.usage),
        ),
        counts_all(after_tool(agent, ok, content).agent.usage, usages),
        after_reply(agent, response, elapsed_ms).action matches ActionView::Finish(result)
            ==> counts_all(result.total_usage, usages.push(response.usage)),
{
    assert(usages.push(response.usage).drop_last() =~= usages);
    lemma_counts_add_up(agent.usage, response.usage);
}

/// The error of a loop that used up its requests names how many there were.
pub proof fn law_error_names_the_limit(limit: u32)
    ensures
        shows(
            agent_error_text(AgentError::TooManyIterations(limit)),
            "("@ + decimal(limit as nat) + ")"@,
        ),
{
    reveal_strlit("max iterations (");
    reveal_strlit("max iterations ");
    reveal_strlit("(");
    reveal_strlit(")");
    reveal_strlit(") exceeded");
    reveal_strlit(" exceeded");
    let text = agent_error_text(AgentError::TooManyIterations(limit));
    let number = "("@ + decimal(limit as nat) + ")"@;
    assert(text =~= "max iterations "@ + number + " exceeded"@);
    lemma_shows_between("max iterations "@, number, " exceeded"@, text);
}

} // verus!
