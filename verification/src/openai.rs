//! The chat-completions exchange with a model endpoint, as plain data.

use vstd::prelude::*;
use vstd::string::*;

use crate::json::{
    field, lemma_lookup_first, member, number_field, storable, text_field, Fields, Json, JsonView,
};
use crate::mcp::opt_text;

verus! {

/// A function tool as a chat request lists it.
#[derive(Debug)]
pub struct OpenAITool {
    pub tool_type: String,
    pub function: OpenAIFunction,
}

/// The function of an [`OpenAITool`].
#[derive(Debug)]
pub struct OpenAIFunction {
    pub name: String,
    pub description: String,
    /// JSON Schema of the arguments.
    pub parameters: serde_json::Value,
}

/// The mathematical form of an [`OpenAITool`].
#[verifier::ext_equal]
pub struct OpenAIToolView {
    pub tool_type: Seq<char>,
    pub name: Seq<char>,
    pub description: Seq<char>,
    pub parameters: serde_json::Value,
}

impl View for OpenAITool {
    type V = OpenAIToolView;

    open spec fn view(&self) -> OpenAIToolView {
        OpenAIToolView {
            tool_type: self.tool_type@,
            name: self.function.name@,
            description: self.function.description@,
            parameters: self.function.parameters,
        }
    }
}

impl OpenAITool {
    /// A tool with the same contents.
    pub fn duplicate(&self) -> (copy: OpenAITool)
        ensures
            copy@ == self@,
    {
        OpenAITool {
            tool_type: self.tool_type.clone(),
            function: OpenAIFunction {
                name: self.function.name.clone(),
                description: self.function.description.clone(),
                parameters: self.function.parameters.clone(),
            },
        }
    }
}

/// The tools of a list, one by one.
pub open spec fn offered(tools: Seq<OpenAITool>) -> Seq<OpenAIToolView> {
    tools.map_values(|t: OpenAITool| t@)
}

/// A list of tools with the same contents.
pub fn duplicate_tools(tools: &Vec<OpenAITool>) -> (copies: Vec<OpenAITool>)
    ensures
        offered(copies@) == offered(tools@),
{
    let mut copies: Vec<OpenAITool> = Vec::new();
    let mut i: usize = 0;
    while i < tools.len()
        invariant
            i <= tools@.len(),
            copies@.len() == i,
            forall|k: int| 0 <= k < i ==> (#[trigger] copies@[k])@ == tools@[k]@,
        decreases tools@.len() - i,
    {
        copies.push(tools[i].duplicate());
        i += 1;
    }
    assert(offered(copies@) =~= offered(tools@));
    copies
}

/// A call that the model asks for.
#[derive(Debug)]
pub struct ToolCall {
    pub id: String,
    pub call_type: String,
    pub function: FunctionCall,
}

/// The function of a [`ToolCall`]. The arguments are a JSON text.
#[derive(Debug)]
pub struct FunctionCall {
    pub name: String,
    pub arguments: String,
}

/// The mathematical form of a [`ToolCall`].
#[verifier::ext_equal]
pub struct ToolCallView {
    pub id: Seq<char>,
    pub call_type: Seq<char>,
    pub name: Seq<char>,
    pub arguments: Seq<char>,
}

impl View for ToolCall {
    type V = ToolCallView;

    open spec fn view(&self) -> ToolCallView {
        ToolCallView {
            id: self.id@,
            call_type: self.call_type@,
            name: self.function.name@,
            arguments: self.function.arguments@,
        }
    }
}

impl ToolCall {
    /// A call with the same contents.
    pub fn duplicate(&self) -> (copy: ToolCall)
        ensures
            copy@ == self@,
    {
        ToolCall {
            id: self.id.clone(),
            call_type: self.call_type.clone(),
            function: FunctionCall {
                name: self.function.name.clone(),
                arguments: self.function.arguments.clone(),
            },
        }
    }

    /// The call as it stands in a chat message.
    pub fn to_json(&self) -> (json: Json)
        ensures
            json@ == call_json(self@),
    {
        let function = Fields::new().with("name", Json::text(self.function.name.as_str())).with(
            "arguments",
            Json::text(self.function.arguments.as_str()),
        ).object();
        let json = Fields::new().with("id", Json::text(self.id.as_str())).with(
            "type",
            Json::text(self.call_type.as_str()),
        ).with("function", function).object();
        assert(function@->Object_0 =~= call_json(self@)->Object_0[2].value->Object_0);
        assert(json@->Object_0 =~= call_json(self@)->Object_0);
        json
    }
}

/// The calls of a list, one by one.
pub open spec fn call_views(calls: Seq<ToolCall>) -> Seq<ToolCallView> {
    calls.map_values(|c: ToolCall| c@)
}

/// A list of calls with the same contents.
pub fn duplicate_calls(calls: &Vec<ToolCall>) -> (copies: Vec<ToolCall>)
    ensures
        call_views(copies@) == call_views(calls@),
{
    let mut copies: Vec<ToolCall> = Vec::new();
    let mut i: usize = 0;
    while i < calls.len()
        invariant
            i <= calls@.len(),
            copies@.len() == i,
            forall|k: int| 0 <= k < i ==> (#[trigger] copies@[k])@ == calls@[k]@,
        decreases calls@.len() - i,
    {
        copies.push(calls[i].duplicate());
        i += 1;
    }
    assert(call_views(copies@) =~= call_views(calls@));
    copies
}

/// A call in JSON.
pub open spec fn call_json(call: ToolCallView) -> JsonView {
    JsonView::Object(
        seq![
            member("id"@, JsonView::Text(call.id)),
            member("type"@, JsonView::Text(call.call_type)),
            member(
                "function"@,
                JsonView::Object(
                    seq![
                        member("name"@, JsonView::Text(call.name)),
                        member("arguments"@, JsonView::Text(call.arguments)),
                    ],
                ),
            ),
        ],
    )
}

/// A list of calls in JSON.
pub open spec fn calls_json(calls: Seq<ToolCallView>) -> JsonView {
    JsonView::Array(calls.map_values(|c: ToolCallView| call_json(c)))
}

/// Calls in JSON are storable.
pub proof fn lemma_calls_storable(calls: Seq<ToolCallView>)
    ensures
        storable(calls_json(calls), 3),
{
    reveal_strlit("id");
    reveal_strlit("type");
    reveal_strlit("function");
    reveal_strlit("name");
    reveal_strlit("arguments");
    reveal_strlit("$serde_json::private::RawValue");
    assert forall|i: int| 0 <= i < calls.len() implies storable(
        #[trigger] calls_json(calls)->Array_0[i],
        2,
    ) by {
        let members = call_json(calls[i])->Object_0;
        assert(calls_json(calls)->Array_0[i] == JsonView::Object(members));
        let function = members[2].value->Object_0;
        assert(function[0].key == "name"@);
        assert(function[1].key == "arguments"@);
        assert forall|k: int| 0 <= k < function.len() implies storable(
            (#[trigger] function[k]).value,
            0,
        ) by {}
        assert(storable(JsonView::Object(function), 1));
        assert(members[0].key == "id"@);
        assert(members[1].key == "type"@);
        assert(members[2].key == "function"@);
        assert forall|k: int| 0 <= k < members.len() implies storable(
            (#[trigger] members[k]).value,
            1,
        ) by {}
    }
}

/// The calls of a list as they stand in a chat message.
pub fn calls_to_json(calls: &Vec<ToolCall>) -> (json: Json)
    ensures
        json@ == calls_json(call_views(calls@)),
{
    let mut items: Vec<Json> = Vec::new();
    let mut i: usize = 0;
    while i < calls.len()
        invariant
            i <= calls@.len(),
            items@.len() == i,
            forall|k: int| 0 <= k < i ==> (#[trigger] items@[k])@ == call_json(calls@[k]@),
        decreases calls@.len() - i,
    {
        items.push(calls[i].to_json());
        i += 1;
    }
    let json = Json::Array(items);
    assert(json@->Array_0 =~= calls_json(call_views(calls@))->Array_0);
    json
}

/// One message of a conversation.
#[derive(Debug)]
pub struct Message {
    pub role: String,
    pub content: Option<String>,
    pub tool_calls: Option<Vec<ToolCall>>,
    pub tool_call_id: Option<String>,
}

/// The mathematical form of a [`Message`].
#[verifier::ext_equal]
pub struct MessageView {
    pub role: Seq<char>,
    pub content: Option<Seq<char>>,
    pub tool_calls: Option<Seq<ToolCallView>>,
    pub tool_call_id: Option<Seq<char>>,
}

impl View for Message {
    type V = MessageView;

    open spec fn view(&self) -> MessageView {
        MessageView {
            role: self.role@,
            content: opt_text(self.content),
            tool_calls: match self.tool_calls {
                Some(calls) => Some(call_views(calls@)),
                None => None,
            },
            tool_call_id: opt_text(self.tool_call_id),
        }
    }
}

/// A copy of an optional text.
pub fn duplicate_text(text: &Option<String>) -> (copy: Option<String>)
    ensures
        opt_text(copy) == opt_text(*text),
{
    match text {
        Some(t) => Some(t.clone()),
        None => None,
    }
}

impl Message {
    /// A message with the same contents.
    pub fn duplicate(&self) -> (copy: Message)
        ensures
            copy@ == self@,
    {
        Message {
            role: self.role.clone(),
            content: duplicate_text(&self.content),
            tool_calls: match &self.tool_calls {
                Some(calls) => Some(duplicate_calls(calls)),
                None => None,
            },
            tool_call_id: duplicate_text(&self.tool_call_id),
        }
    }
}

/// The messages of a list, one by one.
pub open spec fn message_views(messages: Seq<Message>) -> Seq<MessageView> {
    messages.map_values(|m: Message| m@)
}

/// A list of messages with the same contents.
pub fn duplicate_messages(messages: &Vec<Message>) -> (copies: Vec<Message>)
    ensures
        message_views(copies@) == message_views(messages@),
{
    let mut copies: Vec<Message> = Vec::new();
    let mut i: usize = 0;
    while i < messages.len()
        invariant
            i <= messages@.len(),
            copies@.len() == i,
            forall|k: int| 0 <= k < i ==> (#[trigger] copies@[k])@ == messages@[k]@,
        decreases messages@.len() - i,
    {
        copies.push(messages[i].duplicate());
        i += 1;
    }
    assert(message_views(copies@) =~= message_views(messages@));
    copies
}

/// Token counts of one answer or of a whole run.
#[derive(Debug, Clone, Copy, PartialEq, Eq)]
pub struct Usage {
    pub prompt_tokens: u32,
    pub completion_tokens: u32,
    pub total_tokens: u32,
}

/// Token counts in JSON, null where the endpoint gave none.
pub open spec fn usage_json(usage: Option<Usage>) -> JsonView {
    match usage {
        Some(u) => JsonView::Object(
            seq![
                member("prompt_tokens"@, JsonView::Unsigned(u.prompt_tokens as u64)),
                member("completion_tokens"@, JsonView::Unsigned(u.completion_tokens as u64)),
                member("total_tokens"@, JsonView::Unsigned(u.total_tokens as u64)),
            ],
        ),
        None => JsonView::Null,
    }
}

/// Token counts in JSON are storable.
pub proof fn lemma_usage_storable(usage: Option<Usage>)
    ensures
        storable(usage_json(usage), 1),
{
    reveal_strlit("prompt_tokens");
    reveal_strlit("completion_tokens");
    reveal_strlit("total_tokens");
    reveal_strlit("$serde_json::private::RawValue");
    if usage is Some {
        let members = usage_json(usage)->Object_0;
        assert(members[0].key == "prompt_tokens"@);
        assert(members[1].key == "completion_tokens"@);
        assert(members[2].key == "total_tokens"@);
        assert forall|k: int| 0 <= k < members.len() implies storable(
            (#[trigger] members[k]).value,
            0,
        ) by {}
    }
}

/// Token counts as they stand in an event.
pub fn usage_to_json(usage: &Option<Usage>) -> (json: Json)
    ensures
        json@ == usage_json(*usage),
{
    match usage {
        Some(u) => {
            let json = Fields::new().with("prompt_tokens", Json::Unsigned(u.prompt_tokens as u64)).with(
                "completion_tokens",
                Json::Unsigned(u.completion_tokens as u64),
            ).with("total_tokens", Json::Unsigned(u.total_tokens as u64)).object();
            assert(json@->Object_0 =~= usage_json(*usage)->Object_0);
            json
        },
        None => Json::Null,
    }
}

/// What is sent to a model endpoint, but for the sampling temperature.
#[derive(Debug)]
pub struct ChatCompletionRequest {
    pub model: String,
    pub messages: Vec<Message>,
    pub tools: Option<Vec<OpenAITool>>,
    pub tool_choice: Option<String>,
    pub max_tokens: Option<u32>,
    pub stream: bool,
}

/// The mathematical form of a [`ChatCompletionRequest`].
#[verifier::ext_equal]
pub struct RequestView {
    pub model: Seq<char>,
    pub messages: Seq<MessageView>,
    pub tools: Option<Seq<OpenAIToolView>>,
    pub tool_choice: Option<Seq<char>>,
    pub max_tokens: Option<u32>,
    pub stream: bool,
}

impl View for ChatCompletionRequest {
    type V = RequestView;

    open spec fn view(&self) -> RequestView {
        RequestView {
            model: self.model@,
            messages: message_views(self.messages@),
            tools: match self.tools {
                Some(tools) => Some(offered(tools@)),
                None => None,
            },
            tool_choice: opt_text(self.tool_choice),
            max_tokens: self.max_tokens,
            stream: self.stream,
        }
    }
}

/// What a model endpoint answers, as far as the driver reads it.
#[derive(Debug)]
pub struct ChatCompletionResponse {
    pub choices: Vec<Choice>,
    pub usage: Option<Usage>,
}

/// One of the answers of a response.
#[derive(Debug)]
pub struct Choice {
    pub message: ResponseMessage,
}

/// The message of a [`Choice`].
#[derive(Debug)]
pub struct ResponseMessage {
    pub content: Option<String>,
    pub reasoning_content: Option<String>,
    pub tool_calls: Option<Vec<ToolCall>>,
}

/// The mathematical form of a [`ResponseMessage`]. A message without calls and
/// one with an empty list of them are the same.
#[verifier::ext_equal]
pub struct ReplyView {
    pub content: Option<Seq<char>>,
    pub reasoning: Option<Seq<char>>,
    pub tool_calls: Seq<ToolCallView>,
}

impl View for ResponseMessage {
    type V = ReplyView;

    open spec fn view(&self) -> ReplyView {
        ReplyView {
            content: opt_text(self.content),
            reasoning: opt_text(self.reasoning_content),
            tool_calls: match self.tool_calls {
                Some(calls) => call_views(calls@),
                None => Seq::empty(),
            },
        }
    }
}

/// A JSON value tells of a call: its id, its type, and under `function` its name
/// and its arguments.
pub open spec fn tells_call(json: JsonView, call: ToolCallView) -> bool {
    &&& text_field(json, "id"@) == Some(call.id)
    &&& text_field(json, "type"@) == Some(call.call_type)
    &&& field(json, "function"@) matches Some(function) && text_field(function, "name"@) == Some(
        call.name,
    ) && text_field(function, "arguments"@) == Some(call.arguments)
}

/// A call in JSON tells all of it.
pub proof fn law_call_tells(call: ToolCallView)
    ensures
        tells_call(call_json(call), call),
{
    reveal_strlit("id");
    reveal_strlit("type");
    reveal_strlit("function");
    let members = call_json(call)->Object_0;
    assert("id"@.len() != "type"@.len());
    assert("id"@.len() != "function"@.len());
    assert("type"@.len() != "function"@.len());
    assert(members[0].key == "id"@);
    assert(members[1].key == "type"@);
    assert(members[2].key == "function"@);
    lemma_lookup_first(members, 0);
    lemma_lookup_first(members, 1);
    lemma_lookup_first(members, 2);
    reveal_strlit("name");
    reveal_strlit("arguments");
    let function = call_json(call)->Object_0[2].value->Object_0;
    assert("name"@.len() != "arguments"@.len());
    assert(function[0].key == "name"@);
    assert(function[1].key == "arguments"@);
    lemma_lookup_first(function, 0);
    lemma_lookup_first(function, 1);
}

/// A JSON value tells token counts, each under its name, or is null where there
/// are none.
pub open spec fn tells_usage(json: JsonView, usage: Option<Usage>) -> bool {
    match usage {
        Some(u) => {
            &&& number_field(json, "prompt_tokens"@) == Some(u.prompt_tokens as u64)
            &&& number_field(json, "completion_tokens"@) == Some(u.completion_tokens as u64)
            &&& number_field(json, "total_tokens"@) == Some(u.total_tokens as u64)
        },
        None => json == JsonView::Null,
    }
}

/// Token counts in JSON tell each count.
pub proof fn law_usage_tells(usage: Usage)
    ensures
        tells_usage(usage_json(Some(usage)), Some(usage)),
{
    reveal_strlit("prompt_tokens");
    reveal_strlit("completion_tokens");
    reveal_strlit("total_tokens");
    let members = usage_json(Some(usage))->Object_0;
    assert("prompt_tokens"@.len() != "completion_tokens"@.len());
    assert("prompt_tokens"@.len() != "total_tokens"@.len());
    assert("completion_tokens"@.len() != "total_tokens"@.len());
    assert(members[0].key == "prompt_tokens"@);
    assert(members[1].key == "completion_tokens"@);
    assert(members[2].key == "total_tokens"@);
    lemma_lookup_first(members, 0);
    lemma_lookup_first(members, 1);
    lemma_lookup_first(members, 2);
}

} // verus!
