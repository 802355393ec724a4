//! MCP tools as function tools of a chat request.

use vstd::prelude::*;
use vstd::string::*;

use crate::mcp::{McpTool, McpToolView};
use crate::openai::{OpenAIFunction, OpenAITool, OpenAIToolView};
use crate::text::{can_shorten, cuts_cleanly, shorten, shortened};

verus! {

/// The function tool that stands for an MCP tool under an exposed name.
pub open spec fn openai_form(name: Seq<char>, tool: McpToolView) -> OpenAIToolView {
    OpenAIToolView {
        tool_type: "function"@,
        name,
        description: match tool.description {
            Some(text) => text,
            None => Seq::empty(),
        },
        parameters: tool.input_schema,
    }
}

/// Convert an MCP tool definition to an OpenAI function tool.
/// The input schema is passed through verbatim: it is already JSON Schema.
pub fn mcp_tool_to_openai(name: &str, tool: &McpTool) -> (converted: OpenAITool)
    ensures
        converted@ == openai_form(name@, tool@),
{
    let description = match &tool.description {
        Some(text) => text.clone(),
        None => String::new(),
    };
    OpenAITool {
        tool_type: "function".to_owned(),
        function: OpenAIFunction {
            name: name.to_owned(),
            description,
            parameters: tool.input_schema.clone(),
        },
    }
}

/// What a listing shows of a tool besides its name.
pub open spec fn summary(tool: McpToolView) -> Seq<char> {
    match tool.description {
        Some(text) => text,
        None => "(no description)"@,
    }
}

/// A tool as one line of a listing: its name and the beginning of its
/// description. `None` where the description would be cut inside a character.
pub fn tool_line(tool: &McpTool) -> (line: Option<String>)
    ensures
        line is Some <==> cuts_cleanly(summary(tool@), 80),
        line matches Some(text) ==> text@ == "  "@ + tool@.name + " - "@ + shortened(
            summary(tool@),
            80,
        ),
{
    let description = match &tool.description {
        Some(text) => text.as_str(),
        None => "(no description)",
    };
    if can_shorten(description, 80) {
        Some(
            "  ".to_owned().concat(tool.name.as_str()).concat(" - ").concat(
                shorten(description, 80).as_str(),
            ),
        )
    } else {
        None
    }
}

/// A listing shows the whole description of a tool before it is cut, or says that
/// there is none.
pub proof fn law_listing_shows_the_description(tool: McpToolView)
    ensures
        tool.description matches Some(text) ==> summary(tool) == text,
        tool.description is None ==> summary(tool) == "(no description)"@,
{
}

/// An MCP tool is offered under its exposed name with its own description, nothing
/// where it has none, and its schema word for word.
pub proof fn law_tool_is_offered_verbatim(name: Seq<char>, tool: McpToolView)
    ensures
        openai_form(name, tool).name == name,
        openai_form(name, tool).tool_type == "function"@,
        openai_form(name, tool).parameters == tool.input_schema,
        tool.description matches Some(text) ==> openai_form(name, tool).description == text,
        tool.description is None ==> openai_form(name, tool).description.len() == 0,
{
}

} // verus!
