//! What an MCP server offers and answers: its tools and the results of tool
//! calls.

use vstd::prelude::*;
use vstd::string::*;

verus! {

/// A tool as an MCP server lists it.
#[derive(Debug)]
pub struct McpTool {
    pub name: String,
    pub description: Option<String>,
    /// JSON Schema of the arguments, carried through verbatim.
    pub input_schema: serde_json::Value,
}

/// The mathematical form of an [`McpTool`].
#[verifier::ext_equal]
pub struct McpToolView {
    pub name: Seq<char>,
    pub description: Option<Seq<char>>,
    pub input_schema: serde_json::Value,
}

/// The characters of an optional text.
pub open spec fn opt_text(text: Option<String>) -> Option<Seq<char>> {
    match text {
        Some(t) => Some(t@),
        None => None,
    }
}

impl View for McpTool {
    type V = McpToolView;

    open spec fn view(&self) -> McpToolView {
        McpToolView {
            name: self.name@,
            description: opt_text(self.description),
            input_schema: self.input_schema,
        }
    }
}

/// The tools of a list, one by one.
pub open spec fn tool_views(tools: Seq<McpTool>) -> Seq<McpToolView> {
    tools.map_values(|t: McpTool| t@)
}

/// One part of a tool result.
#[derive(Debug)]
pub enum ContentPart {
    Text(String),
    /// An image or an embedded resource.
    Other,
}

/// What a server answers to a tool call.
#[derive(Debug)]
pub struct ToolCallResult {
    pub content: Vec<ContentPart>,
    pub is_error: bool,
}

/// The text parts of a result, one after the other.
pub open spec fn joined_text(parts: Seq<ContentPart>) -> Seq<char>
    decreases parts.len(),
{
    if parts.len() == 0 {
        Seq::empty()
    } else {
        joined_text(parts.drop_last()) + (match parts.last() {
            ContentPart::Text(text) => text@,
            ContentPart::Other => Seq::empty(),
        })
    }
}

impl ToolCallResult {
    /// All text parts as one text; the others are left out.
    pub fn text_content(&self) -> (text: String)
        ensures
            text@ == joined_text(self.content@),
    {
        let mut text = String::new();
        let mut i: usize = 0;
        while i < self.content.len()
            invariant
                i <= self.content@.len(),
                text@ == joined_text(self.content@.take(i as int)),
            decreases self.content@.len() - i,
        {
            assert(self.content@.take(i + 1).drop_last() =~= self.content@.take(i as int));
            match &self.content[i] {
                ContentPart::Text(part) => text.append(part.as_str()),
                ContentPart::Other => {},
            }
            assert(text@ =~= joined_text(self.content@.take(i + 1)));
            i += 1;
        }
        assert(self.content@.take(i as int) =~= self.content@);
        text
    }
}

/// The text of a result is all of its text, in order: two lists of parts give the
/// text of the one followed by that of the other, a part of text gives its text,
/// and any other part gives none.
pub proof fn law_no_text_is_lost(
    first: Seq<ContentPart>,
    then: Seq<ContentPart>,
    text: String,
)
    ensures
        joined_text(first + then) == joined_text(first) + joined_text(then),
        joined_text(seq![ContentPart::Text(text)]) == text@,
        joined_text(seq![ContentPart::Other]) == Seq::<char>::empty(),
    decreases then.len(),
{
    let one = seq![ContentPart::Text(text)];
    let other = seq![ContentPart::Other];
    assert(one.drop_last() =~= Seq::empty());
    assert(one.last() == ContentPart::Text(text));
    assert(joined_text(one) == joined_text(one.drop_last()) + text@);
    assert(joined_text(one) =~= text@);
    assert(other.drop_last() =~= Seq::empty());
    assert(joined_text(other) =~= Seq::empty());
    if then.len() == 0 {
        assert(first + then =~= first);
        assert(joined_text(first) + joined_text(then) =~= joined_text(first));
    } else {
        law_no_text_is_lost(first, then.drop_last(), text);
        assert((first + then).drop_last() =~= first + then.drop_last());
        assert(joined_text(first + then) =~= joined_text(first) + joined_text(then));
    }
}

} // verus!
