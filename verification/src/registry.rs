//! The tools of all MCP servers of a run under one roof.
//!
//! A tool is exposed under its own name. Where a second tool of that name
//! arrives, both are exposed as `server__tool` instead.

use vstd::prelude::*;
use vstd::string::*;

use crate::filter::{
    admitted, flagged, flags_follow, lemma_all_flagged, lemma_flagged,
    portable_choice, select_tools, selectable,
};
use crate::mcp::{tool_views, McpTool, McpToolView};
use crate::openai::{offered, OpenAITool, OpenAIToolView};
use crate::text::{in_order, insert_in_order, names, same_text};
use crate::tools::{mcp_tool_to_openai, openai_form};

verus! {

/// A tool of the registry.
#[derive(Debug)]
struct Entry {
    exposed: String,
    owner: String,
    tool: McpTool,
}

/// A name that two tools had, and the names under which they are exposed since.
#[derive(Debug)]
pub struct Collision {
    pub name: String,
    pub existing: String,
    pub added: String,
}

/// The mathematical form of a [`Collision`].
#[verifier::ext_equal]
pub struct CollisionView {
    pub name: Seq<char>,
    pub existing: Seq<char>,
    pub added: Seq<char>,
}

impl View for Collision {
    type V = CollisionView;

    open spec fn view(&self) -> CollisionView {
        CollisionView { name: self.name@, existing: self.existing@, added: self.added@ }
    }
}

/// The collisions of a list, one by one.
pub open spec fn collision_views(collisions: Seq<Collision>) -> Seq<CollisionView> {
    collisions.map_values(|c: Collision| c@)
}

impl Collision {
    /// What became of the tool that had the name.
    pub fn existing_message(&self) -> (text: String)
        ensures
            text@ == "namespace collision on '"@ + self.name@ + "': renamed existing to '"@
                + self.existing@ + "'"@,
    {
        "namespace collision on '".to_owned().concat(self.name.as_str()).concat(
            "': renamed existing to '",
        ).concat(self.existing.as_str()).concat("'")
    }

    /// What became of the tool that came with the name.
    pub fn added_message(&self) -> (text: String)
        ensures
            text@ == "namespace collision on '"@ + self.name@ + "': new tool registered as '"@
                + self.added@ + "'"@,
    {
        "namespace collision on '".to_owned().concat(self.name.as_str()).concat(
            "': new tool registered as '",
        ).concat(self.added.as_str()).concat("'")
    }
}

/// Multi-server tool registry. Routes tool calls to the correct MCP server.
#[derive(Debug)]
pub struct ToolRegistry {
    servers: Vec<String>,
    entries: Vec<Entry>,
    collisions: Vec<Collision>,
}

/// What the registry knows under an exposed name: the server that owns the
/// tool and the tool as that server lists it.
#[verifier::ext_equal]
pub struct Registered {
    pub owner: Seq<char>,
    pub tool: McpToolView,
}

/// The tools of a registry by their exposed names.
pub type ToolTable = Map<Seq<char>, Registered>;

spec fn labels(entries: Seq<Entry>) -> Seq<Seq<char>> {
    entries.map_values(|e: Entry| e.exposed@)
}

spec fn registration(entry: Entry) -> Registered {
    Registered { owner: entry.owner@, tool: entry.tool@ }
}

spec fn table(entries: Seq<Entry>) -> ToolTable {
    Map::new(
        |label: Seq<char>| labels(entries).contains(label),
        |label: Seq<char>| registration(entries[labels(entries).index_of(label)]),
    )
}

/// With distinct labels the table holds exactly the entries.
proof fn lemma_table(entries: Seq<Entry>)
    requires
        labels(entries).no_duplicates(),
    ensures
        forall|i: int|
            0 <= i < entries.len() ==> table(entries).contains_key(
                (#[trigger] entries[i]).exposed@,
            ) && table(entries)[entries[i].exposed@] == registration(entries[i]),
        forall|label: Seq<char>| #[trigger]
            table(entries).contains_key(label) ==> exists|i: int|
                0 <= i < entries.len() && (#[trigger] entries[i]).exposed@ == label,
        table(entries).dom() == labels(entries).to_set(),
        table(entries).dom().finite(),
        table(entries).len() == entries.len(),
{
    let marks = labels(entries);
    assert forall|i: int| 0 <= i < entries.len() implies table(entries).contains_key(
        (#[trigger] entries[i]).exposed@,
    ) && table(entries)[entries[i].exposed@] == registration(entries[i]) by {
        assert(marks[i] == entries[i].exposed@);
        assert(marks.contains(marks[i]));
        assert(marks[marks.index_of(marks[i])] == marks[i]);
    }
    assert forall|label: Seq<char>| #[trigger]
        table(entries).contains_key(label) implies exists|i: int|
        0 <= i < entries.len() && (#[trigger] entries[i]).exposed@ == label by {
        let i = marks.index_of(label);
        assert(marks[i] == label);
        assert(entries[i].exposed@ == label);
    }
    assert(table(entries).dom() =~= marks.to_set());
    marks.unique_seq_to_set();
    vstd::seq_lib::seq_to_set_is_finite(marks);
}

/// The label of a tool whose bare name is not its own alone.
pub open spec fn prefixed(server: Seq<char>, tool: Seq<char>) -> Seq<char> {
    server + "__"@ + tool
}

/// The table after one more tool of `server`. Where its name is taken, the
/// tool that has it and the new one both go under their prefixed names.
pub open spec fn with_tool(tools: ToolTable, server: Seq<char>, tool: McpToolView) -> ToolTable {
    let new = Registered { owner: server, tool };
    if tools.contains_key(tool.name) {
        let existing = tools[tool.name];
        tools.remove(tool.name).insert(prefixed(existing.owner, tool.name), existing).insert(
            prefixed(server, tool.name),
            new,
        )
    } else {
        tools.insert(tool.name, new)
    }
}

/// The collision that one more tool of `server` brings, where it brings one.
pub open spec fn tool_collision(
    tools: ToolTable,
    server: Seq<char>,
    tool: McpToolView,
) -> Seq<CollisionView> {
    if tools.contains_key(tool.name) {
        seq![
            CollisionView {
                name: tool.name,
                existing: prefixed(tools[tool.name].owner, tool.name),
                added: prefixed(server, tool.name),
            },
        ]
    } else {
        Seq::empty()
    }
}

/// The collisions that the tools of a list bring, from first to last.
pub open spec fn tool_collisions(
    tools: ToolTable,
    server: Seq<char>,
    list: Seq<McpToolView>,
) -> Seq<CollisionView>
    decreases list.len(),
{
    if list.len() == 0 {
        Seq::empty()
    } else {
        let front = list.drop_last();
        tool_collisions(tools, server, front) + tool_collision(
            with_tools(tools, server, front),
            server,
            list.last(),
        )
    }
}

/// The table after the tools of a list, from first to last.
pub open spec fn with_tools(
    tools: ToolTable,
    server: Seq<char>,
    list: Seq<McpToolView>,
) -> ToolTable
    decreases list.len(),
{
    if list.len() == 0 {
        tools
    } else {
        with_tool(with_tools(tools, server, list.drop_last()), server, list.last())
    }
}

impl ToolRegistry {
    /// The registered tools.
    pub closed spec fn tools(self) -> ToolTable {
        table(self.entries@)
    }

    /// The servers that were added.
    pub closed spec fn servers(self) -> Set<Seq<char>> {
        names(self.servers@).to_set()
    }

    /// The collisions so far, in their order.
    pub closed spec fn noted(self) -> Seq<CollisionView> {
        collision_views(self.collisions@)
    }

    /// No exposed name and no server occurs twice.
    pub closed spec fn well_formed(self) -> bool {
        labels(self.entries@).no_duplicates() && names(self.servers@).no_duplicates()
    }

    /// Every tool belongs to a server that was added.
    pub open spec fn owned(self) -> bool {
        forall|label: Seq<char>| #[trigger]
            self.tools().contains_key(label) ==> self.servers().contains(self.tools()[label].owner)
    }

    /// A registry without servers and tools.
    pub fn new() -> (registry: ToolRegistry)
        ensures
            registry.well_formed(),
            registry.owned(),
            registry.tools() == Map::<Seq<char>, Registered>::empty(),
            registry.servers() == Set::<Seq<char>>::empty(),
            registry.noted() == Seq::<CollisionView>::empty(),
    {
        let registry = ToolRegistry {
            servers: Vec::new(),
            entries: Vec::new(),
            collisions: Vec::new(),
        };
        assert(registry.noted() =~= Seq::empty());
        assert(registry.tools() =~= Map::<Seq<char>, Registered>::empty());
        assert(registry.servers() =~= Set::<Seq<char>>::empty());
        registry
    }

    fn find(&self, label: &str) -> (index: Option<usize>)
        ensures
            index matches Some(i) ==> i < self.entries@.len() && self.entries@[i as int].exposed@
                == label@,
            index is None ==> !labels(self.entries@).contains(label@),
    {
        let mut i: usize = 0;
        while i < self.entries.len()
            invariant
                i <= self.entries@.len(),
                forall|k: int| 0 <= k < i ==> (#[trigger] self.entries@[k]).exposed@ != label@,
            decreases self.entries@.len() - i,
        {
            if same_text(self.entries[i].exposed.as_str(), label) {
                return Some(i);
            }
            i += 1;
        }
        assert forall|k: int| 0 <= k < self.entries@.len() implies labels(self.entries@)[k]
            != label@ by {
            assert(self.entries@[k].exposed@ != label@);
        }
        None
    }

    /// Puts a tool under a label, in place of the tool that has the label.
    fn put(&mut self, exposed: String, owner: String, tool: McpTool)
        requires
            old(self).well_formed(),
        ensures
            final(self).well_formed(),
            final(self).servers == old(self).servers,
            final(self).collisions == old(self).collisions,
            final(self).tools() == old(self).tools().insert(
                exposed@,
                Registered { owner: owner@, tool: tool@ },
            ),
    {
        let ghost before = self.entries@;
        proof {
            lemma_table(before);
        }
        match self.find(exposed.as_str()) {
            Some(i) => {
                let entry = Entry { exposed, owner, tool };
                self.entries.set(i, entry);
                proof {
                    assert(labels(self.entries@) =~= labels(before));
                    lemma_table(self.entries@);
                    assert(self.entries@ =~= before.update(i as int, entry));
                    assert forall|label: Seq<char>| #[trigger]
                        table(self.entries@).contains_key(label) && label != entry.exposed@ implies table(
                        self.entries@,
                    )[label] == table(before)[label] by {
                        let k = choose|k: int|
                            0 <= k < self.entries@.len() && (#[trigger] self.entries@[k]).exposed@
                                == label;
                        assert(self.entries@[k].exposed@ == label);
                        assert(k != i);
                        assert(before[k].exposed@ == label);
                    }
                    assert(self.entries@[i as int].exposed@ == entry.exposed@);
                    assert(table(self.entries@) =~= table(before).insert(
                        entry.exposed@,
                        registration(entry),
                    ));
                }
            },
            None => {
                let entry = Entry { exposed, owner, tool };
                self.entries.push(entry);
                proof {
                    assert(labels(self.entries@) =~= labels(before).push(entry.exposed@));
                    assert(labels(self.entries@).no_duplicates());
                    lemma_table(self.entries@);
                    assert forall|label: Seq<char>| #[trigger]
                        table(self.entries@).contains_key(label) implies table(before).insert(
                        entry.exposed@,
                        registration(entry),
                    ).contains_key(label) && table(self.entries@)[label] == table(before).insert(
                        entry.exposed@,
                        registration(entry),
                    )[label] by {
                        let k = choose|k: int|
                            0 <= k < self.entries@.len() && (#[trigger] self.entries@[k]).exposed@
                                == label;
                        assert(self.entries@[k].exposed@ == label);
                        if k < before.len() {
                            assert(before[k].exposed@ == label);
                        }
                    }
                    assert forall|label: Seq<char>| #[trigger]
                        table(before).contains_key(label) implies table(self.entries@).contains_key(
                        label,
                    ) by {
                        let k = choose|k: int|
                            0 <= k < before.len() && (#[trigger] before[k]).exposed@ == label;
                        assert(self.entries@[k].exposed@ == label);
                    }
                    assert(self.entries@[before.len() as int].exposed@ == entry.exposed@);
                    assert(table(self.entries@) =~= table(before).insert(
                        entry.exposed@,
                        registration(entry),
                    ));
                }
            },
        }
    }

    /// Takes the tool at an index out.
    fn take(&mut self, index: usize) -> (entry: Entry)
        requires
            old(self).well_formed(),
            index < old(self).entries@.len(),
        ensures
            final(self).well_formed(),
            final(self).servers == old(self).servers,
            final(self).collisions == old(self).collisions,
            entry == old(self).entries@[index as int],
            final(self).tools() == old(self).tools().remove(entry.exposed@),
    {
        let ghost before = self.entries@;
        let entry = self.entries.remove(index);
        proof {
            lemma_table(before);
            let after = self.entries@;
            assert(after == before.remove(index as int));
            assert forall|i: int, j: int| 0 <= i < j < after.len() implies labels(after)[i]
                != labels(after)[j] by {
                let a = if i < index { i } else { i + 1 };
                let b = if j < index { j } else { j + 1 };
                assert(labels(before)[a] != labels(before)[b]);
            }
            assert(labels(after).no_duplicates());
            lemma_table(after);
            assert forall|label: Seq<char>| #[trigger]
                table(after).contains_key(label) implies table(before).contains_key(label) && label
                != entry.exposed@ && table(after)[label] == table(before)[label] by {
                let k = choose|k: int|
                    0 <= k < after.len() && (#[trigger] after[k]).exposed@ == label;
                assert(after[k].exposed@ == label);
                let a = if k < index { k } else { k + 1 };
                assert(before[a] == after[k]);
                assert(labels(before)[a] != labels(before)[index as int]);
            }
            assert forall|label: Seq<char>| #[trigger]
                table(before).contains_key(label) && label != entry.exposed@ implies table(
                after,
            ).contains_key(label) by {
                let k = choose|k: int|
                    0 <= k < before.len() && (#[trigger] before[k]).exposed@ == label;
                assert(before[k].exposed@ == label);
                let a = if k < index { k } else { k - 1 };
                assert(after[a] == before[k]);
            }
            assert(table(after) =~= table(before).remove(entry.exposed@));
        }
        entry
    }

    /// Registers one tool of a server.
    fn register(&mut self, server: &str, tool: McpTool)
        requires
            old(self).well_formed(),
        ensures
            final(self).well_formed(),
            final(self).servers == old(self).servers,
            final(self).tools() == with_tool(old(self).tools(), server@, tool@),
            final(self).noted() == old(self).noted() + tool_collision(
                old(self).tools(),
                server@,
                tool@,
            ),
    {
        let ghost before = self.tools();
        let ghost notes = self.noted();
        let bare_name = tool.name.clone();
        proof {
            lemma_table(self.entries@);
        }
        match self.find(bare_name.as_str()) {
            Some(index) => {
                // Collision: prefix both the existing tool and this new one.
                assert(self.entries@[index as int].exposed@ == bare_name@);
                let existing = self.take(index);
                let old_prefixed = existing.owner.clone().concat("__").concat(bare_name.as_str());
                let new_prefixed = server.to_owned().concat("__").concat(bare_name.as_str());
                let collision = Collision {
                    name: bare_name,
                    existing: old_prefixed.clone(),
                    added: new_prefixed.clone(),
                };
                self.put(old_prefixed, existing.owner, existing.tool);
                self.put(new_prefixed, server.to_owned(), tool);
                self.collisions.push(collision);
                assert(self.noted() =~= notes + tool_collision(before, server@, tool@));
            },
            None => {
                self.put(bare_name, server.to_owned(), tool);
                assert(self.noted() =~= notes + tool_collision(before, server@, tool@));
            },
        }
    }

    /// Registers the tools of a server and the server itself.
    pub fn register_tools(&mut self, server: String, tools: Vec<McpTool>)
        requires
            old(self).well_formed(),
        ensures
            final(self).well_formed(),
            final(self).tools() == with_tools(old(self).tools(), server@, tool_views(tools@)),
            final(self).servers() == old(self).servers().insert(server@),
            final(self).noted() == old(self).noted() + tool_collisions(
                old(self).tools(),
                server@,
                tool_views(tools@),
            ),
            old(self).owned() ==> final(self).owned(),
    {
        let ghost start = self.tools();
        let ghost notes = self.noted();
        let ghost list = tool_views(tools@);
        assert(list.take(0) =~= Seq::empty());
        assert(self.noted() =~= notes + tool_collisions(start, server@, list.take(0)));
        for tool in it: tools
            invariant
                it.seq() == tools@,
                list == tool_views(tools@),
                self.well_formed(),
                self.servers == old(self).servers,
                self.tools() == with_tools(start, server@, list.take(it.index())),
                self.noted() == notes + tool_collisions(start, server@, list.take(it.index())),
        {
            assert(list.take(it.index() + 1).drop_last() =~= list.take(it.index()));
            self.register(server.as_str(), tool);
            assert(self.noted() =~= notes + tool_collisions(
                start,
                server@,
                list.take(it.index() + 1),
            ));
        }
        assert(list.take(list.len() as int) =~= list);
        self.add_name(server);
        proof {
            if old(self).owned() {
                lemma_owners(start, server@, list, old(self).servers());
            }
        }
    }

    /// Notes a server's name.
    fn add_name(&mut self, server: String)
        requires
            old(self).well_formed(),
        ensures
            final(self).well_formed(),
            final(self).entries == old(self).entries,
            final(self).collisions == old(self).collisions,
            final(self).servers() == old(self).servers().insert(server@),
    {
        let ghost before = names(self.servers@);
        let mut i: usize = 0;
        while i < self.servers.len()
            invariant
                i <= self.servers@.len(),
                *self == *old(self),
                old(self).well_formed(),
                before == names(self.servers@),
                forall|k: int| 0 <= k < i ==> #[trigger] before[k] != server@,
            decreases self.servers@.len() - i,
        {
            if same_text(self.servers[i].as_str(), server.as_str()) {
                assert(before[i as int] == server@);
                assert(before.contains(server@));
                assert(before.to_set().insert(server@) =~= before.to_set());
                return ;
            }
            assert(before[i as int] != server@);
            i += 1;
        }
        self.servers.push(server);
        proof {
            let after = names(self.servers@);
            assert(after =~= before.push(server@));
            assert(after.no_duplicates());
            assert forall|s: Seq<char>| #[trigger] after.to_set().contains(s) <==> before.to_set().insert(
                server@,
            ).contains(s) by {
                if before.contains(s) {
                    let k = before.index_of(s);
                    assert(after[k] == s);
                }
                if s == server@ {
                    assert(after[before.len() as int] == s);
                }
                if after.contains(s) {
                    let k = after.index_of(s);
                    if k < before.len() {
                        assert(before[k] == s);
                    }
                }
            }
            assert(after.to_set() =~= before.to_set().insert(server@));
        }
    }
}

/// Where a tool call goes: the server, and the tool's name there.
#[derive(Debug)]
pub struct Route {
    pub server: String,
    pub tool: String,
}

/// Why a tool call goes nowhere.
#[derive(Debug)]
pub enum DispatchError {
    UnknownTool(String),
}

impl DispatchError {
    /// The message for the model and the log.
    pub fn message(&self) -> (text: String)
        ensures
            text@ == (match *self {
                DispatchError::UnknownTool(name) => "unknown tool: "@ + name@,
            }),
    {
        match self {
            DispatchError::UnknownTool(name) => "unknown tool: ".to_owned().concat(name.as_str()),
        }
    }
}

/// The list offers every tool of the table, once, under its exposed name.
pub open spec fn offers(tools: ToolTable, list: Seq<OpenAIToolView>) -> bool {
    &&& list.len() == tools.len()
    &&& forall|i: int|
        0 <= i < list.len() ==> tools.contains_key((#[trigger] list[i]).name) && list[i]
            == openai_form(list[i].name, tools[list[i].name].tool)
    &&& forall|i: int, j: int|
        0 <= i < j < list.len() ==> (#[trigger] list[i]).name != (#[trigger] list[j]).name
    &&& forall|label: Seq<char>| #[trigger]
        tools.contains_key(label) ==> exists|i: int|
            0 <= i < list.len() && (#[trigger] list[i]).name == label
}

/// The table `after` is `before` with these tools of a server, and `notes` are
/// the collisions on the way.
pub open spec fn tools_added(
    before: ToolTable,
    after: ToolTable,
    notes: Seq<CollisionView>,
    name: Seq<char>,
    kept: Seq<McpToolView>,
) -> bool {
    after == with_tools(before, name, kept) && notes == tool_collisions(before, name, kept)
}

/// The table `after` is `before` with the tools of a server that a filter lets
/// through: all of them without a filter. Where a backslash is involved, whether
/// a pattern matches depends on the system; the tools are some of the server's
/// then.
pub open spec fn server_added(
    before: ToolTable,
    after: ToolTable,
    notes: Seq<CollisionView>,
    name: Seq<char>,
    list: Seq<McpToolView>,
    filter: Seq<String>,
) -> bool {
    &&& filter.len() == 0 ==> tools_added(before, after, notes, name, list)
    &&& portable_choice(list, filter) ==> tools_added(
        before,
        after,
        notes,
        name,
        admitted(list, filter),
    )
    &&& exists|flags: Seq<bool>|
        flags_follow(flags, list, filter) && tools_added(
            before,
            after,
            notes,
            name,
            #[trigger] flagged(list, flags),
        )
}

/// To add a server with a filter is to add it without one with the tools that
/// are kept.
pub proof fn law_filter_selects_tools(
    before: ToolTable,
    after: ToolTable,
    notes: Seq<CollisionView>,
    name: Seq<char>,
    list: Seq<McpToolView>,
    filter: Seq<String>,
)
    requires
        server_added(before, after, notes, name, list, filter),
    ensures
        portable_choice(list, filter) ==> server_added(
            before,
            after,
            notes,
            name,
            admitted(list, filter),
            Seq::empty(),
        ),
        exists|flags: Seq<bool>|
            flags_follow(flags, list, filter) && server_added(
                before,
                after,
                notes,
                name,
                #[trigger] flagged(list, flags),
                Seq::empty(),
            ),
{
    let none = Seq::<String>::empty();
    assert forall|kept: Seq<McpToolView>| tools_added(
        before,
        after,
        notes,
        name,
        kept,
    ) implies #[trigger] server_added(before, after, notes, name, kept, none) by {
        let flags = Seq::new(kept.len(), |i: int| true);
        lemma_all_flagged(kept, flags);
        assert(flags_follow(flags, kept, none));
        assert(flagged(kept, flags) == kept);
        if portable_choice(kept, none) {
            lemma_flagged(flags, kept, none);
        }
    }
    let flags = choose|flags: Seq<bool>|
        flags_follow(flags, list, filter) && tools_added(
            before,
            after,
            notes,
            name,
            #[trigger] flagged(list, flags),
        );
    assert(server_added(before, after, notes, name, flagged(list, flags), none));
}

impl ToolRegistry {
    /// Add an MCP server's tools to the registry, applying glob-pattern
    /// filters. Handles namespace collisions by prefixing with server name.
    pub fn add_server(&mut self, name: String, all_tools: Vec<McpTool>, filter: &Vec<String>)
        requires
            old(self).well_formed(),
            selectable(tool_views(all_tools@), filter@),
        ensures
            final(self).well_formed(),
            old(self).owned() ==> final(self).owned(),
            final(self).servers() == old(self).servers().insert(name@),
            final(self).noted().len() >= old(self).noted().len(),
            final(self).noted().take(old(self).noted().len() as int) == old(self).noted(),
            server_added(
                old(self).tools(),
                final(self).tools(),
                final(self).noted().skip(old(self).noted().len() as int),
                name@,
                tool_views(all_tools@),
                filter@,
            ),
    {
        let ghost list = tool_views(all_tools@);
        let ghost earlier = self.noted();
        let ghost before = self.tools();
        let tools = select_tools(all_tools, filter);
        let ghost kept = tool_views(tools@);
        self.register_tools(name, tools);
        proof {
            let notes = tool_collisions(before, name@, kept);
            assert((earlier + notes).take(earlier.len() as int) =~= earlier);
            assert((earlier + notes).skip(earlier.len() as int) =~= notes);
            assert(tools_added(before, self.tools(), notes, name@, kept));
        }
    }

    /// The collisions so far, in their order.
    pub fn collisions(&self) -> (collisions: &Vec<Collision>)
        ensures
            collision_views(collisions@) == self.noted(),
    {
        &self.collisions
    }

    /// Convert all registered tools to OpenAI format.
    pub fn to_openai_tools(&self) -> (converted: Vec<OpenAITool>)
        requires
            self.well_formed(),
        ensures
            offers(self.tools(), offered(converted@)),
    {
        let mut converted: Vec<OpenAITool> = Vec::new();
        let mut i: usize = 0;
        while i < self.entries.len()
            invariant
                i <= self.entries@.len(),
                converted@.len() == i,
                forall|k: int|
                    0 <= k < i ==> (#[trigger] converted@[k])@ == openai_form(
                        self.entries@[k].exposed@,
                        self.entries@[k].tool@,
                    ),
            decreases self.entries@.len() - i,
        {
            let entry = &self.entries[i];
            converted.push(mcp_tool_to_openai(entry.exposed.as_str(), &entry.tool));
            i += 1;
        }
        proof {
            lemma_table(self.entries@);
            assert forall|a: int, b: int| 0 <= a < b < converted@.len() implies (
            #[trigger] converted@[a])@.name != (#[trigger] converted@[b])@.name by {
                assert(labels(self.entries@)[a] != labels(self.entries@)[b]);
            }
            assert forall|a: int| 0 <= a < converted@.len() implies self.tools().contains_key(
                (#[trigger] converted@[a])@.name,
            ) && converted@[a]@ == openai_form(
                converted@[a]@.name,
                self.tools()[converted@[a]@.name].tool,
            ) by {
                assert(self.entries@[a].exposed@ == converted@[a]@.name);
            }
            let list = offered(converted@);
            assert forall|a: int| 0 <= a < list.len() implies #[trigger] list[a]
                == converted@[a]@ by {}
            assert forall|label: Seq<char>| #[trigger]
                self.tools().contains_key(label) implies exists|a: int|
                0 <= a < list.len() && (#[trigger] list[a]).name == label by {
                let a = choose|a: int|
                    0 <= a < self.entries@.len() && (#[trigger] self.entries@[a]).exposed@ == label;
                assert(list[a].name == label);
            }
        }
        converted
    }

    /// Decides where a tool call goes: to the server that owns the tool, under
    /// the tool's own name there. A `server__` prefix is for the model only.
    pub fn dispatch(&self, tool_name: &str) -> (route: Result<Route, DispatchError>)
        requires
            self.well_formed(),
        ensures
            route is Ok <==> self.tools().contains_key(tool_name@),
            route matches Ok(r) ==> {
                &&& r.server@ == self.tools()[tool_name@].owner
                &&& r.tool@ == self.tools()[tool_name@].tool.name
                &&& self.owned() ==> self.servers().contains(r.server@)
            },
            route matches Err(e) ==> (e matches DispatchError::UnknownTool(name) && name@
                == tool_name@),
    {
        proof {
            lemma_table(self.entries@);
        }
        match self.find(tool_name) {
            Some(i) => {
                assert(self.entries@[i as int].exposed@ == tool_name@);
                let server = self.entries[i].owner.clone();
                let tool = self.entries[i].tool.name.clone();
                Ok(Route { server, tool })
            },
            None => Err(DispatchError::UnknownTool(tool_name.to_owned())),
        }
    }

    /// Number of registered tools.
    pub fn tool_count(&self) -> (count: usize)
        requires
            self.well_formed(),
        ensures
            count == self.tools().len(),
    {
        proof {
            lemma_table(self.entries@);
        }
        self.entries.len()
    }

    /// List all registered tool names, in order.
    pub fn tool_names(&self) -> (sorted: Vec<String>)
        requires
            self.well_formed(),
        ensures
            in_order(sorted@),
            names(sorted@).to_set() == self.tools().dom(),
    {
        let mut sorted: Vec<String> = Vec::new();
        let mut i: usize = 0;
        let ghost marks = labels(self.entries@);
        assert(marks.take(0).to_set() =~= names(sorted@).to_set());
        while i < self.entries.len()
            invariant
                i <= self.entries@.len(),
                marks == labels(self.entries@),
                marks.no_duplicates(),
                in_order(sorted@),
                names(sorted@).to_set() == marks.take(i as int).to_set(),
            decreases self.entries@.len() - i,
        {
            let name = self.entries[i].exposed.clone();
            let ghost before = sorted@;
            proof {
                assert forall|k: int| 0 <= k < before.len() implies (#[trigger] before[k])@
                    != name@ by {
                    assert(names(before)[k] == before[k]@);
                    assert(names(before).to_set().contains(before[k]@));
                    let at = marks.take(i as int).index_of(before[k]@);
                    assert(marks[at] == before[k]@);
                    assert(marks[i as int] == name@);
                }
            }
            insert_in_order(&mut sorted, name);
            proof {
                let at = choose|at: int|
                    0 <= at <= before.len() && sorted@ == before.insert(at, name);
                assert(marks[i as int] == name@);
                assert forall|t: Seq<char>| #[trigger]
                    names(sorted@).to_set().contains(t) <==> marks.take(i + 1).to_set().contains(
                        t,
                    ) by {
                    lemma_insert_names(before, at, name, t);
                    lemma_take_contains(marks, i as int, t);
                    assert(names(before).to_set().contains(t) <==> marks.take(i as int).to_set().contains(t));
                }
                assert(names(sorted@).to_set() =~= marks.take(i + 1).to_set());
            }
            i += 1;
        }
        proof {
            assert(marks.take(i as int) =~= marks);
            lemma_table(self.entries@);
        }
        sorted
    }

    /// Ends the registry: the servers whose clients are to be shut down, each
    /// once.
    pub fn shutdown_all(self) -> (servers: Vec<String>)
        requires
            self.well_formed(),
        ensures
            names(servers@).no_duplicates(),
            names(servers@).to_set() == self.servers(),
    {
        self.servers
    }
}

proof fn lemma_insert_names(before: Seq<String>, at: int, name: String, t: Seq<char>)
    requires
        0 <= at <= before.len(),
    ensures
        names(before.insert(at, name)).contains(t) <==> names(before).contains(t) || t == name@,
{
    let after = before.insert(at, name);
    if names(after).contains(t) {
        let k = names(after).index_of(t);
        if k < at {
            assert(names(before)[k] == t);
        } else if k > at {
            assert(names(before)[k - 1] == t);
        }
    }
    if names(before).contains(t) {
        let k = names(before).index_of(t);
        if k < at {
            assert(names(after)[k] == t);
        } else {
            assert(names(after)[k + 1] == t);
        }
    }
    assert(names(after)[at] == name@);
}

proof fn lemma_take_contains(marks: Seq<Seq<char>>, i: int, t: Seq<char>)
    requires
        0 <= i < marks.len(),
    ensures
        marks.take(i + 1).contains(t) <==> marks.take(i).contains(t) || t == marks[i],
{
    assert(marks.take(i + 1) =~= marks.take(i).push(marks[i]));
    if marks.take(i).contains(t) {
        let k = marks.take(i).index_of(t);
        assert(marks.take(i + 1)[k] == t);
    }
    if marks.take(i + 1).contains(t) {
        let k = marks.take(i + 1).index_of(t);
        if k < i {
            assert(marks.take(i)[k] == t);
        }
    }
    assert(marks.take(i + 1)[i] == marks[i]);
}

/// Registration adds no owner but the server itself.
proof fn lemma_owners(
    tools: ToolTable,
    server: Seq<char>,
    list: Seq<McpToolView>,
    servers: Set<Seq<char>>,
)
    requires
        forall|label: Seq<char>| #[trigger]
            tools.contains_key(label) ==> servers.contains(tools[label].owner),
    ensures
        forall|label: Seq<char>| #[trigger]
            with_tools(tools, server, list).contains_key(label) ==> servers.insert(server).contains(
                with_tools(tools, server, list)[label].owner,
            ),
    decreases list.len(),
{
    if list.len() > 0 {
        lemma_owners(tools, server, list.drop_last(), servers);
    }
}

/// A prefixed name is longer than the bare one, and tells servers apart.
proof fn lemma_prefixed(a: Seq<char>, b: Seq<char>, tool: Seq<char>)
    ensures
        prefixed(a, tool) != tool,
        prefixed(a, tool).len() == a.len() + 2 + tool.len(),
        prefixed(a, tool) == prefixed(b, tool) ==> a == b,
{
    reveal_strlit("__");
    if prefixed(a, tool) == prefixed(b, tool) {
        assert(prefixed(a, tool).len() == a.len() + 2 + tool.len());
        assert(prefixed(b, tool).len() == b.len() + 2 + tool.len());
        assert(prefixed(a, tool).take(a.len() as int) =~= a);
        assert(prefixed(b, tool).take(b.len() as int) =~= b);
    }
}

/// Namespace collision: where the name of a new tool is taken, the bare name
/// is gone afterwards, the new tool stands under its server's prefix, the tool
/// that had the name stands under the prefix of its own server (unless that is
/// the same server), and every other tool stays where it was.
pub proof fn law_collision_prefixes_both(tools: ToolTable, server: Seq<char>, tool: McpToolView)
    requires
        tools.contains_key(tool.name),
    ensures
        ({
            let after = with_tool(tools, server, tool);
            let existing = tools[tool.name];
            &&& !after.contains_key(tool.name)
            &&& after.contains_key(prefixed(server, tool.name))
            &&& after[prefixed(server, tool.name)] == (Registered { owner: server, tool })
            &&& existing.owner != server ==> after.contains_key(
                prefixed(existing.owner, tool.name),
            ) && after[prefixed(existing.owner, tool.name)] == existing
            &&& forall|label: Seq<char>|
                label != tool.name && label != prefixed(server, tool.name) && label != prefixed(
                    existing.owner,
                    tool.name,
                ) ==> (#[trigger] after.contains_key(label) <==> tools.contains_key(label)) && (
                tools.contains_key(label) ==> after[label] == tools[label])
        }),
{
    lemma_prefixed(server, tools[tool.name].owner, tool.name);
    lemma_prefixed(tools[tool.name].owner, server, tool.name);
}

/// No collision: a tool whose name is free stands under its bare name, and
/// every other tool stays where it was.
pub proof fn law_free_name_stays_bare(tools: ToolTable, server: Seq<char>, tool: McpToolView)
    requires
        !tools.contains_key(tool.name),
    ensures
        ({
            let after = with_tool(tools, server, tool);
            &&& after.contains_key(tool.name)
            &&& after[tool.name] == (Registered { owner: server, tool })
            &&& forall|label: Seq<char>|
                label != tool.name ==> (#[trigger] after.contains_key(label) <==> tools.contains_key(
                    label,
                )) && (tools.contains_key(label) ==> after[label] == tools[label])
        }),
{
}

/// A label is a name behind the prefix of a server, any number of times.
pub open spec fn behind_prefix(label: Seq<char>, server: Seq<char>, name: Seq<char>) -> bool
    decreases label.len(),
{
    let rest = label.skip(server.len() as int + 2);
    ||| label == name
    ||| label.len() >= server.len() + 2 && label == prefixed(server, rest) && behind_prefix(
        rest,
        server,
        name,
    )
}

/// Every exposed name traces back to its tool: it is the tool's own name behind
/// the prefix of its owner, once for each collision.
pub open spec fn traceable(tools: ToolTable) -> bool {
    forall|label: Seq<char>| #[trigger]
        tools.contains_key(label) ==> behind_prefix(
            label,
            tools[label].owner,
            tools[label].tool.name,
        )
}

/// One prefix more keeps a label behind its prefix.
proof fn lemma_behind_prefix(label: Seq<char>, server: Seq<char>, name: Seq<char>)
    requires
        behind_prefix(label, server, name),
    ensures
        behind_prefix(prefixed(server, label), server, name),
{
    reveal_strlit("__");
    let longer = prefixed(server, label);
    assert(longer.skip(server.len() as int + 2) =~= label);
}

/// Registering a tool keeps every exposed name traceable.
pub proof fn law_tool_keeps_names_traceable(
    tools: ToolTable,
    server: Seq<char>,
    tool: McpToolView,
)
    requires
        traceable(tools),
    ensures
        traceable(with_tool(tools, server, tool)),
{
    lemma_behind_prefix(tool.name, server, tool.name);
    if tools.contains_key(tool.name) {
        lemma_behind_prefix(tool.name, tools[tool.name].owner, tools[tool.name].tool.name);
    }
}

/// Registering the tools of a server keeps every exposed name traceable.
pub proof fn law_server_keeps_names_traceable(
    tools: ToolTable,
    server: Seq<char>,
    list: Seq<McpToolView>,
)
    requires
        traceable(tools),
    ensures
        traceable(with_tools(tools, server, list)),
    decreases list.len(),
{
    if list.len() > 0 {
        law_server_keeps_names_traceable(tools, server, list.drop_last());
        law_tool_keeps_names_traceable(
            with_tools(tools, server, list.drop_last()),
            server,
            list.last(),
        );
    }
}

/// Each registered tool adds one exposed name, unless it or the tool that it
/// displaces lands on a name in use.
pub proof fn law_each_tool_counts(tools: ToolTable, server: Seq<char>, tool: McpToolView)
    requires
        tools.dom().finite(),
        tools.contains_key(tool.name) ==> {
            &&& tools[tool.name].owner != server
            &&& !tools.contains_key(prefixed(server, tool.name))
            &&& !tools.contains_key(prefixed(tools[tool.name].owner, tool.name))
        },
    ensures
        with_tool(tools, server, tool).dom().finite(),
        with_tool(tools, server, tool).len() == tools.len() + 1,
{
    if tools.contains_key(tool.name) {
        let existing = tools[tool.name];
        lemma_prefixed(server, existing.owner, tool.name);
        lemma_prefixed(existing.owner, server, tool.name);
        let removed = tools.remove(tool.name);
        let moved = removed.insert(prefixed(existing.owner, tool.name), existing);
        assert(removed.len() == tools.len() - 1);
        assert(moved.len() == tools.len());
    }
}

/// A list has a tool of this name.
pub open spec fn lists(list: Seq<McpToolView>, name: Seq<char>) -> bool {
    exists|i: int| 0 <= i < list.len() && (#[trigger] list[i]).name == name
}

/// No name occurs twice in a list.
pub open spec fn names_distinct(list: Seq<McpToolView>) -> bool {
    forall|i: int, j: int|
        0 <= i < j < list.len() ==> (#[trigger] list[i]).name != (#[trigger] list[j]).name
}

/// The name under which a tool of the table is exposed once a server with this
/// list is added.
pub open spec fn kept_label(
    tools: ToolTable,
    list: Seq<McpToolView>,
    label: Seq<char>,
) -> Seq<char> {
    if lists(list, label) {
        prefixed(tools[label].owner, label)
    } else {
        label
    }
}

/// The name under which a tool of a new server is exposed.
pub open spec fn new_label(tools: ToolTable, server: Seq<char>, name: Seq<char>) -> Seq<char> {
    if tools.contains_key(name) {
        prefixed(server, name)
    } else {
        name
    }
}

/// The table and the list both have this name.
pub open spec fn shared(tools: ToolTable, list: Seq<McpToolView>, name: Seq<char>) -> bool {
    tools.contains_key(name) && lists(list, name)
}

/// The prefixed names that the collisions of a new server bring are free, and
/// differ from each other: no tool of the table and none of the list has one of
/// them, and different tools get different ones.
pub open spec fn unambiguous(tools: ToolTable, server: Seq<char>, list: Seq<McpToolView>) -> bool {
    &&& forall|name: Seq<char>| #[trigger]
        shared(tools, list, name) ==> {
            &&& tools[name].owner != server
            &&& !tools.contains_key(prefixed(tools[name].owner, name))
            &&& !tools.contains_key(prefixed(server, name))
            &&& !lists(list, prefixed(tools[name].owner, name))
            &&& !lists(list, prefixed(server, name))
        }
    &&& forall|name: Seq<char>, other: Seq<char>| #[trigger]
        shared(tools, list, name) && #[trigger] shared(tools, list, other) && name != other ==> {
            &&& prefixed(tools[name].owner, name) != prefixed(tools[other].owner, other)
            &&& prefixed(tools[name].owner, name) != prefixed(server, other)
        }
}

/// What the table holds once a server with this list is added: the tools that
/// were there, those of the list, and nothing else.
pub open spec fn nothing_lost(
    tools: ToolTable,
    server: Seq<char>,
    list: Seq<McpToolView>,
    after: ToolTable,
) -> bool {
    &&& forall|label: Seq<char>| #[trigger]
        tools.contains_key(label) ==> after.contains_key(kept_label(tools, list, label))
            && after[kept_label(tools, list, label)] == tools[label]
    &&& forall|i: int|
        0 <= i < list.len() ==> after.contains_key(
            new_label(tools, server, (#[trigger] list[i]).name),
        ) && after[new_label(tools, server, list[i].name)] == (Registered {
            owner: server,
            tool: list[i],
        })
    &&& forall|label: Seq<char>| #[trigger]
        after.contains_key(label) ==> (exists|old: Seq<char>| #[trigger]
            tools.contains_key(old) && label == kept_label(tools, list, old)) || (exists|i: int|
            0 <= i < list.len() && label == new_label(tools, server, (#[trigger] list[i]).name))
}

/// No tool is lost when a server is added: every tool that was exposed keeps its
/// definition and its owner, under its owner's prefix where the new server has a
/// tool of that name and as before otherwise; every new tool is exposed under
/// the new server's prefix where its name was taken and under its own name
/// otherwise; and nothing else is exposed.
pub proof fn law_no_tool_is_lost(tools: ToolTable, server: Seq<char>, list: Seq<McpToolView>)
    requires
        tools.dom().finite(),
        names_distinct(list),
        unambiguous(tools, server, list),
    ensures
        nothing_lost(tools, server, list, with_tools(tools, server, list)),
        with_tools(tools, server, list).dom().finite(),
        with_tools(tools, server, list).len() == tools.len() + list.len(),
    decreases list.len(),
{
    if list.len() == 0 {
        assert forall|label: Seq<char>| #[trigger] tools.contains_key(label) implies kept_label(
            tools,
            list,
            label,
        ) == label by {}
        return ;
    }
    let front = list.drop_last();
    let last = list.last();
    lemma_listed(list);
    assert forall|i: int, j: int| 0 <= i < j < front.len() implies (#[trigger] front[i]).name != (
    #[trigger] front[j]).name by {
        assert(list[i] == front[i] && list[j] == front[j]);
    }
    assert forall|name: Seq<char>| #[trigger] shared(tools, front, name) implies shared(
        tools,
        list,
        name,
    ) by {}
    assert(unambiguous(tools, server, front)) by {
        assert forall|name: Seq<char>| #[trigger] shared(tools, front, name) implies {
            &&& tools[name].owner != server
            &&& !tools.contains_key(prefixed(tools[name].owner, name))
            &&& !tools.contains_key(prefixed(server, name))
            &&& !lists(front, prefixed(tools[name].owner, name))
            &&& !lists(front, prefixed(server, name))
        } by {
            assert(shared(tools, list, name));
        }
        assert forall|name: Seq<char>, other: Seq<char>| #[trigger]
            shared(tools, front, name) && #[trigger] shared(tools, front, other) && name
            != other implies {
            &&& prefixed(tools[name].owner, name) != prefixed(tools[other].owner, other)
            &&& prefixed(tools[name].owner, name) != prefixed(server, other)
        } by {
            assert(shared(tools, list, name) && shared(tools, list, other));
        }
    }
    law_no_tool_is_lost(tools, server, front);
    let before = with_tools(tools, server, front);
    let after = with_tools(tools, server, list);
    assert(after == with_tool(before, server, last));
    assert(!lists(front, last.name)) by {
        if lists(front, last.name) {
            let i = choose|i: int| 0 <= i < front.len() && (#[trigger] front[i]).name == last.name;
            assert(list[i].name == list[list.len() - 1].name);
        }
    }
    lemma_taken_name(tools, server, list);
    if tools.contains_key(last.name) {
        assert(shared(tools, list, last.name));
        assert(kept_label(tools, front, last.name) == last.name);
        assert(before[last.name] == tools[last.name]);
        lemma_free_labels(tools, server, list);
        law_collision_prefixes_both(before, server, last);
    } else {
        law_free_name_stays_bare(before, server, last);
    }
    law_each_tool_counts(before, server, last);
    assert forall|label: Seq<char>| #[trigger] tools.contains_key(label) implies after.contains_key(
        kept_label(tools, list, label),
    ) && after[kept_label(tools, list, label)] == tools[label] by {
        if label != last.name {
            assert(kept_label(tools, list, label) == kept_label(tools, front, label));
            if lists(front, label) {
                assert(shared(tools, list, label));
            }
        }
    }
    assert forall|i: int| 0 <= i < list.len() implies after.contains_key(
        new_label(tools, server, (#[trigger] list[i]).name),
    ) && after[new_label(tools, server, list[i].name)] == (Registered {
        owner: server,
        tool: list[i],
    }) by {
        let name = list[i].name;
        assert(lists(list, name));
        if i < front.len() {
            assert(front[i] == list[i]);
            assert(name != last.name);
            if tools.contains_key(name) {
                assert(shared(tools, list, name));
                lemma_prefixed_apart(server, name, last.name);
            }
        }
    }
    assert forall|label: Seq<char>| #[trigger] after.contains_key(label) implies (exists|
        old: Seq<char>,
    | #[trigger]
        tools.contains_key(old) && label == kept_label(tools, list, old)) || (exists|i: int|
        0 <= i < list.len() && label == new_label(tools, server, (#[trigger] list[i]).name)) by {
        if label == new_label(tools, server, last.name) {
            assert(list[list.len() - 1].name == last.name);
        } else if tools.contains_key(last.name) && label == prefixed(
            tools[last.name].owner,
            last.name,
        ) {
            assert(label == kept_label(tools, list, last.name));
        } else {
            assert(before.contains_key(label));
            assert(label != last.name);
            if exists|old: Seq<char>| #[trigger]
                tools.contains_key(old) && label == kept_label(tools, front, old) {
                let old = choose|old: Seq<char>| #[trigger]
                    tools.contains_key(old) && label == kept_label(tools, front, old);
                assert(label == kept_label(tools, list, old));
            } else {
                let i = choose|i: int|
                    0 <= i < front.len() && label == new_label(
                        tools,
                        server,
                        (#[trigger] front[i]).name,
                    );
                assert(list[i] == front[i]);
                assert(label == new_label(tools, server, list[i].name));
            }
        }
    }
}

/// A server and the tools that it brings to a registry.
#[verifier::ext_equal]
pub struct Listing {
    pub server: Seq<char>,
    pub tools: Seq<McpToolView>,
}

/// The table after these servers, from first to last.
pub open spec fn with_servers(listings: Seq<Listing>) -> ToolTable
    decreases listings.len(),
{
    if listings.len() == 0 {
        Map::empty()
    } else {
        with_tools(
            with_servers(listings.drop_last()),
            listings.last().server,
            listings.last().tools,
        )
    }
}

/// How many tools these servers bring.
pub open spec fn tool_total(listings: Seq<Listing>) -> nat
    decreases listings.len(),
{
    if listings.len() == 0 {
        0
    } else {
        tool_total(listings.drop_last()) + listings.last().tools.len()
    }
}

/// The server at `s` brings a tool at `i`.
pub open spec fn brings(listings: Seq<Listing>, s: int, i: int) -> bool {
    0 <= s < listings.len() && 0 <= i < listings[s].tools.len()
}

/// The label that a tool of a server has after a collision.
pub open spec fn prefixed_at(listings: Seq<Listing>, s: int, i: int) -> Seq<char> {
    prefixed(listings[s].server, listings[s].tools[i].name)
}

/// Servers that can be told apart: their names differ, none lists a name twice,
/// and the prefixed names of their tools differ from each other and from every
/// plain name.
pub open spec fn told_apart(listings: Seq<Listing>) -> bool {
    &&& forall|s: int, t: int|
        0 <= s < t < listings.len() ==> (#[trigger] listings[s]).server != (
        #[trigger] listings[t]).server
    &&& forall|s: int| 0 <= s < listings.len() ==> names_distinct((#[trigger] listings[s]).tools)
    &&& forall|s: int, i: int, t: int, j: int| #[trigger]
        brings(listings, s, i) && #[trigger] brings(listings, t, j) ==> {
            &&& prefixed_at(listings, s, i) != listings[t].tools[j].name
            &&& s != t || i != j ==> prefixed_at(listings, s, i) != prefixed_at(listings, t, j)
        }
}

/// A tool of a server stands under a label: its own name, or that name behind
/// the prefix of its server.
pub open spec fn stands(
    tools: ToolTable,
    listings: Seq<Listing>,
    label: Seq<char>,
    s: int,
    i: int,
) -> bool {
    &&& brings(listings, s, i)
    &&& tools.contains_key(label)
    &&& tools[label] == (Registered { owner: listings[s].server, tool: listings[s].tools[i] })
    &&& label == listings[s].tools[i].name || label == prefixed_at(listings, s, i)
}

/// The table exposes the tools that these servers bring, every one under one
/// label, and nothing else.
pub open spec fn exposes(tools: ToolTable, listings: Seq<Listing>) -> bool {
    &&& forall|s: int, i: int| #[trigger]
        brings(listings, s, i) ==> exists|label: Seq<char>| #[trigger]
            stands(tools, listings, label, s, i)
    &&& forall|label: Seq<char>| #[trigger]
        tools.contains_key(label) ==> exists|s: int, i: int| #[trigger]
            stands(tools, listings, label, s, i)
    &&& forall|a: Seq<char>, b: Seq<char>, s: int, i: int| #[trigger]
        stands(tools, listings, a, s, i) && #[trigger] stands(tools, listings, b, s, i) ==> a == b
}

/// Servers that can be told apart are added without ambiguity, each to the table
/// of those before it.
pub proof fn law_servers_told_apart_are_unambiguous(listings: Seq<Listing>)
    requires
        listings.len() > 0,
        told_apart(listings),
    ensures
        unambiguous(
            with_servers(listings.drop_last()),
            listings.last().server,
            listings.last().tools,
        ),
{
    let front = listings.drop_last();
    lemma_told_apart(listings);
    law_no_tool_is_lost_over_servers(front);
    lemma_unambiguous(with_servers(front), listings);
}

/// No tool is lost over any number of servers that can be told apart: each of
/// their tools is exposed with its definition and its owner under one label, its
/// own name or that name behind its server's prefix, and nothing else is.
pub proof fn law_no_tool_is_lost_over_servers(listings: Seq<Listing>)
    requires
        told_apart(listings),
    ensures
        exposes(with_servers(listings), listings),
        with_servers(listings).dom().finite(),
        with_servers(listings).len() == tool_total(listings),
    decreases listings.len(),
{
    if listings.len() > 0 {
        let front = listings.drop_last();
        lemma_told_apart(listings);
        law_no_tool_is_lost_over_servers(front);
        let tools = with_servers(front);
        lemma_unambiguous(tools, listings);
        assert(names_distinct(listings[listings.len() - 1].tools));
        law_no_tool_is_lost(tools, listings.last().server, listings.last().tools);
        lemma_exposes(tools, listings);
    }
}

/// Servers that can be told apart can be without the last.
proof fn lemma_told_apart(listings: Seq<Listing>)
    requires
        listings.len() > 0,
        told_apart(listings),
    ensures
        told_apart(listings.drop_last()),
{
    let front = listings.drop_last();
    assert forall|s: int, i: int| #[trigger] brings(front, s, i) implies brings(listings, s, i)
        && prefixed_at(front, s, i) == prefixed_at(listings, s, i) by {}
    assert forall|s: int, t: int| 0 <= s < t < front.len() implies (#[trigger] front[s]).server != (
    #[trigger] front[t]).server by {
        assert(front[s] == listings[s] && front[t] == listings[t]);
    }
    assert forall|s: int| 0 <= s < front.len() implies names_distinct(
        (#[trigger] front[s]).tools,
    ) by {
        assert(front[s] == listings[s]);
    }
}

/// Before the last tool of a list, its name is taken exactly where it was taken
/// before the list.
proof fn lemma_taken_name(tools: ToolTable, server: Seq<char>, list: Seq<McpToolView>)
    requires
        list.len() > 0,
        unambiguous(tools, server, list),
        !lists(list.drop_last(), list.last().name),
        nothing_lost(
            tools,
            server,
            list.drop_last(),
            with_tools(tools, server, list.drop_last()),
        ),
    ensures
        with_tools(tools, server, list.drop_last()).contains_key(list.last().name)
            <==> tools.contains_key(list.last().name),
{
    let front = list.drop_last();
    let name = list.last().name;
    let before = with_tools(tools, server, front);
    lemma_listed(list);
    if tools.contains_key(name) {
        assert(kept_label(tools, front, name) == name);
    }
    if before.contains_key(name) {
        if exists|old: Seq<char>| #[trigger]
            tools.contains_key(old) && name == kept_label(tools, front, old) {
            let old = choose|old: Seq<char>| #[trigger]
                tools.contains_key(old) && name == kept_label(tools, front, old);
            if lists(front, old) {
                assert(shared(tools, list, old));
                assert(lists(list, name));
            }
        } else {
            let i = choose|i: int|
                0 <= i < front.len() && name == new_label(tools, server, (#[trigger] front[i]).name);
            assert(lists(front, front[i].name));
            if tools.contains_key(front[i].name) {
                assert(shared(tools, list, front[i].name));
                assert(lists(list, name));
            }
        }
    }
}

/// Before the last tool of a list, the labels that its collision brings are
/// free.
proof fn lemma_free_labels(tools: ToolTable, server: Seq<char>, list: Seq<McpToolView>)
    requires
        list.len() > 0,
        unambiguous(tools, server, list),
        tools.contains_key(list.last().name),
        !lists(list.drop_last(), list.last().name),
        nothing_lost(
            tools,
            server,
            list.drop_last(),
            with_tools(tools, server, list.drop_last()),
        ),
    ensures
        ({
            let before = with_tools(tools, server, list.drop_last());
            let name = list.last().name;
            &&& !before.contains_key(prefixed(server, name))
            &&& !before.contains_key(prefixed(tools[name].owner, name))
        }),
{
    let front = list.drop_last();
    let name = list.last().name;
    let before = with_tools(tools, server, front);
    lemma_listed(list);
    assert(shared(tools, list, name));
    assert forall|label: Seq<char>|
        label == prefixed(server, name) || label == prefixed(
            tools[name].owner,
            name,
        ) implies !#[trigger] before.contains_key(label) by {
        if before.contains_key(label) {
            if exists|old: Seq<char>| #[trigger]
                tools.contains_key(old) && label == kept_label(tools, front, old) {
                let old = choose|old: Seq<char>| #[trigger]
                    tools.contains_key(old) && label == kept_label(tools, front, old);
                if lists(front, old) {
                    assert(shared(tools, list, old));
                    assert(old != name);
                }
            } else {
                let i = choose|i: int|
                    0 <= i < front.len() && label == new_label(
                        tools,
                        server,
                        (#[trigger] front[i]).name,
                    );
                let other = front[i].name;
                assert(lists(front, other));
                assert(other != name);
                if tools.contains_key(other) {
                    assert(shared(tools, list, other));
                    lemma_prefixed_apart(server, name, other);
                }
            }
        }
    }
}

/// The names of a list are those of its front and its last.
proof fn lemma_listed(list: Seq<McpToolView>)
    requires
        list.len() > 0,
    ensures
        forall|name: Seq<char>| #[trigger]
            lists(list, name) <==> lists(list.drop_last(), name) || name == list.last().name,
{
    let front = list.drop_last();
    assert forall|name: Seq<char>| #[trigger]
        lists(list, name) <==> lists(front, name) || name == list.last().name by {
        if lists(front, name) {
            let i = choose|i: int| 0 <= i < front.len() && (#[trigger] front[i]).name == name;
            assert(list[i].name == name);
        }
        if lists(list, name) {
            let i = choose|i: int| 0 <= i < list.len() && (#[trigger] list[i]).name == name;
            if i < front.len() {
                assert(front[i].name == name);
            }
        }
        if name == list.last().name {
            assert(list[list.len() - 1].name == name);
        }
    }
}

/// A server's prefixed names are told apart by the tools.
proof fn lemma_prefixed_apart(server: Seq<char>, x: Seq<char>, y: Seq<char>)
    ensures
        prefixed(server, x) == prefixed(server, y) ==> x == y,
{
    reveal_strlit("__");
    assert(prefixed(server, x).skip(server.len() as int + 2) =~= x);
    assert(prefixed(server, y).skip(server.len() as int + 2) =~= y);
}

/// A label of the table that the next server lists is the plain name of its tool.
proof fn lemma_plain_label(
    tools: ToolTable,
    listings: Seq<Listing>,
    label: Seq<char>,
    s: int,
    i: int,
)
    requires
        listings.len() > 0,
        told_apart(listings),
        stands(tools, listings.drop_last(), label, s, i),
        lists(listings.last().tools, label),
    ensures
        brings(listings, s, i),
        s < listings.len() - 1,
        label == listings[s].tools[i].name,
        tools[label].owner == listings[s].server,
        tools[label].owner != listings.last().server,
{
    let last = listings.len() - 1;
    let list = listings.last().tools;
    let j = choose|j: int| 0 <= j < list.len() && (#[trigger] list[j]).name == label;
    assert(brings(listings, last, j));
    assert(brings(listings, s, i));
    assert(listings[s].server != listings[last].server);
}

/// The next server is added without ambiguity to a table that exposes the tools
/// of those before it.
proof fn lemma_unambiguous(tools: ToolTable, listings: Seq<Listing>)
    requires
        listings.len() > 0,
        told_apart(listings),
        exposes(tools, listings.drop_last()),
    ensures
        unambiguous(tools, listings.last().server, listings.last().tools),
{
    let front = listings.drop_last();
    let last = listings.len() - 1;
    let server = listings.last().server;
    let list = listings.last().tools;
    assert forall|name: Seq<char>| #[trigger] shared(tools, list, name) implies {
        &&& tools[name].owner != server
        &&& !tools.contains_key(prefixed(tools[name].owner, name))
        &&& !tools.contains_key(prefixed(server, name))
        &&& !lists(list, prefixed(tools[name].owner, name))
        &&& !lists(list, prefixed(server, name))
    } by {
        let (s, i) = choose|s: int, i: int| #[trigger] stands(tools, front, name, s, i);
        assert(stands(tools, front, name, s, i));
        lemma_plain_label(tools, listings, name, s, i);
        let j = choose|j: int| 0 <= j < list.len() && (#[trigger] list[j]).name == name;
        assert(brings(listings, last, j));
        assert forall|label: Seq<char>|
            label == prefixed_at(listings, s, i) || label == prefixed_at(
                listings,
                last,
                j,
            ) implies !#[trigger] tools.contains_key(label) && !lists(list, label) by {
            if tools.contains_key(label) {
                let (t, k) = choose|t: int, k: int| #[trigger] stands(tools, front, label, t, k);
                assert(stands(tools, front, label, t, k));
                assert(brings(listings, t, k));
                assert(prefixed_at(front, t, k) == prefixed_at(listings, t, k));
                assert(t == s && k == i);
                assert(label == name);
            }
            if lists(list, label) {
                let k = choose|k: int| 0 <= k < list.len() && (#[trigger] list[k]).name == label;
                assert(brings(listings, last, k));
            }
        }
    }
    assert forall|name: Seq<char>, other: Seq<char>| #[trigger]
        shared(tools, list, name) && #[trigger] shared(tools, list, other) && name
        != other implies {
        &&& prefixed(tools[name].owner, name) != prefixed(tools[other].owner, other)
        &&& prefixed(tools[name].owner, name) != prefixed(server, other)
    } by {
        let (s, i) = choose|s: int, i: int| #[trigger] stands(tools, front, name, s, i);
        let (t, k) = choose|t: int, k: int| #[trigger] stands(tools, front, other, t, k);
        assert(stands(tools, front, name, s, i) && stands(tools, front, other, t, k));
        lemma_plain_label(tools, listings, name, s, i);
        lemma_plain_label(tools, listings, other, t, k);
        let j = choose|j: int| 0 <= j < list.len() && (#[trigger] list[j]).name == other;
        assert(brings(listings, last, j));
        assert(prefixed_at(listings, last, j) == prefixed(server, other));
    }
}

/// Where nothing is lost on the way, the table exposes the tools of the next
/// server too.
proof fn lemma_exposes(tools: ToolTable, listings: Seq<Listing>)
    requires
        listings.len() > 0,
        told_apart(listings),
        exposes(tools, listings.drop_last()),
        nothing_lost(
            tools,
            listings.last().server,
            listings.last().tools,
            with_tools(tools, listings.last().server, listings.last().tools),
        ),
    ensures
        exposes(with_tools(tools, listings.last().server, listings.last().tools), listings),
{
    let front = listings.drop_last();
    let last = listings.len() - 1;
    let server = listings.last().server;
    let list = listings.last().tools;
    let after = with_tools(tools, server, list);
    assert forall|old: Seq<char>, s: int, i: int| #[trigger]
        stands(tools, front, old, s, i) implies stands(
        after,
        listings,
        kept_label(tools, list, old),
        s,
        i,
    ) by {
        assert(tools.contains_key(old));
        if lists(list, old) {
            lemma_plain_label(tools, listings, old, s, i);
        }
    }
    assert forall|i: int| 0 <= i < list.len() implies stands(
        after,
        listings,
        new_label(tools, server, (#[trigger] list[i]).name),
        last,
        i,
    ) by {}
    assert forall|s: int, i: int| #[trigger] brings(listings, s, i) implies exists|
        label: Seq<char>,
    | #[trigger] stands(after, listings, label, s, i) by {
        if s < last {
            assert(brings(front, s, i));
            let old = choose|old: Seq<char>| #[trigger] stands(tools, front, old, s, i);
            assert(stands(after, listings, kept_label(tools, list, old), s, i));
        } else {
            assert(stands(after, listings, new_label(tools, server, list[i].name), s, i));
        }
    }
    assert forall|label: Seq<char>, s: int, i: int| #[trigger]
        stands(after, listings, label, s, i) implies if s < last {
        exists|old: Seq<char>| #[trigger]
            stands(tools, front, old, s, i) && label == kept_label(tools, list, old)
    } else {
        label == new_label(tools, server, list[i].name)
    } by {
        if exists|old: Seq<char>| #[trigger]
            tools.contains_key(old) && label == kept_label(tools, list, old) {
            let old = choose|old: Seq<char>| #[trigger]
                tools.contains_key(old) && label == kept_label(tools, list, old);
            let (t, k) = choose|t: int, k: int| #[trigger] stands(tools, front, old, t, k);
            assert(stands(tools, front, old, t, k));
            assert(stands(after, listings, label, t, k));
            lemma_one_place(after, listings, label, s, i, t, k);
        } else {
            assert(after.contains_key(label));
            let k = choose|k: int|
                0 <= k < list.len() && label == new_label(tools, server, (#[trigger] list[k]).name);
            assert(stands(after, listings, label, last, k));
            lemma_one_place(after, listings, label, s, i, last, k);
        }
    }
    assert forall|label: Seq<char>| #[trigger] after.contains_key(label) implies exists|
        s: int,
        i: int,
    | #[trigger] stands(after, listings, label, s, i) by {
        if exists|old: Seq<char>| #[trigger]
            tools.contains_key(old) && label == kept_label(tools, list, old) {
            let old = choose|old: Seq<char>| #[trigger]
                tools.contains_key(old) && label == kept_label(tools, list, old);
            let (t, k) = choose|t: int, k: int| #[trigger] stands(tools, front, old, t, k);
            assert(stands(tools, front, old, t, k));
            assert(stands(after, listings, label, t, k));
        } else {
            let k = choose|k: int|
                0 <= k < list.len() && label == new_label(tools, server, (#[trigger] list[k]).name);
            assert(stands(after, listings, label, last, k));
        }
    }
}

/// Under one label stands one tool.
proof fn lemma_one_place(
    tools: ToolTable,
    listings: Seq<Listing>,
    label: Seq<char>,
    s: int,
    i: int,
    t: int,
    k: int,
)
    requires
        told_apart(listings),
        stands(tools, listings, label, s, i),
        stands(tools, listings, label, t, k),
    ensures
        s == t,
        i == k,
{
    if s < t {
        assert(listings[s].server != listings[t].server);
    } else if t < s {
        assert(listings[t].server != listings[s].server);
    } else {
        let list = listings[s].tools;
        assert(names_distinct(list));
        if i < k {
            assert(list[i].name != list[k].name);
        } else if k < i {
            assert(list[k].name != list[i].name);
        }
    }
}

/// Every tool of the table is offered to the model once, under its exposed name,
/// with its description, nothing where it has none, and its schema word for word.
pub proof fn law_tools_are_offered_verbatim(
    tools: ToolTable,
    list: Seq<OpenAIToolView>,
    label: Seq<char>,
)
    requires
        offers(tools, list),
        tools.contains_key(label),
    ensures
        exists|k: int|
            {
                &&& 0 <= k < list.len()
                &&& (#[trigger] list[k]).name == label
                &&& list[k].tool_type == "function"@
                &&& list[k].parameters == tools[label].tool.input_schema
                &&& tools[label].tool.description matches Some(text) ==> list[k].description
                    == text
                &&& tools[label].tool.description is None ==> list[k].description.len() == 0
                &&& forall|j: int|
                    0 <= j < list.len() && j != k ==> (#[trigger] list[j]).name != label
            },
        list.len() == tools.len(),
{
    let k = choose|k: int| 0 <= k < list.len() && (#[trigger] list[k]).name == label;
    assert(list[k].name == label);
}

/// A collision is noted as it happens: under the name that both tools had, with the
/// labels under which they stand since. Without a collision nothing is noted.
pub proof fn law_collision_is_noted(tools: ToolTable, server: Seq<char>, tool: McpToolView)
    ensures
        ({
            let after = with_tool(tools, server, tool);
            let notes = tool_collision(tools, server, tool);
            &&& !tools.contains_key(tool.name) ==> notes.len() == 0
            &&& tools.contains_key(tool.name) ==> {
                &&& notes.len() == 1
                &&& notes[0].name == tool.name
                &&& after.contains_key(notes[0].added)
                &&& after[notes[0].added] == (Registered { owner: server, tool })
                &&& tools[tool.name].owner != server ==> after.contains_key(notes[0].existing)
                    && after[notes[0].existing] == tools[tool.name]
            }
        }),
{
    if tools.contains_key(tool.name) {
        lemma_prefixed(server, tools[tool.name].owner, tool.name);
        lemma_prefixed(tools[tool.name].owner, server, tool.name);
    }
}

/// The tools of a server are registered one after the other: a list is registered
/// by registering its one part and then the other, and the collisions are noted in
/// that order.
pub proof fn law_tools_are_registered_in_turn(
    tools: ToolTable,
    server: Seq<char>,
    first: Seq<McpToolView>,
    then: Seq<McpToolView>,
    tool: McpToolView,
)
    ensures
        ({
            let middle = with_tools(tools, server, first);
            &&& with_tools(tools, server, first + then) == with_tools(middle, server, then)
            &&& tool_collisions(tools, server, first + then) == tool_collisions(
                tools,
                server,
                first,
            ) + tool_collisions(middle, server, then)
        }),
        with_tools(tools, server, seq![tool]) == with_tool(tools, server, tool),
        tool_collisions(tools, server, seq![tool]) == tool_collision(tools, server, tool),
    decreases then.len(),
{
    let one = seq![tool];
    assert(one.drop_last() =~= Seq::empty());
    assert(one.last() == tool);
    assert(with_tools(tools, server, one.drop_last()) == tools);
    assert(tool_collisions(tools, server, one.drop_last()) =~= Seq::empty());
    assert(tool_collisions(tools, server, one) == tool_collisions(tools, server, one.drop_last())
        + tool_collision(tools, server, tool));
    assert(tool_collisions(tools, server, one) =~= tool_collision(tools, server, tool));
    let middle = with_tools(tools, server, first);
    if then.len() == 0 {
        assert(first + then =~= first);
        assert(tool_collisions(tools, server, first) + tool_collisions(middle, server, then)
            =~= tool_collisions(tools, server, first));
    } else {
        let front = then.drop_last();
        law_tools_are_registered_in_turn(tools, server, first, front, tool);
        assert((first + then).drop_last() =~= first + front);
        assert((first + then).last() == then.last());
        assert(tool_collisions(tools, server, first + then) =~= tool_collisions(
            tools,
            server,
            first,
        ) + tool_collisions(middle, server, then));
    }
}

/// A prefixed name begins with the server and ends with the tool, with two
/// underscores between.
pub proof fn law_prefix_is_the_server(server: Seq<char>, tool: Seq<char>)
    ensures
        server.is_prefix_of(prefixed(server, tool)),
        tool.is_suffix_of(prefixed(server, tool)),
        prefixed(server, tool).len() == server.len() + 2 + tool.len(),
        prefixed(server, tool)[server.len() as int] == '_',
        prefixed(server, tool)[server.len() as int + 1] == '_',
{
    reveal_strlit("__");
    let label = prefixed(server, tool);
    assert(server =~= label.subrange(0, server.len() as int));
    assert(tool =~= label.subrange(label.len() - tool.len(), label.len() as int));
}

} // verus!
