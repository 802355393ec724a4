//! Tool filters: lists of glob patterns, one of which a tool's name must match.

use vstd::prelude::*;
use vstd::string::*;

use crate::globs::{
    compilable, glob_match, glob_valid, is_compilable, is_portable, outcome_of, pattern_outcome,
    portable,
};
use crate::mcp::{tool_views, McpTool, McpToolView};

verus! {

/// Whether a tool of this name is let through by a filter: an empty filter
/// lets every tool through, another those that match one of its patterns.
pub open spec fn passes(filter: Seq<String>, name: Seq<char>) -> bool {
    filter.len() == 0 || exists|i: int|
        0 <= i < filter.len() && outcome_of((#[trigger] filter[i])@, name) == Some(true)
}

/// No backslash in any pattern of a filter.
pub open spec fn portable_filter(filter: Seq<String>) -> bool {
    forall|i: int| 0 <= i < filter.len() ==> portable((#[trigger] filter[i])@)
}

/// A pattern of a filter matches a name, with no backslash involved.
pub open spec fn surely_matches(filter: Seq<String>, name: Seq<char>, k: int) -> bool {
    &&& 0 <= k < filter.len()
    &&& portable(filter[k]@)
    &&& portable(name)
    &&& outcome_of(filter[k]@, name) == Some(true)
}

/// One of the first `n` patterns of a filter matches a name, so that the others
/// are not asked.
pub open spec fn settled(filter: Seq<String>, name: Seq<char>, n: int) -> bool {
    exists|k: int| k < n && #[trigger] surely_matches(filter, name, k)
}

/// Every pattern of a filter that is asked about a name can be compiled.
pub open spec fn decidable(filter: Seq<String>, name: Seq<char>) -> bool {
    forall|k: int|
        0 <= k < filter.len() ==> compilable((#[trigger] filter[k])@) || settled(filter, name, k)
}

/// Every pattern of a filter that is asked about a tool can be compiled.
pub open spec fn selectable(list: Seq<McpToolView>, filter: Seq<String>) -> bool {
    forall|i: int| 0 <= i < list.len() ==> decidable(filter, (#[trigger] list[i]).name)
}

/// The items of a list whose flag is set.
pub open spec fn flagged<A>(items: Seq<A>, flags: Seq<bool>) -> Seq<A>
    decreases items.len(),
{
    if items.len() == 0 {
        Seq::empty()
    } else {
        let front = flagged(items.drop_last(), flags);
        if flags[items.len() - 1] {
            front.push(items.last())
        } else {
            front
        }
    }
}

/// The flags say which tools a filter lets through, as far as no backslash is
/// involved. A match without one lets a tool through whatever the other patterns
/// hold.
pub open spec fn flags_follow(
    flags: Seq<bool>,
    list: Seq<McpToolView>,
    filter: Seq<String>,
) -> bool {
    &&& flags.len() == list.len()
    &&& forall|i: int|
        0 <= i < list.len() && portable_filter(filter) && portable((#[trigger] list[i]).name)
            ==> flags[i] == passes(filter, list[i].name)
    &&& forall|i: int, k: int|
        0 <= i < list.len() && #[trigger] surely_matches(filter, list[i].name, k) ==> flags[i]
}

/// The tools that a filter lets through.
pub open spec fn admitted(list: Seq<McpToolView>, filter: Seq<String>) -> Seq<McpToolView> {
    list.filter(|tool: McpToolView| passes(filter, tool.name))
}

/// A filter and a list of tools without a backslash.
pub open spec fn portable_choice(list: Seq<McpToolView>, filter: Seq<String>) -> bool {
    portable_filter(filter) && forall|i: int|
        0 <= i < list.len() ==> portable((#[trigger] list[i]).name)
}

/// Where no backslash is involved the flags select what the filter admits.
pub proof fn lemma_flagged(flags: Seq<bool>, list: Seq<McpToolView>, filter: Seq<String>)
    requires
        flags.len() >= list.len(),
        portable_choice(list, filter),
        forall|i: int|
            0 <= i < list.len() ==> flags[i] == passes(filter, (#[trigger] list[i]).name),
    ensures
        flagged(list, flags) == admitted(list, filter),
    decreases list.len(),
{
    reveal(Seq::filter);
    if list.len() > 0 {
        let front = list.drop_last();
        assert forall|i: int| 0 <= i < front.len() implies flags[i] == passes(
            filter,
            (#[trigger] front[i]).name,
        ) && portable(front[i].name) by {
            assert(front[i] == list[i]);
        }
        lemma_flagged(flags, front, filter);
        assert(list[list.len() - 1] == list.last());
    }
}

/// Whether a tool is let through, from what each pattern of a filter says of it:
/// without patterns it is, and otherwise where one of them matches.
pub open spec fn lets_through(outcomes: Seq<Option<bool>>) -> bool {
    outcomes.len() == 0 || exists|i: int|
        0 <= i < outcomes.len() && #[trigger] outcomes[i] == Some(true)
}

/// Whether a tool is let through, from what each pattern of a filter says of it.
pub fn admits(outcomes: &Vec<Option<bool>>) -> (admitted: bool)
    ensures
        admitted == lets_through(outcomes@),
{
    let mut i: usize = 0;
    while i < outcomes.len()
        invariant
            i <= outcomes@.len(),
            forall|k: int| 0 <= k < i ==> #[trigger] outcomes@[k] != Some(true),
        decreases outcomes@.len() - i,
    {
        if let Some(matched) = outcomes[i] {
            if matched {
                assert(outcomes@[i as int] == Some(true));
                return true;
            }
        }
        i += 1;
    }
    outcomes.len() == 0
}

/// What the patterns of a filter say of a name, up to the first that matches.
fn pattern_outcomes(filter: &Vec<String>, name: &str) -> (outcomes: Vec<Option<bool>>)
    requires
        decidable(filter@, name@),
    ensures
        filter@.len() == 0 ==> lets_through(outcomes@),
        portable_filter(filter@) && portable(name@) ==> lets_through(outcomes@) == passes(
            filter@,
            name@,
        ),
        settled(filter@, name@, filter@.len() as int) ==> lets_through(outcomes@),
{
    let mut outcomes: Vec<Option<bool>> = Vec::new();
    let mut i: usize = 0;
    while i < filter.len()
        invariant
            i <= filter@.len(),
            outcomes@.len() == i,
            decidable(filter@, name@),
            forall|k: int| 0 <= k < i ==> #[trigger] outcomes@[k] != Some(true),
            forall|k: int|
                0 <= k < i && portable(filter@[k]@) && portable(name@) ==> #[trigger] outcomes@[k]
                    == outcome_of(filter@[k]@, name@),
        decreases filter@.len() - i,
    {
        assert(compilable(filter@[i as int]@)) by {
            if settled(filter@, name@, i as int) {
                let k = choose|k: int| k < i && #[trigger] surely_matches(filter@, name@, k);
                assert(outcomes@[k] == Some(true));
            }
        }
        let outcome = pattern_outcome(filter[i].as_str(), name);
        outcomes.push(outcome);
        if let Some(matched) = outcome {
            if matched {
                proof {
                    assert(outcomes@[i as int] == Some(true));
                    if portable_filter(filter@) && portable(name@) {
                        assert(portable(filter@[i as int]@));
                        assert(outcome_of(filter@[i as int]@, name@) == Some(true));
                    }
                }
                return outcomes;
            }
        }
        i += 1;
    }
    proof {
        if settled(filter@, name@, filter@.len() as int) {
            let k = choose|k: int|
                k < filter@.len() && #[trigger] surely_matches(filter@, name@, k);
            assert(outcomes@[k] == Some(true));
        }
        if portable_filter(filter@) && portable(name@) && passes(filter@, name@) && filter@.len()
            > 0 {
            let k = choose|k: int|
                0 <= k < filter@.len() && outcome_of((#[trigger] filter@[k])@, name@) == Some(true);
            assert(outcomes@[k] == Some(true));
        }
    }
    outcomes
}

/// The tools whose flag is set, in their order.
pub fn keep_flagged(tools: Vec<McpTool>, flags: &Vec<bool>) -> (kept: Vec<McpTool>)
    requires
        flags@.len() == tools@.len(),
    ensures
        kept@ == flagged(tools@, flags@),
{
    let total = tools.len();
    let mut kept: Vec<McpTool> = Vec::new();
    let mut i: usize = 0;
    assert(kept@ =~= flagged(tools@.take(0), flags@));
    for tool in it: tools
        invariant
            it.seq() == tools@,
            flags@.len() == tools@.len(),
            total == tools@.len(),
            i == it.index(),
            kept@ == flagged(tools@.take(it.index()), flags@),
    {
        assert(tools@.take(i + 1).drop_last() =~= tools@.take(i as int));
        if flags[i] {
            kept.push(tool);
        }
        i += 1;
    }
    assert(tools@.take(tools@.len() as int) =~= tools@);
    kept
}

/// Selecting tools and looking at them commute.
proof fn lemma_flagged_views(tools: Seq<McpTool>, flags: Seq<bool>)
    ensures
        tool_views(flagged(tools, flags)) == flagged(tool_views(tools), flags),
    decreases tools.len(),
{
    if tools.len() > 0 {
        lemma_flagged_views(tools.drop_last(), flags);
        assert(tool_views(tools).drop_last() =~= tool_views(tools.drop_last()));
        let front = flagged(tools.drop_last(), flags);
        assert(tool_views(front.push(tools.last())) =~= tool_views(front).push(tools.last()@));
    } else {
        assert(tool_views(flagged(tools, flags)) =~= Seq::empty());
    }
}

/// The tools that a filter lets through, in their order.
pub fn select_tools(all_tools: Vec<McpTool>, filter: &Vec<String>) -> (kept: Vec<McpTool>)
    requires
        selectable(tool_views(all_tools@), filter@),
    ensures
        portable_choice(tool_views(all_tools@), filter@) ==> tool_views(kept@) == admitted(
            tool_views(all_tools@),
            filter@,
        ),
        exists|flags: Seq<bool>|
            flags_follow(flags, tool_views(all_tools@), filter@) && tool_views(kept@)
                == #[trigger] flagged(tool_views(all_tools@), flags),
        filter@.len() == 0 ==> kept@ == all_tools@,
{
    let ghost list = tool_views(all_tools@);
    let mut flags: Vec<bool> = Vec::new();
    let mut i: usize = 0;
    while i < all_tools.len()
        invariant
            i <= all_tools@.len(),
            flags@.len() == i,
            list == tool_views(all_tools@),
            selectable(list, filter@),
            forall|k: int|
                0 <= k < i && portable_filter(filter@) && portable((#[trigger] list[k]).name)
                    ==> flags@[k] == passes(filter@, list[k].name),
            forall|k: int, j: int|
                0 <= k < i && #[trigger] surely_matches(filter@, list[k].name, j) ==> flags@[k],
            filter@.len() == 0 ==> forall|k: int| 0 <= k < i ==> #[trigger] flags@[k],
        decreases all_tools@.len() - i,
    {
        let ghost name = list[i as int].name;
        assert(list[i as int] == all_tools@[i as int]@);
        assert(decidable(filter@, name));
        let outcomes = pattern_outcomes(filter, all_tools[i].name.as_str());
        flags.push(admits(&outcomes));
        assert forall|j: int| #[trigger] surely_matches(filter@, name, j) implies flags@[i as int] by {
            assert(settled(filter@, name, filter@.len() as int));
        }
        i += 1;
    }
    proof {
        lemma_flagged_views(all_tools@, flags@);
        assert(flags_follow(flags@, list, filter@));
        if portable_choice(list, filter@) {
            lemma_flagged(flags@, list, filter@);
        }
        if filter@.len() == 0 {
            lemma_all_flagged(all_tools@, flags@);
        }
    }
    keep_flagged(all_tools, &flags)
}

/// With every flag set the whole list is selected.
pub proof fn lemma_all_flagged<A>(items: Seq<A>, flags: Seq<bool>)
    requires
        flags.len() >= items.len(),
        forall|i: int| 0 <= i < items.len() ==> #[trigger] flags[i],
    ensures
        flagged(items, flags) == items,
    decreases items.len(),
{
    if items.len() > 0 {
        lemma_all_flagged(items.drop_last(), flags);
        assert(flags[items.len() - 1]);
        assert(items.drop_last().push(items.last()) =~= items);
    } else {
        assert(items =~= Seq::empty());
    }
}

/// Whether every pattern of a filter that is asked about a name can be compiled.
pub fn can_decide(filter: &Vec<String>, name: &str) -> (fits: bool)
    ensures
        fits == decidable(filter@, name@),
{
    let plain = is_portable(name);
    let mut i: usize = 0;
    while i < filter.len()
        invariant
            i <= filter@.len(),
            plain == portable(name@),
            forall|k: int| 0 <= k < i ==> compilable((#[trigger] filter@[k])@),
            forall|k: int| k < i ==> !#[trigger] surely_matches(filter@, name@, k),
        decreases filter@.len() - i,
    {
        if !is_compilable(filter[i].as_str()) {
            assert(!compilable(filter@[i as int]@) && !settled(filter@, name@, i as int));
            return false;
        }
        let outcome = pattern_outcome(filter[i].as_str(), name);
        if plain && is_portable(filter[i].as_str()) {
            if let Some(matched) = outcome {
                if matched {
                    assert(surely_matches(filter@, name@, i as int));
                    return true;
                }
            }
        }
        i += 1;
    }
    true
}

/// Whether every pattern of a filter that is asked about a tool can be compiled.
pub fn can_select(tools: &Vec<McpTool>, filter: &Vec<String>) -> (fits: bool)
    ensures
        fits == selectable(tool_views(tools@), filter@),
{
    let ghost list = tool_views(tools@);
    let mut i: usize = 0;
    while i < tools.len()
        invariant
            i <= tools@.len(),
            list == tool_views(tools@),
            forall|k: int| 0 <= k < i ==> decidable(filter@, (#[trigger] list[k]).name),
        decreases tools@.len() - i,
    {
        assert(list[i as int] == tools@[i as int]@);
        if !can_decide(filter, tools[i].name.as_str()) {
            assert(!decidable(filter@, list[i as int].name));
            return false;
        }
        i += 1;
    }
    true
}

/// One matching pattern is enough, and each is asked: without patterns every tool
/// is let through; a first pattern lets through the names that it matches; and each
/// further one lets through those that it matches besides.
pub proof fn law_any_pattern_lets_through(filter: Seq<String>, pattern: String, name: Seq<char>)
    ensures
        filter.len() == 0 ==> passes(filter, name),
        filter.len() == 0 ==> (passes(filter.push(pattern), name) <==> glob_valid(
            pattern@,
            false,
        ) && glob_match(pattern@, false, name)),
        filter.len() > 0 ==> (passes(filter.push(pattern), name) <==> passes(filter, name) || (
        glob_valid(pattern@, false) && glob_match(pattern@, false, name))),
{
    let more = filter.push(pattern);
    let matched = glob_valid(pattern@, false) && glob_match(pattern@, false, name);
    if matched {
        assert(more[filter.len() as int] == pattern);
        assert(outcome_of(more[filter.len() as int]@, name) == Some(true));
    }
    if passes(more, name) {
        let k = choose|k: int|
            0 <= k < more.len() && outcome_of((#[trigger] more[k])@, name) == Some(true);
        if k < filter.len() {
            assert(filter[k] == more[k]);
        }
    }
    if filter.len() > 0 && passes(filter, name) {
        let k = choose|k: int|
            0 <= k < filter.len() && outcome_of((#[trigger] filter[k])@, name) == Some(true);
        assert(more[k] == filter[k]);
    }
}

/// A filter keeps the tools that it lets through, each as often and in the order
/// in which the server lists them, and no others: a further tool of the list is
/// kept behind the others where it is let through.
pub proof fn law_filter_keeps_tools_in_order(
    list: Seq<McpToolView>,
    tool: McpToolView,
    filter: Seq<String>,
)
    ensures
        admitted(Seq::empty(), filter) == Seq::<McpToolView>::empty(),
        passes(filter, tool.name) ==> admitted(list.push(tool), filter) == admitted(
            list,
            filter,
        ).push(tool),
        !passes(filter, tool.name) ==> admitted(list.push(tool), filter) == admitted(list, filter),
{
    reveal(Seq::filter);
    assert(list.push(tool).drop_last() =~= list);
}

} // verus!
