//! The human-readable report of a run, composed from its log.

use vstd::prelude::*;
use vstd::string::*;
use vstd::utf8::*;

use crate::events::read_line;
use crate::json::{
    distinct_keys, field, json_parse, json_text, lemma_lookup_distinct, number_field, round_trips,
    text_field, Json, JsonView,
};
use crate::text::{
    can_shorten, cuts_cleanly, decimal, decimal_text, lemma_empty, lemma_shows,
    lemma_shows_between, lemma_shows_itself, names, same_text, shorten, shortened, shows,
};

verus! {

/// The events of a list, one by one.
pub open spec fn event_views(events: Seq<Json>) -> Seq<JsonView> {
    events.map_values(|e: Json| e@)
}

/// Whether an event is of this kind and, where asked for, of this iteration and
/// with this id.
pub open spec fn fits(
    event: JsonView,
    kind: Seq<char>,
    iteration: Option<u64>,
    id: Option<Seq<char>>,
) -> bool {
    &&& text_field(event, "kind"@) == Some(kind)
    &&& iteration is Some ==> number_field(event, "iteration"@) == iteration
    &&& id is Some ==> text_field(event, "id"@) == id
}

/// The first event that fits.
pub open spec fn first_event(
    events: Seq<JsonView>,
    kind: Seq<char>,
    iteration: Option<u64>,
    id: Option<Seq<char>>,
) -> Option<JsonView>
    decreases events.len(),
{
    if events.len() == 0 {
        None
    } else if fits(events[0], kind, iteration, id) {
        Some(events[0])
    } else {
        first_event(events.drop_first(), kind, iteration, id)
    }
}

/// A text of an event that may not be there.
pub open spec fn text_or(event: Option<JsonView>, key: Seq<char>, default: Seq<char>) -> Seq<char> {
    match event {
        Some(e) => match text_field(e, key) {
            Some(text) => text,
            None => default,
        },
        None => default,
    }
}

/// A number of an event that may not be there.
pub open spec fn number_or_zero(event: Option<JsonView>, key: Seq<char>) -> u64 {
    match event {
        Some(e) => match number_field(e, key) {
            Some(n) => n,
            None => 0,
        },
        None => 0,
    }
}

/// The highest iteration that an event tells of.
pub open spec fn last_iteration(events: Seq<JsonView>) -> u64
    decreases events.len(),
{
    if events.len() == 0 {
        0
    } else {
        let earlier = last_iteration(events.drop_last());
        match number_field(events.last(), "iteration"@) {
            Some(n) => if n > earlier {
                n
            } else {
                earlier
            },
            None => earlier,
        }
    }
}

/// The reasoning that is shown for an iteration.
pub open spec fn reasoning_of(events: Seq<JsonView>, n: u64) -> Seq<char> {
    text_or(first_event(events, "llm_response"@, Some(n), None), "reasoning"@, Seq::empty())
}

/// What a tool call gave.
pub open spec fn result_of(events: Seq<JsonView>, call: JsonView) -> Seq<char> {
    let id = text_or(Some(call), "id"@, Seq::empty());
    text_or(first_event(events, "tool_result"@, None, Some(id)), "content"@, "(no result)"@)
}

/// The arguments of a tool call as they were logged.
pub open spec fn arguments_of(call: JsonView) -> JsonView {
    match field(call, "arguments"@) {
        Some(arguments) => arguments,
        None => JsonView::Null,
    }
}

/// A tool call with its arguments and its result, cut to length.
pub open spec fn call_entry(name: Seq<char>, arguments: Seq<char>, result: Seq<char>) -> Seq<char> {
    "- `"@ + name + "("@ + arguments + ")` → `"@ + shortened(result, 200) + "`\n"@
}

/// One tool call with its result.
pub open spec fn call_line(events: Seq<JsonView>, call: JsonView) -> Seq<char> {
    call_entry(
        text_or(Some(call), "name"@, "?"@),
        json_text(arguments_of(call)),
        result_of(events, call),
    )
}

/// The tool calls of an iteration among the events `some` of all.
pub open spec fn call_lines(events: Seq<JsonView>, some: Seq<JsonView>, n: u64) -> Seq<char>
    decreases some.len(),
{
    if some.len() == 0 {
        Seq::empty()
    } else if fits(some.last(), "tool_call"@, Some(n), None) {
        call_lines(events, some.drop_last(), n) + call_line(events, some.last())
    } else {
        call_lines(events, some.drop_last(), n)
    }
}

/// The reasoning of an iteration, where there is any.
pub open spec fn reasoning_part(events: Seq<JsonView>, n: u64) -> Seq<char> {
    let reasoning = reasoning_of(events, n);
    if reasoning.len() == 0 {
        Seq::empty()
    } else {
        "*Reasoning:* "@ + shortened(reasoning, 500) + "\n\n"@
    }
}

/// The tool calls of an iteration, or the final answer that it gave.
pub open spec fn action_part(events: Seq<JsonView>, n: u64) -> Seq<char> {
    if first_event(events, "tool_call"@, Some(n), None) is Some {
        "*Tool calls:*\n"@ + call_lines(events, events, n) + "\n"@
    } else {
        match first_event(events, "final_answer"@, Some(n), None) {
            Some(answer) => "*Final answer.* "@ + text_or(Some(answer), "content"@, Seq::empty())
                + "\n\n"@,
            None => Seq::empty(),
        }
    }
}

/// One iteration.
pub open spec fn iteration_part(events: Seq<JsonView>, n: u64) -> Seq<char> {
    "#### Iteration "@ + decimal(n as nat) + "\n\n"@ + reasoning_part(events, n) + action_part(
        events,
        n,
    )
}

/// The iterations up to `n`.
pub open spec fn iteration_parts(events: Seq<JsonView>, n: nat) -> Seq<char>
    decreases n,
{
    if n == 0 {
        Seq::empty()
    } else {
        iteration_parts(events, (n - 1) as nat) + iteration_part(events, n as u64)
    }
}

/// The title and the task.
pub open spec fn title_part(events: Seq<JsonView>) -> Seq<char> {
    let start = first_event(events, "run_start"@, None, None);
    let prompt = text_or(start, "user_prompt"@, Seq::empty());
    let task = if prompt.len() == 0 {
        Seq::empty()
    } else {
        "**Task:** "@ + prompt + "\n\n"@
    };
    "# Bakeoff: "@ + text_or(start, "task"@, "unknown"@) + " — "@ + text_or(
        start,
        "ts"@,
        "unknown"@,
    ) + "\n\n"@ + task + "---\n\n"@
}

/// The model, its endpoint and its tools.
pub open spec fn model_part(events: Seq<JsonView>) -> Seq<char> {
    let start = first_event(events, "run_start"@, None, None);
    let url = text_or(start, "base_url"@, Seq::empty());
    let count = number_or_zero(first_event(events, "tools_registered"@, None, None), "count"@);
    let tools = if url.len() == 0 {
        "**Tools:** "@
    } else {
        "**Endpoint:** `"@ + url + "` · **Tools:** "@
    };
    "## Model: "@ + text_or(start, "model"@, "unknown"@) + "\n\n"@ + tools + decimal(
        count as nat,
    ) + " registered\n\n"@
}

/// The final answer, and the counts of the run.
pub open spec fn answer_part(events: Seq<JsonView>) -> Seq<char> {
    let end = first_event(events, "run_end"@, None, None);
    "### Final answer\n\n"@ + text_or(
        first_event(events, "final_answer"@, None, None),
        "content"@,
        "(no answer)"@,
    ) + "\n\n"@ + "### Reasoning trace ("@ + decimal(last_iteration(events) as nat)
        + " iterations, "@ + decimal(number_or_zero(end, "duration_ms"@) as nat) + " ms, "@
        + decimal(number_or_zero(end, "total_tokens"@) as nat) + " tokens)\n\n"@
}

/// The report of a run that logged these events.
pub open spec fn report_text(events: Seq<JsonView>) -> Seq<char> {
    title_part(events) + model_part(events) + answer_part(events) + iteration_parts(
        events,
        last_iteration(events) as nat,
    ) + "---\n"@
}

/// What is shown of an iteration can be cut to length.
pub open spec fn iteration_cuts(events: Seq<JsonView>, n: u64) -> bool {
    &&& cuts_cleanly(reasoning_of(events, n), 500)
    &&& forall|i: int|
        0 <= i < events.len() && fits(#[trigger] events[i], "tool_call"@, Some(n), None)
            ==> cuts_cleanly(result_of(events, events[i]), 200)
}

/// A report can be composed: no text is cut inside a character.
pub open spec fn composable(events: Seq<JsonView>) -> bool {
    forall|n: u64| 1 <= n <= last_iteration(events) ==> #[trigger] iteration_cuts(events, n)
}

/// Whether an event fits.
fn event_fits(event: &Json, kind: &str, iteration: Option<u64>, id: Option<&str>) -> (fit: bool)
    ensures
        fit == fits(
            event@,
            kind@,
            iteration,
            match id {
                Some(text) => Some(text@),
                None => None,
            },
        ),
{
    let of_kind = match event.text_at("kind") {
        Some(text) => same_text(text, kind),
        None => false,
    };
    let of_iteration = match iteration {
        Some(n) => match event.number_at("iteration") {
            Some(m) => m == n,
            None => false,
        },
        None => true,
    };
    let with_id = match id {
        Some(wanted) => match event.text_at("id") {
            Some(text) => same_text(text, wanted),
            None => false,
        },
        None => true,
    };
    of_kind && of_iteration && with_id
}

/// The first event that fits.
fn find_event<'a>(
    events: &'a Vec<Json>,
    kind: &str,
    iteration: Option<u64>,
    id: Option<&str>,
) -> (found: Option<&'a Json>)
    ensures
        ({
            let wanted = match id {
                Some(text) => Some(text@),
                None => None,
            };
            match first_event(event_views(events@), kind@, iteration, wanted) {
                Some(event) => found matches Some(f) && f@ == event,
                None => found is None,
            }
        }),
{
    let ghost all = event_views(events@);
    let ghost wanted = match id {
        Some(text) => Some(text@),
        None => None,
    };
    let mut i: usize = 0;
    assert(all.skip(0) =~= all);
    while i < events.len()
        invariant
            i <= events@.len(),
            all == event_views(events@),
            wanted == (match id {
                Some(text) => Some(text@),
                None => None,
            }),
            first_event(all, kind@, iteration, wanted) == first_event(
                all.skip(i as int),
                kind@,
                iteration,
                wanted,
            ),
        decreases events@.len() - i,
    {
        assert(all.skip(i as int)[0] == events@[i as int]@);
        assert(all.skip(i as int).drop_first() =~= all.skip(i + 1));
        if event_fits(&events[i], kind, iteration, id) {
            return Some(&events[i]);
        }
        i += 1;
    }
    None
}

/// The first event of a kind.
fn find_kind<'a>(events: &'a Vec<Json>, kind: &str) -> (found: Option<&'a Json>)
    ensures
        match first_event(event_views(events@), kind@, None, None) {
            Some(event) => found matches Some(f) && f@ == event,
            None => found is None,
        },
{
    find_event(events, kind, None, None)
}

/// The first event of a kind in an iteration.
fn find_turn<'a>(events: &'a Vec<Json>, kind: &str, n: u64) -> (found: Option<&'a Json>)
    ensures
        match first_event(event_views(events@), kind@, Some(n), None) {
            Some(event) => found matches Some(f) && f@ == event,
            None => found is None,
        },
{
    find_event(events, kind, Some(n), None)
}

/// What an optional event holds.
pub open spec fn opt_event(event: Option<&Json>) -> Option<JsonView> {
    match event {
        Some(e) => Some(e@),
        None => None,
    }
}

/// A text of an event that may not be there.
fn text_of<'a>(event: Option<&'a Json>, key: &str, default: &'a str) -> (text: &'a str)
    ensures
        text@ == text_or(opt_event(event), key@, default@),
{
    match event {
        Some(e) => match e.text_at(key) {
            Some(text) => text,
            None => default,
        },
        None => default,
    }
}

/// A number of an event that may not be there.
fn number_of(event: Option<&Json>, key: &str) -> (number: u64)
    ensures
        number == number_or_zero(opt_event(event), key@),
{
    match event {
        Some(e) => match e.number_at(key) {
            Some(n) => n,
            None => 0,
        },
        None => 0,
    }
}

/// The highest iteration that an event tells of.
fn find_last_iteration(events: &Vec<Json>) -> (last: u64)
    ensures
        last == last_iteration(event_views(events@)),
{
    let ghost all = event_views(events@);
    let mut last: u64 = 0;
    let mut i: usize = 0;
    while i < events.len()
        invariant
            i <= events@.len(),
            all == event_views(events@),
            last == last_iteration(all.take(i as int)),
        decreases events@.len() - i,
    {
        assert(all.take(i + 1).drop_last() =~= all.take(i as int));
        if let Some(n) = events[i].number_at("iteration") {
            if n > last {
                last = n;
            }
        }
        i += 1;
    }
    assert(all.take(i as int) =~= all);
    last
}

/// The reasoning that is shown for an iteration.
fn find_reasoning<'a>(events: &'a Vec<Json>, n: u64) -> (text: &'a str)
    ensures
        text@ == reasoning_of(event_views(events@), n),
{
    proof {
        reveal_strlit("");
        assert(""@ =~= Seq::empty());
    }
    text_of(find_turn(events, "llm_response", n), "reasoning", "")
}

/// What a tool call gave.
fn find_result<'a>(events: &'a Vec<Json>, call: &Json) -> (text: &'a str)
    ensures
        text@ == result_of(event_views(events@), call@),
{
    proof {
        reveal_strlit("");
        assert(""@ =~= Seq::empty());
    }
    let id = text_of(Some(call), "id", "");
    text_of(find_event(events, "tool_result", None, Some(id)), "content", "(no result)")
}

/// A tool call with its arguments and its result, cut to length.
pub fn format_call(name: &str, arguments: &str, result: &str) -> (text: String)
    requires
        cuts_cleanly(result@, 200),
    ensures
        text@ == call_entry(name@, arguments@, result@),
{
    let mut text = "- `".to_owned();
    text.append(name);
    text.append("(");
    text.append(arguments);
    text.append(")` → `");
    text.append(shorten(result, 200).as_str());
    text.append("`\n");
    text
}

/// One tool call with its result.
fn compose_call(events: &Vec<Json>, call: &Json) -> (text: String)
    requires
        distinct_keys(call@),
        cuts_cleanly(result_of(event_views(events@), call@), 200),
    ensures
        text@ == call_line(event_views(events@), call@),
{
    let arguments = match call.get("arguments") {
        Some(value) => {
            proof {
                lemma_lookup_distinct(call@, "arguments"@);
            }
            value.render()
        },
        None => Json::Null.render(),
    };
    format_call(text_of(Some(call), "name", "?"), arguments.as_str(), find_result(events, call))
}

/// The tool calls of an iteration.
fn compose_calls(events: &Vec<Json>, n: u64) -> (text: String)
    requires
        forall|i: int| 0 <= i < events@.len() ==> distinct_keys((#[trigger] events@[i])@),
        iteration_cuts(event_views(events@), n),
    ensures
        text@ == call_lines(event_views(events@), event_views(events@), n),
{
    let ghost all = event_views(events@);
    let mut text = String::new();
    let mut i: usize = 0;
    while i < events.len()
        invariant
            i <= events@.len(),
            all == event_views(events@),
            forall|k: int| 0 <= k < events@.len() ==> distinct_keys((#[trigger] events@[k])@),
            iteration_cuts(all, n),
            text@ == call_lines(all, all.take(i as int), n),
        decreases events@.len() - i,
    {
        assert(all.take(i + 1).drop_last() =~= all.take(i as int));
        assert(all[i as int] == events@[i as int]@);
        if event_fits(&events[i], "tool_call", Some(n), None) {
            text.append(compose_call(events, &events[i]).as_str());
        }
        i += 1;
    }
    assert(all.take(i as int) =~= all);
    text
}

/// One iteration.
fn compose_iteration(events: &Vec<Json>, n: u64) -> (text: String)
    requires
        forall|i: int| 0 <= i < events@.len() ==> distinct_keys((#[trigger] events@[i])@),
        iteration_cuts(event_views(events@), n),
    ensures
        text@ == iteration_part(event_views(events@), n),
{
    let ghost all = event_views(events@);
    proof {
        reveal_strlit("");
        assert(""@ =~= Seq::empty());
    }
    let mut text = "#### Iteration ".to_owned();
    text.append(decimal_text(n).as_str());
    text.append("\n\n");
    let ghost head = text@;
    let reasoning = find_reasoning(events, n);
    if reasoning.as_bytes().len() > 0 {
        proof {
            lemma_empty(reasoning@);
        }
        text.append("*Reasoning:* ");
        text.append(shorten(reasoning, 500).as_str());
        text.append("\n\n");
    }
    proof {
        lemma_empty(reasoning@);
        assert(text@ =~= head + reasoning_part(all, n));
    }
    let ghost so_far = text@;
    if find_turn(events, "tool_call", n).is_some() {
        text.append("*Tool calls:*\n");
        text.append(compose_calls(events, n).as_str());
        text.append("\n");
    } else {
        if let Some(answer) = find_turn(events, "final_answer", n) {
            text.append("*Final answer.* ");
            text.append(text_of(Some(answer), "content", ""));
            text.append("\n\n");
        }
    }
    assert(text@ =~= so_far + action_part(all, n));
    text
}

/// The title and the task.
fn compose_title(events: &Vec<Json>) -> (text: String)
    ensures
        text@ == title_part(event_views(events@)),
{
    proof {
        reveal_strlit("");
        assert(""@ =~= Seq::empty());
    }
    let start = find_kind(events, "run_start");
    let prompt = text_of(start, "user_prompt", "");
    let mut text = "# Bakeoff: ".to_owned();
    text.append(text_of(start, "task", "unknown"));
    text.append(" — ");
    text.append(text_of(start, "ts", "unknown"));
    text.append("\n\n");
    let ghost head = text@;
    proof {
        lemma_empty(prompt@);
    }
    if prompt.as_bytes().len() > 0 {
        text.append("**Task:** ");
        text.append(prompt);
        text.append("\n\n");
        assert(text@ =~= head + ("**Task:** "@ + prompt@ + "\n\n"@));
    } else {
        assert(text@ =~= head + Seq::<char>::empty());
    }
    text.append("---\n\n");
    text
}

/// The model, its endpoint and its tools.
fn compose_model(events: &Vec<Json>) -> (text: String)
    ensures
        text@ == model_part(event_views(events@)),
{
    proof {
        reveal_strlit("");
        assert(""@ =~= Seq::empty());
    }
    let start = find_kind(events, "run_start");
    let url = text_of(start, "base_url", "");
    let count = number_of(find_kind(events, "tools_registered"), "count");
    let mut text = "## Model: ".to_owned();
    text.append(text_of(start, "model", "unknown"));
    text.append("\n\n");
    let ghost head = text@;
    proof {
        lemma_empty(url@);
    }
    if url.as_bytes().len() > 0 {
        text.append("**Endpoint:** `");
        text.append(url);
        text.append("` · **Tools:** ");
        assert(text@ =~= head + ("**Endpoint:** `"@ + url@ + "` · **Tools:** "@));
    } else {
        text.append("**Tools:** ");
    }
    text.append(decimal_text(count).as_str());
    text.append(" registered\n\n");
    text
}

/// The final answer, and the counts of the run.
fn compose_answer(events: &Vec<Json>) -> (text: String)
    ensures
        text@ == answer_part(event_views(events@)),
{
    let end = find_kind(events, "run_end");
    let mut text = "### Final answer\n\n".to_owned();
    text.append(text_of(find_kind(events, "final_answer"), "content", "(no answer)"));
    text.append("\n\n");
    text.append("### Reasoning trace (");
    text.append(decimal_text(find_last_iteration(events)).as_str());
    text.append(" iterations, ");
    text.append(decimal_text(number_of(end, "duration_ms")).as_str());
    text.append(" ms, ");
    text.append(decimal_text(number_of(end, "total_tokens")).as_str());
    text.append(" tokens)\n\n");
    text
}

/// Whether a report can be composed from these events.
pub fn can_compose(events: &Vec<Json>) -> (clean: bool)
    ensures
        clean == composable(event_views(events@)),
{
    let ghost all = event_views(events@);
    let last = find_last_iteration(events);
    let mut n: u64 = 0;
    while n < last
        invariant
            n <= last,
            all == event_views(events@),
            last == last_iteration(all),
            forall|m: u64| 1 <= m <= n ==> #[trigger] iteration_cuts(all, m),
        decreases last - n,
    {
        n += 1;
        if !can_shorten(find_reasoning(events, n), 500) {
            assert(!iteration_cuts(all, n));
            return false;
        }
        let mut i: usize = 0;
        while i < events.len()
            invariant
                i <= events@.len(),
                1 <= n <= last,
                last == last_iteration(all),
                all == event_views(events@),
                forall|k: int|
                    0 <= k < i && fits(#[trigger] all[k], "tool_call"@, Some(n), None)
                        ==> cuts_cleanly(result_of(all, all[k]), 200),
            decreases events@.len() - i,
        {
            assert(all[i as int] == events@[i as int]@);
            if event_fits(&events[i], "tool_call", Some(n), None) && !can_shorten(
                find_result(events, &events[i]),
                200,
            ) {
                assert(!iteration_cuts(all, n));
                return false;
            }
            i += 1;
        }
        assert(iteration_cuts(all, n));
    }
    true
}

/// Composes the report of a run that logged these events.
pub fn compose_events(events: &Vec<Json>) -> (report: String)
    requires
        forall|i: int| 0 <= i < events@.len() ==> distinct_keys((#[trigger] events@[i])@),
        composable(event_views(events@)),
    ensures
        report@ == report_text(event_views(events@)),
{
    let ghost all = event_views(events@);
    let mut report = compose_title(events);
    report.append(compose_model(events).as_str());
    report.append(compose_answer(events).as_str());
    let ghost head = report@;
    let last = find_last_iteration(events);
    let mut n: u64 = 0;
    assert(report@ =~= head + iteration_parts(all, 0));
    while n < last
        invariant
            n <= last,
            all == event_views(events@),
            last == last_iteration(all),
            forall|i: int| 0 <= i < events@.len() ==> distinct_keys((#[trigger] events@[i])@),
            composable(all),
            report@ == head + iteration_parts(all, n as nat),
        decreases last - n,
    {
        n += 1;
        assert(iteration_cuts(all, n));
        report.append(compose_iteration(events, n).as_str());
        assert(report@ =~= head + iteration_parts(all, n as nat));
    }
    report.append("---\n");
    report
}

/// The events that a log holds: its lines but for those that are no JSON.
pub open spec fn logged_events(lines: Seq<Seq<char>>) -> Seq<JsonView>
    decreases lines.len(),
{
    if lines.len() == 0 {
        Seq::empty()
    } else {
        match json_parse(lines.last()) {
            Some(event) => logged_events(lines.drop_last()).push(event),
            None => logged_events(lines.drop_last()),
        }
    }
}

/// A line that is no JSON, wherever it stands in a log, changes nothing: the
/// lines before and behind it tell the same events without it.
pub proof fn law_unreadable_line_is_skipped(
    before: Seq<Seq<char>>,
    line: Seq<char>,
    behind: Seq<Seq<char>>,
)
    requires
        json_parse(line) is None,
    ensures
        logged_events(before.push(line) + behind) == logged_events(before + behind),
    decreases behind.len(),
{
    if behind.len() == 0 {
        assert(before.push(line) + behind =~= before.push(line));
        assert(before + behind =~= before);
        assert(before.push(line).drop_last() =~= before);
    } else {
        let front = behind.drop_last();
        law_unreadable_line_is_skipped(before, line, front);
        assert((before.push(line) + behind).drop_last() =~= before.push(line) + front);
        assert((before + behind).drop_last() =~= before + front);
    }
}

/// Each line is the text of an event that can be read back.
pub open spec fn lines_tell(lines: Seq<Seq<char>>, events: Seq<JsonView>) -> bool {
    &&& lines.len() == events.len()
    &&& forall|i: int|
        0 <= i < events.len() ==> round_trips(#[trigger] events[i]) && lines[i] == json_text(
            events[i],
        )
}

/// Compose a report from the lines of a run.jsonl. `None` where a text would
/// be cut inside a character. From lines that tell of events, the report is
/// that of these events.
pub fn compose_report(lines: &Vec<String>) -> (report: Option<String>)
    ensures
        report is Some <==> composable(logged_events(names(lines@))),
        report matches Some(text) ==> text@ == report_text(logged_events(names(lines@))),
        forall|events: Seq<JsonView>| #[trigger]
            lines_tell(names(lines@), events) ==> logged_events(names(lines@)) == events,
{
    let ghost all = names(lines@);
    let mut events: Vec<Json> = Vec::new();
    let mut i: usize = 0;
    assert(event_views(events@) =~= logged_events(all.take(0)));
    while i < lines.len()
        invariant
            i <= lines@.len(),
            all == names(lines@),
            event_views(events@) == logged_events(all.take(i as int)),
            forall|k: int| 0 <= k < events@.len() ==> distinct_keys((#[trigger] events@[k])@),
            forall|told: Seq<JsonView>| #[trigger]
                lines_tell(all, told) ==> event_views(events@) == told.take(i as int),
        decreases lines@.len() - i,
    {
        let ghost before = event_views(events@);
        assert(all.take(i + 1).drop_last() =~= all.take(i as int));
        assert(all.take(i + 1).last() == lines@[i as int]@);
        let read = read_line(lines[i].as_str());
        if let Some(event) = read {
            events.push(event);
            assert(event_views(events@) =~= before.push(event@));
        }
        assert forall|told: Seq<JsonView>| #[trigger] lines_tell(all, told) implies event_views(
            events@,
        ) == told.take(i + 1) by {
            assert(round_trips(told[i as int]));
            assert(lines@[i as int]@ == json_text(told[i as int]));
            assert(told.take(i + 1) =~= told.take(i as int).push(told[i as int]));
        }
        i += 1;
    }
    assert(all.take(i as int) =~= all);
    assert forall|told: Seq<JsonView>| #[trigger] lines_tell(all, told) implies logged_events(all)
        == told by {
        assert(told.take(i as int) =~= told);
    }
    if can_compose(&events) {
        Some(compose_events(&events))
    } else {
        None
    }
}

/// An event is looked for by its kind and, where asked for, by its iteration and
/// its id: what is found is such an event and none before it is, and where nothing
/// is found there is none.
pub proof fn law_first_event_is_found(
    events: Seq<JsonView>,
    kind: Seq<char>,
    iteration: Option<u64>,
    id: Option<Seq<char>>,
)
    ensures
        ({
            let wanted = |e: JsonView|
                text_field(e, "kind"@) == Some(kind) && (iteration is None || number_field(
                    e,
                    "iteration"@,
                ) == iteration) && (id is None || text_field(e, "id"@) == id);
            match first_event(events, kind, iteration, id) {
                Some(event) => exists|k: int|
                    {
                        &&& 0 <= k < events.len()
                        &&& #[trigger] events[k] == event
                        &&& wanted(event)
                        &&& forall|j: int| 0 <= j < k ==> !wanted(#[trigger] events[j])
                    },
                None => forall|j: int| 0 <= j < events.len() ==> !wanted(#[trigger] events[j]),
            }
        }),
    decreases events.len(),
{
    if events.len() > 0 {
        let rest = events.drop_first();
        if fits(events[0], kind, iteration, id) {
            assert(events[0] == first_event(events, kind, iteration, id)->0);
        } else {
            law_first_event_is_found(rest, kind, iteration, id);
            match first_event(events, kind, iteration, id) {
                Some(event) => {
                    let k = choose|k: int|
                        {
                            &&& 0 <= k < rest.len()
                            &&& #[trigger] rest[k] == event
                            &&& forall|j: int|
                                0 <= j < k ==> !fits(#[trigger] rest[j], kind, iteration, id)
                        };
                    assert(events[k + 1] == event);
                    assert forall|j: int| 0 <= j < k + 1 implies !fits(
                        #[trigger] events[j],
                        kind,
                        iteration,
                        id,
                    ) by {
                        if j > 0 {
                            assert(events[j] == rest[j - 1]);
                        }
                    }
                },
                None => {
                    assert forall|j: int| 0 <= j < events.len() implies !fits(
                        #[trigger] events[j],
                        kind,
                        iteration,
                        id,
                    ) by {
                        if j > 0 {
                            assert(events[j] == rest[j - 1]);
                        }
                    }
                },
            }
        }
    }
}

/// The iterations of a report are those of its events: none is higher than the
/// last, and the last is one of them, or zero where no event has one.
pub proof fn law_last_iteration_is_the_highest(events: Seq<JsonView>)
    ensures
        forall|k: int|
            0 <= k < events.len() ==> (number_field(
                #[trigger] events[k],
                "iteration"@,
            ) matches Some(n) ==> n <= last_iteration(events)),
        last_iteration(events) == 0 || exists|k: int|
            0 <= k < events.len() && number_field(#[trigger] events[k], "iteration"@) == Some(
                last_iteration(events),
            ),
    decreases events.len(),
{
    if events.len() > 0 {
        let front = events.drop_last();
        law_last_iteration_is_the_highest(front);
        assert forall|k: int| 0 <= k < events.len() implies (number_field(
            #[trigger] events[k],
            "iteration"@,
        ) matches Some(n) ==> n <= last_iteration(events)) by {
            if k < front.len() {
                assert(front[k] == events[k]);
            }
        }
        if last_iteration(events) != 0 {
            if last_iteration(events) == last_iteration(front) {
                let k = choose|k: int|
                    0 <= k < front.len() && number_field(#[trigger] front[k], "iteration"@) == Some(
                        last_iteration(front),
                    );
                assert(events[k] == front[k]);
            } else {
                assert(number_field(events[events.len() - 1], "iteration"@) == Some(
                    last_iteration(events),
                ));
            }
        }
    }
}

/// The tool calls of one iteration among some events, in their order.
pub open spec fn calls_of(events: Seq<JsonView>, n: u64) -> Seq<JsonView> {
    events.filter(
        |e: JsonView|
            text_field(e, "kind"@) == Some("tool_call"@) && number_field(e, "iteration"@) == Some(
                n,
            ),
    )
}

/// Texts one after the other.
pub open spec fn joined(texts: Seq<Seq<char>>) -> Seq<char>
    decreases texts.len(),
{
    if texts.len() == 0 {
        Seq::empty()
    } else {
        joined(texts.drop_last()) + texts.last()
    }
}

/// An iteration lists its tool calls: one line for each call of that iteration, in
/// the order of the log, and none for any other event.
pub proof fn law_iteration_lists_its_calls(
    events: Seq<JsonView>,
    some: Seq<JsonView>,
    n: u64,
)
    ensures
        call_lines(events, some, n) == joined(
            calls_of(some, n).map_values(|call: JsonView| call_line(events, call)),
        ),
    decreases some.len(),
{
    reveal(Seq::filter);
    let line = |call: JsonView| call_line(events, call);
    if some.len() == 0 {
        assert(calls_of(some, n).map_values(line) =~= Seq::empty());
    } else {
        let front = some.drop_last();
        let last = some.last();
        law_iteration_lists_its_calls(events, front, n);
        let lines = calls_of(front, n).map_values(line);
        if text_field(last, "kind"@) == Some("tool_call"@) && number_field(last, "iteration"@)
            == Some(n) {
            assert(calls_of(some, n) =~= calls_of(front, n).push(last));
            assert(calls_of(some, n).map_values(line) =~= lines.push(line(last)));
            assert(lines.push(line(last)).drop_last() =~= lines);
        } else {
            assert(calls_of(some, n) =~= calls_of(front, n));
        }
    }
}

/// How many tool calls the iterations up to `n` have.
pub open spec fn call_total(events: Seq<JsonView>, n: nat) -> nat
    decreases n,
{
    if n == 0 {
        0
    } else {
        call_total(events, (n - 1) as nat) + calls_of(events, n as u64).len()
    }
}

/// The tool calls among some events.
pub open spec fn all_calls(events: Seq<JsonView>) -> Seq<JsonView> {
    events.filter(|e: JsonView| text_field(e, "kind"@) == Some("tool_call"@))
}

/// Every tool call has one line in a report: the calls of all its iterations
/// together are the tool calls of the log, where these have iterations from one on.
pub proof fn law_every_call_has_one_line(events: Seq<JsonView>)
    requires
        forall|k: int|
            0 <= k < events.len() && text_field(#[trigger] events[k], "kind"@) == Some(
                "tool_call"@,
            ) ==> (number_field(events[k], "iteration"@) matches Some(n) && n >= 1),
    ensures
        call_total(events, last_iteration(events) as nat) == all_calls(events).len(),
{
    law_last_iteration_is_the_highest(events);
    lemma_call_total(events, last_iteration(events));
}

proof fn lemma_call_total(events: Seq<JsonView>, last: u64)
    requires
        forall|k: int|
            0 <= k < events.len() && text_field(#[trigger] events[k], "kind"@) == Some(
                "tool_call"@,
            ) ==> (number_field(events[k], "iteration"@) matches Some(n) && 1 <= n <= last),
    ensures
        call_total(events, last as nat) == all_calls(events).len(),
    decreases events.len(),
{
    reveal(Seq::filter);
    if events.len() == 0 {
        lemma_call_total_step(events, Seq::empty(), None, last as nat);
    } else {
        let front = events.drop_last();
        let event = events.last();
        assert forall|k: int|
            0 <= k < front.len() && text_field(#[trigger] front[k], "kind"@) == Some(
                "tool_call"@,
            ) implies (number_field(front[k], "iteration"@) matches Some(n) && 1 <= n
            <= last) by {
            assert(events[k] == front[k]);
        }
        lemma_call_total(front, last);
        assert(event == events[events.len() - 1]);
        if text_field(event, "kind"@) == Some("tool_call"@) {
            lemma_call_total_step(events, front, number_field(event, "iteration"@), last as nat);
        } else {
            lemma_call_total_step(events, front, None, last as nat);
        }
    }
}

/// One more event adds one call to the iteration that it is a call of.
proof fn lemma_call_total_step(
    events: Seq<JsonView>,
    front: Seq<JsonView>,
    iteration: Option<u64>,
    n: nat,
)
    requires
        n <= u64::MAX,
        iteration matches Some(m) ==> m >= 1,
        events.len() == 0 ==> front.len() == 0 && iteration is None,
        events.len() > 0 ==> front == events.drop_last() && iteration == if text_field(
            events.last(),
            "kind"@,
        ) == Some("tool_call"@) {
            number_field(events.last(), "iteration"@)
        } else {
            None
        },
    ensures
        call_total(events, n) == call_total(front, n) + if (iteration matches Some(m) && m <= n) {
            1nat
        } else {
            0
        },
        events.len() == 0 ==> call_total(events, n) == 0,
    decreases n,
{
    reveal(Seq::filter);
    if n > 0 {
        lemma_call_total_step(events, front, iteration, (n - 1) as nat);
    }
}

/// An event that is no result and belongs to another iteration does not change
/// what a report says of an iteration, wherever it stands in the log.
pub proof fn law_other_iterations_do_not_matter(
    before: Seq<JsonView>,
    event: JsonView,
    behind: Seq<JsonView>,
    n: u64,
)
    requires
        text_field(event, "kind"@) != Some("tool_result"@),
        number_field(event, "iteration"@) != Some(n),
    ensures
        iteration_part(before.push(event) + behind, n) == iteration_part(before + behind, n),
{
    let with = before.push(event) + behind;
    let without = before + behind;
    assert forall|kind: Seq<char>| #[trigger]
        first_event(with, kind, Some(n), None) == first_event(without, kind, Some(n), None) by {
        lemma_first_event_without(before, event, behind, kind, Some(n), None);
    }
    assert forall|call: JsonView| #[trigger] call_line(with, call) == call_line(
        without,
        call,
    ) by {
        let id = text_or(Some(call), "id"@, Seq::empty());
        lemma_first_event_without(before, event, behind, "tool_result"@, None, Some(id));
    }
    law_iteration_lists_its_calls(with, with, n);
    law_iteration_lists_its_calls(without, without, n);
    lemma_calls_without(before, event, behind, n);
    let calls = calls_of(without, n);
    assert(calls.map_values(|call: JsonView| call_line(with, call)) =~= calls.map_values(
        |call: JsonView| call_line(without, call),
    ));
}

proof fn lemma_first_event_without(
    before: Seq<JsonView>,
    event: JsonView,
    behind: Seq<JsonView>,
    kind: Seq<char>,
    iteration: Option<u64>,
    id: Option<Seq<char>>,
)
    requires
        !fits(event, kind, iteration, id),
    ensures
        first_event(before.push(event) + behind, kind, iteration, id) == first_event(
            before + behind,
            kind,
            iteration,
            id,
        ),
    decreases before.len(),
{
    let with = before.push(event) + behind;
    let without = before + behind;
    if before.len() == 0 {
        assert(with.drop_first() =~= behind);
        assert(without =~= behind);
        assert(with[0] == event);
    } else {
        let rest = before.drop_first();
        lemma_first_event_without(rest, event, behind, kind, iteration, id);
        assert(with.drop_first() =~= rest.push(event) + behind);
        assert(without.drop_first() =~= rest + behind);
    }
}

proof fn lemma_calls_without(
    before: Seq<JsonView>,
    event: JsonView,
    behind: Seq<JsonView>,
    n: u64,
)
    requires
        text_field(event, "kind"@) != Some("tool_call"@) || number_field(event, "iteration"@)
            != Some(n),
    ensures
        calls_of(before.push(event) + behind, n) == calls_of(before + behind, n),
    decreases behind.len(),
{
    reveal(Seq::filter);
    let with = before.push(event) + behind;
    let without = before + behind;
    if behind.len() == 0 {
        assert(with =~= before.push(event));
        assert(with.drop_last() =~= before);
        assert(without =~= before);
    } else {
        let front = behind.drop_last();
        lemma_calls_without(before, event, front, n);
        assert(with.drop_last() =~= before.push(event) + front);
        assert(without.drop_last() =~= before + front);
    }
}

/// The result of a tool call is the whole text of the first result with its id.
pub proof fn law_result_belongs_to_its_call(
    events: Seq<JsonView>,
    call: JsonView,
    id: Seq<char>,
    k: int,
)
    requires
        text_field(call, "id"@) == Some(id),
        0 <= k < events.len(),
        text_field(events[k], "kind"@) == Some("tool_result"@),
        text_field(events[k], "id"@) == Some(id),
        forall|j: int|
            0 <= j < k ==> text_field(#[trigger] events[j], "kind"@) != Some("tool_result"@)
                || text_field(events[j], "id"@) != Some(id),
    ensures
        text_field(events[k], "content"@) matches Some(content) ==> result_of(events, call)
            == content,
{
    law_first_event_is_found(events, "tool_result"@, None, Some(id));
    let found = first_event(events, "tool_result"@, None, Some(id));
    if found is None {
        assert(!fits(events[k], "tool_result"@, None, Some(id)));
    } else {
        let m = choose|m: int|
            {
                &&& 0 <= m < events.len()
                &&& #[trigger] events[m] == found->0
                &&& fits(found->0, "tool_result"@, None, Some(id))
                &&& forall|j: int|
                    0 <= j < m ==> !fits(#[trigger] events[j], "tool_result"@, None, Some(id))
            };
        assert(m == k) by {
            if m < k {
                assert(text_field(events[m], "kind"@) == Some("tool_result"@));
            } else if k < m {
                assert(!fits(events[k], "tool_result"@, None, Some(id)));
            }
        }
    }
}

/// The line of a tool call shows its name with all of its arguments, and its
/// result, which is cut only where it is longer than 200 bytes.
pub proof fn law_call_line_shows_the_call(events: Seq<JsonView>, call: JsonView)
    ensures
        ({
            let line = call_line(events, call);
            let name = match text_field(call, "name"@) {
                Some(text) => text,
                None => "?"@,
            };
            let arguments = match field(call, "arguments"@) {
                Some(value) => value,
                None => JsonView::Null,
            };
            &&& shows(line, name + "("@ + json_text(arguments) + ")"@)
            &&& shows(line, "`"@ + shortened(result_of(events, call), 200) + "`"@)
        }),
{
    let line = call_line(events, call);
    let name = text_or(Some(call), "name"@, "?"@);
    let called = name + "("@ + json_text(arguments_of(call)) + ")"@;
    let result = "`"@ + shortened(result_of(events, call), 200) + "`"@;
    reveal_strlit("(");
    reveal_strlit(")");
    reveal_strlit("`");
    reveal_strlit(")` → `");
    reveal_strlit("` → ");
    reveal_strlit("`\n");
    reveal_strlit("\n");
    assert(line =~= "- `"@ + called + ("` → "@ + result + "\n"@));
    assert(line =~= ("- `"@ + called + "` → "@) + result + "\n"@);
    lemma_shows_between("- `"@, called, "` → "@ + result + "\n"@, line);
    lemma_shows_between("- `"@ + called + "` → "@, result, "\n"@, line);
}

/// A report shows each of its iterations.
pub proof fn law_report_shows_every_iteration(events: Seq<JsonView>, n: u64)
    requires
        1 <= n <= last_iteration(events),
    ensures
        shows(report_text(events), iteration_part(events, n)),
{
    let all = iteration_parts(events, last_iteration(events) as nat);
    let head = title_part(events) + model_part(events) + answer_part(events);
    lemma_iteration_parts(events, last_iteration(events) as nat, n);
    lemma_shows(head, all, "---\n"@, iteration_part(events, n));
}

/// An iteration shows its number.
pub proof fn law_iteration_shows_its_number(events: Seq<JsonView>, n: u64)
    ensures
        shows(iteration_part(events, n), "Iteration "@ + decimal(n as nat) + "\n"@),
{
    reveal_strlit("#### Iteration ");
    reveal_strlit("Iteration ");
    reveal_strlit("#### ");
    reveal_strlit("\n\n");
    reveal_strlit("\n");
    let part = iteration_part(events, n);
    let heading = "Iteration "@ + decimal(n as nat) + "\n"@;
    let rest = reasoning_part(events, n) + action_part(events, n);
    assert("#### "@ + "Iteration "@ =~= "#### Iteration "@);
    assert("\n"@ + "\n"@ =~= "\n\n"@);
    assert(part =~= "#### "@ + heading + ("\n"@ + rest));
    lemma_shows_between("#### "@, heading, "\n"@ + rest, part);
}

/// An iteration shows the reasoning of its first answer, where there is any, cut
/// only where it is longer than 500 bytes.
pub proof fn law_iteration_shows_its_reasoning(
    events: Seq<JsonView>,
    n: u64,
    reasoning: Seq<char>,
)
    requires
        first_event(events, "llm_response"@, Some(n), None) matches Some(answer) && text_field(
            answer,
            "reasoning"@,
        ) == Some(reasoning),
        reasoning.len() > 0,
    ensures
        shows(iteration_part(events, n), "*Reasoning:* "@ + shortened(reasoning, 500) + "\n\n"@),
{
    let part = iteration_part(events, n);
    let opening = "#### Iteration "@ + decimal(n as nat) + "\n\n"@;
    let shown = "*Reasoning:* "@ + shortened(reasoning, 500) + "\n\n"@;
    assert(reasoning_part(events, n) == shown);
    lemma_shows_between(opening, shown, action_part(events, n), part);
}

/// An iteration with tool calls shows the line of each of them.
pub proof fn law_iteration_shows_its_calls(events: Seq<JsonView>, n: u64)
    requires
        calls_of(events, n).len() > 0,
    ensures
        shows(
            iteration_part(events, n),
            joined(calls_of(events, n).map_values(|call: JsonView| call_line(events, call))),
        ),
{
    lemma_calls_found(events, n);
    law_iteration_lists_its_calls(events, events, n);
    let part = iteration_part(events, n);
    let opening = "#### Iteration "@ + decimal(n as nat) + "\n\n"@ + reasoning_part(events, n);
    let action = action_part(events, n);
    let lines = call_lines(events, events, n);
    lemma_shows_between("*Tool calls:*\n"@, lines, "\n"@, action);
    lemma_shows(opening, action, Seq::empty(), lines);
}

/// An iteration without tool calls shows the final answer that it gave.
pub proof fn law_iteration_shows_its_answer(events: Seq<JsonView>, n: u64, content: Seq<char>)
    requires
        calls_of(events, n).len() == 0,
        first_event(events, "final_answer"@, Some(n), None) matches Some(answer) && text_field(
            answer,
            "content"@,
        ) == Some(content),
    ensures
        shows(iteration_part(events, n), "*Final answer.* "@ + content + "\n\n"@),
{
    lemma_calls_found(events, n);
    let part = iteration_part(events, n);
    let opening = "#### Iteration "@ + decimal(n as nat) + "\n\n"@ + reasoning_part(events, n);
    let action = action_part(events, n);
    lemma_shows_itself(action);
    lemma_shows(opening, action, Seq::empty(), action);
}

/// An iteration has calls exactly where a first one is found.
proof fn lemma_calls_found(events: Seq<JsonView>, n: u64)
    ensures
        calls_of(events, n).len() > 0 <==> first_event(events, "tool_call"@, Some(n), None) is Some,
    decreases events.len(),
{
    reveal(Seq::filter);
    if events.len() > 0 {
        lemma_calls_found(events.drop_last(), n);
        lemma_first_event_push(events.drop_last(), events.last(), n);
        assert(events.drop_last().push(events.last()) =~= events);
    }
}

proof fn lemma_first_event_push(events: Seq<JsonView>, event: JsonView, n: u64)
    ensures
        first_event(events.push(event), "tool_call"@, Some(n), None) is Some <==> first_event(
            events,
            "tool_call"@,
            Some(n),
            None,
        ) is Some || fits(event, "tool_call"@, Some(n), None),
    decreases events.len(),
{
    let after = events.push(event);
    assert(after[0] == if events.len() == 0 {
        event
    } else {
        events[0]
    });
    if events.len() == 0 {
        assert(after.drop_first() =~= Seq::empty());
        assert(first_event(after.drop_first(), "tool_call"@, Some(n), None) is None);
    } else {
        lemma_first_event_push(events.drop_first(), event, n);
        assert(after.drop_first() =~= events.drop_first().push(event));
    }
}

/// The iterations up to one show each of them.
proof fn lemma_iteration_parts(events: Seq<JsonView>, last: nat, n: u64)
    requires
        1 <= n <= last <= u64::MAX,
    ensures
        shows(iteration_parts(events, last), iteration_part(events, n)),
    decreases last,
{
    let earlier = iteration_parts(events, (last - 1) as nat);
    let part = iteration_part(events, n);
    lemma_shows_itself(part);
    if n == last {
        lemma_shows(earlier, part, Seq::empty(), part);
    } else {
        lemma_iteration_parts(events, (last - 1) as nat, n);
        lemma_shows(Seq::empty(), earlier, iteration_part(events, last as u64), part);
    }
}

/// The parts of a report are shown by the whole.
proof fn lemma_report_parts(events: Seq<JsonView>, piece: Seq<char>)
    ensures
        shows(title_part(events), piece) ==> shows(report_text(events), piece),
        shows(model_part(events), piece) ==> shows(report_text(events), piece),
        shows(answer_part(events), piece) ==> shows(report_text(events), piece),
{
    let report = report_text(events);
    let title = title_part(events);
    let model = model_part(events);
    let answer = answer_part(events);
    let rest = iteration_parts(events, last_iteration(events) as nat) + "---\n"@;
    assert(report =~= title + (model + answer + rest));
    assert(report =~= title + model + (answer + rest));
    assert(report =~= (title + model) + answer + rest);
    if shows(title, piece) {
        lemma_shows(Seq::empty(), title, model + answer + rest, piece);
    }
    if shows(model, piece) {
        lemma_shows(title, model, answer + rest, piece);
    }
    if shows(answer, piece) {
        lemma_shows(title + model, answer, rest, piece);
    }
}

/// A report shows the name of the task and the time at which the run started.
pub proof fn law_report_shows_the_task(
    events: Seq<JsonView>,
    start: JsonView,
    task: Seq<char>,
    ts: Seq<char>,
)
    requires
        first_event(events, "run_start"@, None, None) == Some(start),
        text_field(start, "task"@) == Some(task),
        text_field(start, "ts"@) == Some(ts),
    ensures
        shows(report_text(events), task + " — "@ + ts + "\n\n"@),
{
    let title = title_part(events);
    let titled = task + " — "@ + ts + "\n\n"@;
    let prompt = text_or(Some(start), "user_prompt"@, Seq::empty());
    let given = if prompt.len() == 0 {
        Seq::empty()
    } else {
        "**Task:** "@ + prompt + "\n\n"@
    };
    assert(title =~= "# Bakeoff: "@ + titled + (given + "---\n\n"@));
    lemma_shows_between("# Bakeoff: "@, titled, given + "---\n\n"@, title);
    lemma_report_parts(events, titled);
}

/// A report shows the whole prompt of the user.
pub proof fn law_report_shows_the_prompt(
    events: Seq<JsonView>,
    start: JsonView,
    prompt: Seq<char>,
)
    requires
        first_event(events, "run_start"@, None, None) == Some(start),
        text_field(start, "user_prompt"@) == Some(prompt),
        prompt.len() > 0,
    ensures
        shows(report_text(events), "**Task:** "@ + prompt + "\n\n"@),
{
    let title = title_part(events);
    let given = "**Task:** "@ + prompt + "\n\n"@;
    let left = "# Bakeoff: "@ + text_or(Some(start), "task"@, "unknown"@) + " — "@ + text_or(
        Some(start),
        "ts"@,
        "unknown"@,
    ) + "\n\n"@;
    lemma_shows_between(left, given, "---\n\n"@, title);
    lemma_report_parts(events, given);
}

/// A report shows the model and, where it is told, the endpoint.
pub proof fn law_report_shows_the_model(
    events: Seq<JsonView>,
    start: JsonView,
    model: Seq<char>,
    url: Seq<char>,
)
    requires
        first_event(events, "run_start"@, None, None) == Some(start),
        text_field(start, "model"@) == Some(model),
        text_field(start, "base_url"@) == Some(url),
    ensures
        shows(report_text(events), "## Model: "@ + model + "\n\n"@),
        url.len() > 0 ==> shows(report_text(events), "**Endpoint:** `"@ + url + "` · "@),
{
    let part = model_part(events);
    let named = "## Model: "@ + model + "\n\n"@;
    let tools = first_event(events, "tools_registered"@, None, None);
    let count = decimal(number_or_zero(tools, "count"@) as nat) + " registered\n\n"@;
    if url.len() == 0 {
        assert(part =~= Seq::empty() + named + ("**Tools:** "@ + count));
        lemma_shows_between(Seq::empty(), named, "**Tools:** "@ + count, part);
    } else {
        reveal_strlit("` · **Tools:** ");
        reveal_strlit("` · ");
        reveal_strlit("**Tools:** ");
        assert("` · "@ + "**Tools:** "@ =~= "` · **Tools:** "@);
        let endpoint = "**Endpoint:** `"@ + url + "` · "@;
        let rest = "**Tools:** "@ + count;
        assert(part =~= named + endpoint + rest);
        lemma_shows_between(named, endpoint, rest, part);
        assert(part =~= Seq::empty() + named + (endpoint + rest));
        lemma_shows_between(Seq::empty(), named, endpoint + rest, part);
        lemma_report_parts(events, endpoint);
    }
    lemma_report_parts(events, named);
}

/// A report shows how many tools were offered.
pub proof fn law_report_shows_the_tools(events: Seq<JsonView>, tools: JsonView, count: u64)
    requires
        first_event(events, "tools_registered"@, None, None) == Some(tools),
        number_field(tools, "count"@) == Some(count),
    ensures
        shows(report_text(events), decimal(count as nat) + " registered\n\n"@),
{
    let part = model_part(events);
    let start = first_event(events, "run_start"@, None, None);
    let url = text_or(start, "base_url"@, Seq::empty());
    let offered = decimal(count as nat) + " registered\n\n"@;
    let left = "## Model: "@ + text_or(start, "model"@, "unknown"@) + "\n\n"@ + if url.len()
        == 0 {
        "**Tools:** "@
    } else {
        "**Endpoint:** `"@ + url + "` · **Tools:** "@
    };
    assert(part =~= left + offered + Seq::empty());
    lemma_shows_between(left, offered, Seq::empty(), part);
    lemma_report_parts(events, offered);
}

/// A report shows the whole final answer, or says that there is none.
pub proof fn law_report_shows_the_answer(events: Seq<JsonView>, content: Seq<char>)
    requires
        match first_event(events, "final_answer"@, None, None) {
            Some(answer) => text_field(answer, "content"@) == Some(content),
            None => content == "(no answer)"@,
        },
    ensures
        shows(report_text(events), "### Final answer\n\n"@ + content + "\n\n"@),
{
    let part = answer_part(events);
    let end = first_event(events, "run_end"@, None, None);
    let told = "### Final answer\n\n"@ + content + "\n\n"@;
    let rest = "### Reasoning trace ("@ + decimal(last_iteration(events) as nat)
        + " iterations, "@ + decimal(number_or_zero(end, "duration_ms"@) as nat) + " ms, "@
        + decimal(number_or_zero(end, "total_tokens"@) as nat) + " tokens)\n\n"@;
    assert(part =~= Seq::empty() + told + rest);
    lemma_shows_between(Seq::empty(), told, rest, part);
    lemma_report_parts(events, told);
}

/// A report shows how many iterations the run took, and how long and how many
/// tokens according to its end.
pub proof fn law_report_shows_the_counts(
    events: Seq<JsonView>,
    end: JsonView,
    duration_ms: u64,
    total_tokens: u64,
)
    requires
        first_event(events, "run_end"@, None, None) == Some(end),
        number_field(end, "duration_ms"@) == Some(duration_ms),
        number_field(end, "total_tokens"@) == Some(total_tokens),
    ensures
        shows(
            report_text(events),
            decimal(last_iteration(events) as nat) + " iterations, "@ + decimal(
                duration_ms as nat,
            ) + " ms, "@ + decimal(total_tokens as nat) + " tokens)\n\n"@,
        ),
{
    let part = answer_part(events);
    let counts = decimal(last_iteration(events) as nat) + " iterations, "@ + decimal(
        duration_ms as nat,
    ) + " ms, "@ + decimal(total_tokens as nat) + " tokens)\n\n"@;
    let left = "### Final answer\n\n"@ + text_or(
        first_event(events, "final_answer"@, None, None),
        "content"@,
        "(no answer)"@,
    ) + "\n\n"@ + "### Reasoning trace ("@;
    assert(part =~= left + counts + Seq::empty());
    lemma_shows_between(left, counts, Seq::empty(), part);
    lemma_report_parts(events, counts);
}

/// A report can be composed wherever the texts that it may have to cut are short
/// or of plain characters: no reasoning is longer than 500 bytes and no result
/// longer than 200, or they are ASCII.
pub proof fn law_plain_log_is_composable(events: Seq<JsonView>)
    requires
        forall|k: int|
            0 <= k < events.len() ==> (text_field(
                #[trigger] events[k],
                "reasoning"@,
            ) matches Some(text) ==> encode_utf8(text).len() <= 500 || is_ascii_chars(text)),
        forall|k: int|
            0 <= k < events.len() ==> (text_field(
                #[trigger] events[k],
                "content"@,
            ) matches Some(text) ==> encode_utf8(text).len() <= 200 || is_ascii_chars(text)),
    ensures
        composable(events),
{
    assert forall|n: u64| 1 <= n <= last_iteration(events) implies #[trigger] iteration_cuts(
        events,
        n,
    ) by {
        law_first_event_is_found(events, "llm_response"@, Some(n), None);
        assert(is_ascii_chars(Seq::<char>::empty()));
        lemma_ascii_cuts(reasoning_of(events, n), 500);
        assert forall|i: int|
            0 <= i < events.len() && fits(
                #[trigger] events[i],
                "tool_call"@,
                Some(n),
                None,
            ) implies cuts_cleanly(result_of(events, events[i]), 200) by {
            let id = text_or(Some(events[i]), "id"@, Seq::empty());
            law_first_event_is_found(events, "tool_result"@, None, Some(id));
            reveal_strlit("(no result)");
            assert(is_ascii_chars("(no result)"@));
            lemma_ascii_cuts(result_of(events, events[i]), 200);
        }
    }
}

/// A text of ASCII characters can be cut anywhere.
proof fn lemma_ascii_cuts(text: Seq<char>, limit: nat)
    ensures
        is_ascii_chars(text) || encode_utf8(text).len() <= limit ==> cuts_cleanly(text, limit),
{
    let bytes = encode_utf8(text);
    if is_ascii_chars(text) && bytes.len() > limit {
        is_ascii_chars_encode_utf8(text);
        is_ascii_chars_nat_bound(text);
        encode_utf8_valid_utf8(text);
        assert(text[limit as int] as u8 == bytes[limit as int]);
        assert(bytes[limit as int] < 128);
        is_char_boundary_iff_not_is_continuation_byte(bytes, limit as int);
    }
}

/// A log tells the events of its lines, one after the other: a line that is JSON
/// tells what it says, and two parts of a log tell what the one and then the other
/// tells.
pub proof fn law_log_tells_its_lines(
    first: Seq<Seq<char>>,
    then: Seq<Seq<char>>,
    line: Seq<char>,
)
    ensures
        logged_events(first + then) == logged_events(first) + logged_events(then),
        json_parse(line) matches Some(event) ==> logged_events(seq![line]) == seq![event],
    decreases then.len(),
{
    let one = seq![line];
    assert(one.drop_last() =~= Seq::empty());
    assert(one.last() == line);
    assert(logged_events(one.drop_last()) =~= Seq::empty());
    if let Some(event) = json_parse(line) {
        assert(logged_events(one) =~= seq![event]);
    }
    if then.len() == 0 {
        assert(first + then =~= first);
        assert(logged_events(first) + logged_events(then) =~= logged_events(first));
    } else {
        law_log_tells_its_lines(first, then.drop_last(), line);
        assert((first + then).drop_last() =~= first + then.drop_last());
        assert(logged_events(first + then) =~= logged_events(first) + logged_events(then));
    }
}

/// The iterations of a report follow each other: those up to one, and then the
/// next, stand at the beginning of those up to any later one.
pub proof fn law_iterations_are_in_order(events: Seq<JsonView>, n: nat, last: nat)
    requires
        n < last,
    ensures
        (iteration_parts(events, n) + iteration_part(events, (n + 1) as u64)).is_prefix_of(
            iteration_parts(events, last),
        ),
        iteration_parts(events, 0).len() == 0,
    decreases last,
{
    let first = iteration_parts(events, n) + iteration_part(events, (n + 1) as u64);
    let all = iteration_parts(events, last);
    if n + 1 < last {
        let earlier = iteration_parts(events, (last - 1) as nat);
        law_iterations_are_in_order(events, n, (last - 1) as nat);
        assert forall|i: int| 0 <= i < first.len() implies first[i] == all[i] by {
            assert(earlier.subrange(0, first.len() as int)[i] == earlier[i]);
        }
    }
    assert(first =~= all.subrange(0, first.len() as int));
}

/// An iteration of which nothing is told has its heading alone.
pub proof fn law_untold_iteration_is_bare(events: Seq<JsonView>, n: u64)
    requires
        calls_of(events, n).len() == 0,
        first_event(events, "final_answer"@, Some(n), None) is None,
        first_event(events, "llm_response"@, Some(n), None) matches Some(answer) ==> (text_field(
            answer,
            "reasoning"@,
        ) matches Some(reasoning) ==> reasoning.len() == 0),
    ensures
        iteration_part(events, n) == "#### Iteration "@ + decimal(n as nat) + "\n\n"@,
{
    lemma_calls_found(events, n);
    assert(iteration_part(events, n) =~= "#### Iteration "@ + decimal(n as nat) + "\n\n"@);
}

/// In an iteration with tool calls, these are shown and no final answer: one in the
/// log changes nothing there.
pub proof fn law_calls_come_before_an_answer(
    before: Seq<JsonView>,
    answer: JsonView,
    behind: Seq<JsonView>,
    n: u64,
)
    requires
        text_field(answer, "kind"@) == Some("final_answer"@),
        calls_of(before + behind, n).len() > 0,
    ensures
        iteration_part(before.push(answer) + behind, n) == iteration_part(before + behind, n),
{
    reveal_strlit("final_answer");
    reveal_strlit("tool_call");
    reveal_strlit("tool_result");
    reveal_strlit("llm_response");
    assert("final_answer"@.len() != "tool_call"@.len());
    assert("final_answer"@.len() != "tool_result"@.len());
    assert("final_answer"@[0] != "llm_response"@[0]);
    let with = before.push(answer) + behind;
    let without = before + behind;
    lemma_first_event_without(before, answer, behind, "llm_response"@, Some(n), None);
    lemma_first_event_without(before, answer, behind, "tool_call"@, Some(n), None);
    assert forall|call: JsonView| #[trigger] call_line(with, call) == call_line(
        without,
        call,
    ) by {
        let id = text_or(Some(call), "id"@, Seq::empty());
        lemma_first_event_without(before, answer, behind, "tool_result"@, None, Some(id));
    }
    law_iteration_lists_its_calls(with, with, n);
    law_iteration_lists_its_calls(without, without, n);
    lemma_calls_without(before, answer, behind, n);
    lemma_calls_found(without, n);
    let calls = calls_of(without, n);
    assert(calls.map_values(|call: JsonView| call_line(with, call)) =~= calls.map_values(
        |call: JsonView| call_line(without, call),
    ));
}

} // verus!
