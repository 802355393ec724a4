//! Markdown transcripts of runs, collected event by event.

use vstd::prelude::*;
use vstd::string::*;

use crate::clock::{pattern_of, utc_format, TimeFormat, UtcTime};
use crate::events::{
    final_answer_log, law_completed_run_tells, law_final_answer_tells, law_request_tells,
    law_tool_call_tells, law_tool_result_tells, llm_request_log, run_completed_log, tool_call_log,
    tool_result_log,
};
use crate::json::{flag_field, json_parse, number_field, text_field, Json, JsonView};
use crate::mcp::opt_text;
use crate::text::{
    decimal, decimal_text, first_chars, lemma_empty, lemma_shows, lemma_shows_between,
    lemma_shows_itself, same_text, shows,
};

pub use crate::slugs::{slug_from_tool_name, slug_from_url};

use crate::slugs::{tool_slug, url_slug};

verus! {

/// Collects events during a run for a transcript on completion.
#[derive(Debug)]
pub struct TranscriptCollector {
    /// Where transcripts are kept.
    pub dir: String,
    pub model: String,
    pub run_id: String,
    pub user_prompt: String,
    pub iterations: Vec<IterationRecord>,
    pub current_iteration: u32,
    pub final_answer: Option<String>,
    pub duration_ms: u64,
    pub total_tokens: u32,
    /// The short name of the transcript, once a tool was called.
    pub slug: Option<String>,
}

/// One iteration of a run.
#[derive(Debug)]
pub struct IterationRecord {
    pub number: u32,
    pub reasoning: Option<String>,
    pub tool_calls: Vec<ToolCallRecord>,
    pub content: Option<String>,
}

/// One tool call of an iteration.
#[derive(Debug)]
pub struct ToolCallRecord {
    pub name: String,
    pub args: String,
    pub ok: bool,
    pub content_preview: String,
}

/// The mathematical form of a [`ToolCallRecord`].
#[verifier::ext_equal]
pub struct CallRecordView {
    pub name: Seq<char>,
    pub args: Seq<char>,
    pub ok: bool,
    pub content_preview: Seq<char>,
}

impl View for ToolCallRecord {
    type V = CallRecordView;

    open spec fn view(&self) -> CallRecordView {
        CallRecordView {
            name: self.name@,
            args: self.args@,
            ok: self.ok,
            content_preview: self.content_preview@,
        }
    }
}

/// The mathematical form of an [`IterationRecord`].
#[verifier::ext_equal]
pub struct IterationView {
    pub number: u32,
    pub reasoning: Option<Seq<char>>,
    pub tool_calls: Seq<CallRecordView>,
    pub content: Option<Seq<char>>,
}

impl View for IterationRecord {
    type V = IterationView;

    open spec fn view(&self) -> IterationView {
        IterationView {
            number: self.number,
            reasoning: opt_text(self.reasoning),
            tool_calls: self.tool_calls@.map_values(|c: ToolCallRecord| c@),
            content: opt_text(self.content),
        }
    }
}

/// The mathematical form of a [`TranscriptCollector`].
#[verifier::ext_equal]
pub struct CollectorView {
    pub dir: Seq<char>,
    pub model: Seq<char>,
    pub run_id: Seq<char>,
    pub user_prompt: Seq<char>,
    pub iterations: Seq<IterationView>,
    pub current_iteration: u32,
    pub final_answer: Option<Seq<char>>,
    pub duration_ms: u64,
    pub total_tokens: u32,
    pub slug: Option<Seq<char>>,
}

impl View for TranscriptCollector {
    type V = CollectorView;

    open spec fn view(&self) -> CollectorView {
        CollectorView {
            dir: self.dir@,
            model: self.model@,
            run_id: self.run_id@,
            user_prompt: self.user_prompt@,
            iterations: self.iterations@.map_values(|i: IterationRecord| i@),
            current_iteration: self.current_iteration,
            final_answer: opt_text(self.final_answer),
            duration_ms: self.duration_ms,
            total_tokens: self.total_tokens,
            slug: opt_text(self.slug),
        }
    }
}

/// A text of an event, or a default.
pub open spec fn text_or(data: JsonView, key: Seq<char>, default: Seq<char>) -> Seq<char> {
    match text_field(data, key) {
        Some(text) => text,
        None => default,
    }
}

/// A number of an event, or zero.
pub open spec fn number_or_zero(data: JsonView, key: Seq<char>) -> u64 {
    match number_field(data, key) {
        Some(n) => n,
        None => 0,
    }
}

/// The lower half of a number.
pub open spec fn low_half(n: u64) -> u32 {
    (n % 0x1_0000_0000) as u32
}

/// The address that a call opens, where its arguments are JSON and name one.
pub open spec fn opened_url(args: Seq<char>) -> Option<Seq<char>> {
    match json_parse(args) {
        Some(json) => text_field(json, "url"@),
        None => None,
    }
}

/// The short name after a tool call. The first call decides: one that opens an
/// address by the address, any other by its name.
pub open spec fn chosen_slug(
    slug: Option<Seq<char>>,
    name: Seq<char>,
    url: Option<Seq<char>>,
) -> Option<Seq<char>> {
    match slug {
        Some(s) => Some(s),
        None => if name == "browser_navigate"@ && url is Some {
            Some(url_slug(url->0))
        } else {
            Some(tool_slug(name))
        },
    }
}

/// A text cut after a number of characters.
pub open spec fn preview(text: Seq<char>, limit: nat) -> Seq<char> {
    if text.len() <= limit {
        text
    } else {
        text.take(limit as int)
    }
}

/// A new iteration.
pub open spec fn new_iteration(number: u32) -> IterationView {
    IterationView { number, reasoning: None, tool_calls: Seq::empty(), content: None }
}

/// The last iteration replaced, where there is one.
pub open spec fn with_last(c: CollectorView, last: IterationView) -> CollectorView {
    if c.iterations.len() == 0 {
        c
    } else {
        CollectorView { iterations: c.iterations.drop_last().push(last), ..c }
    }
}

/// An iteration with what the model said in it.
pub open spec fn told(iteration: IterationView, data: JsonView) -> IterationView {
    IterationView {
        reasoning: text_field(data, "reasoning"@),
        content: text_field(data, "content"@),
        ..iteration
    }
}

/// A call as it is first recorded.
pub open spec fn new_call(name: Seq<char>, args: Seq<char>) -> CallRecordView {
    CallRecordView { name, args, ok: true, content_preview: Seq::empty() }
}

/// An iteration with one call more.
pub open spec fn called(iteration: IterationView, call: CallRecordView) -> IterationView {
    IterationView { tool_calls: iteration.tool_calls.push(call), ..iteration }
}

/// An iteration with the result of its last call, where there is one.
pub open spec fn resulted(iteration: IterationView, ok: bool, shown: Seq<char>) -> IterationView {
    if iteration.tool_calls.len() == 0 {
        iteration
    } else {
        let last = iteration.tool_calls.last();
        IterationView {
            tool_calls: iteration.tool_calls.drop_last().push(
                CallRecordView { ok, content_preview: shown, ..last },
            ),
            ..iteration
        }
    }
}

/// The collector after an event.
pub open spec fn fed(c: CollectorView, kind: Seq<char>, data: JsonView) -> CollectorView {
    if kind == "run_start"@ {
        CollectorView {
            model: text_or(data, "model"@, Seq::empty()),
            run_id: text_or(data, "run_id"@, Seq::empty()),
            user_prompt: text_or(data, "user_prompt"@, Seq::empty()),
            ..c
        }
    } else if kind == "llm_request"@ {
        let number = low_half(number_or_zero(data, "iteration"@));
        CollectorView {
            current_iteration: number,
            iterations: c.iterations.push(new_iteration(number)),
            ..c
        }
    } else if kind == "llm_response"@ {
        with_last(c, told(c.iterations.last(), data))
    } else if kind == "tool_call"@ {
        let name = text_or(data, "name"@, Seq::empty());
        let args = text_or(data, "arguments"@, "{}"@);
        let named = CollectorView { slug: chosen_slug(c.slug, name, opened_url(args)), ..c };
        with_last(named, called(c.iterations.last(), new_call(name, args)))
    } else if kind == "tool_result"@ {
        let ok = flag_field(data, "ok"@) == Some(true);
        let shown = preview(text_or(data, "content"@, Seq::empty()), 200);
        with_last(c, resulted(c.iterations.last(), ok, shown))
    } else if kind == "final_answer"@ {
        CollectorView { final_answer: text_field(data, "content"@), ..c }
    } else if kind == "run_end"@ {
        CollectorView {
            duration_ms: number_or_zero(data, "duration_ms"@),
            total_tokens: low_half(number_or_zero(data, "total_tokens"@)),
            ..c
        }
    } else {
        c
    }
}

/// A collector that has seen nothing.
pub open spec fn empty_collector(dir: Seq<char>) -> CollectorView {
    CollectorView {
        dir,
        model: Seq::empty(),
        run_id: Seq::empty(),
        user_prompt: Seq::empty(),
        iterations: Seq::empty(),
        current_iteration: 0,
        final_answer: None,
        duration_ms: 0,
        total_tokens: 0,
        slug: None,
    }
}

/// A text of an event, or a default.
fn text_at_or(data: &Json, key: &str, default: &str) -> (text: String)
    ensures
        text@ == text_or(data@, key@, default@),
{
    match data.text_at(key) {
        Some(text) => text.to_owned(),
        None => default.to_owned(),
    }
}

/// A text of an event, where there is one.
fn opt_text_at(data: &Json, key: &str) -> (text: Option<String>)
    ensures
        opt_text(text) == text_field(data@, key@),
{
    match data.text_at(key) {
        Some(text) => Some(text.to_owned()),
        None => None,
    }
}

/// A number of an event, or zero.
fn number_at_or_zero(data: &Json, key: &str) -> (number: u64)
    ensures
        number == number_or_zero(data@, key@),
{
    match data.number_at(key) {
        Some(n) => n,
        None => 0,
    }
}

/// The address that a call opens.
fn find_url(args: &str) -> (url: Option<String>)
    ensures
        opt_text(url) == opened_url(args@),
{
    match Json::parse(args) {
        Some(json) => opt_text_at(&json, "url"),
        None => None,
    }
}

/// The short name after a tool call with these arguments read.
pub fn choose_slug(slug: Option<String>, name: &str, url: Option<String>) -> (chosen: Option<
    String,
>)
    ensures
        opt_text(chosen) == chosen_slug(opt_text(slug), name@, opt_text(url)),
{
    match slug {
        Some(s) => Some(s),
        None => match url {
            Some(u) => if same_text(name, "browser_navigate") {
                Some(slug_from_url(u.as_str()))
            } else {
                Some(slug_from_tool_name(name))
            },
            None => Some(slug_from_tool_name(name)),
        },
    }
}

impl TranscriptCollector {
    /// A collector for transcripts under a directory, `/opt/cpc/transcripts`
    /// where none is given.
    pub fn new(dir: Option<String>) -> (collector: TranscriptCollector)
        ensures
            collector@ == empty_collector(
                match opt_text(dir) {
                    Some(text) => text,
                    None => "/opt/cpc/transcripts"@,
                },
            ),
    {
        let dir = match dir {
            Some(text) => text,
            None => "/opt/cpc/transcripts".to_owned(),
        };
        let collector = TranscriptCollector {
            dir,
            model: String::new(),
            run_id: String::new(),
            user_prompt: String::new(),
            iterations: Vec::new(),
            current_iteration: 0,
            final_answer: None,
            duration_ms: 0,
            total_tokens: 0,
            slug: None,
        };
        assert(collector@.iterations =~= Seq::empty());
        collector
    }

    /// Feed an event into the collector. Call this for every event during the
    /// run.
    pub fn feed(&mut self, kind: &str, data: &Json)
        ensures
            final(self)@ == fed(old(self)@, kind@, data@),
    {
        let ghost before = self@;
        proof {
            reveal_strlit("");
            assert(""@ =~= Seq::empty());
        }
        if same_text(kind, "run_start") {
            self.model = text_at_or(data, "model", "");
            self.run_id = text_at_or(data, "run_id", "");
            self.user_prompt = text_at_or(data, "user_prompt", "");
        } else if same_text(kind, "llm_request") {
            let number: u32 = (number_at_or_zero(data, "iteration") % 0x1_0000_0000) as u32;
            self.current_iteration = number;
            let record = IterationRecord {
                number,
                reasoning: None,
                tool_calls: Vec::new(),
                content: None,
            };
            assert(record@ =~= new_iteration(number));
            self.iterations.push(record);
            assert(self@.iterations =~= before.iterations.push(new_iteration(number)));
        } else if same_text(kind, "llm_response") {
            if let Some(mut last) = self.iterations.pop() {
                last.reasoning = opt_text_at(data, "reasoning");
                last.content = opt_text_at(data, "content");
                assert(last@ =~= told(before.iterations.last(), data@));
                self.iterations.push(last);
                assert(self@.iterations =~= fed(before, kind@, data@).iterations);
            }
        } else if same_text(kind, "tool_call") {
            let name = text_at_or(data, "name", "");
            let args = text_at_or(data, "arguments", "{}");
            let url = find_url(args.as_str());
            let slug = self.slug.take();
            self.slug = choose_slug(slug, name.as_str(), url);
            if let Some(mut last) = self.iterations.pop() {
                let ghost calls = last@.tool_calls;
                let call = ToolCallRecord { name, args, ok: true, content_preview: String::new() };
                assert(call@ =~= new_call(name@, args@));
                last.tool_calls.push(call);
                assert(last@.tool_calls =~= calls.push(new_call(name@, args@)));
                assert(last@ =~= called(before.iterations.last(), new_call(name@, args@)));
                self.iterations.push(last);
            }
            assert(self@.iterations =~= fed(before, kind@, data@).iterations);
        } else if same_text(kind, "tool_result") {
            let ok = match data.flag_at("ok") {
                Some(flag) => flag,
                None => false,
            };
            let shown = first_chars(text_at_or(data, "content", "").as_str(), 200);
            if let Some(mut last) = self.iterations.pop() {
                let ghost iteration = last@;
                if let Some(mut call) = last.tool_calls.pop() {
                    call.ok = ok;
                    call.content_preview = shown;
                    last.tool_calls.push(call);
                    assert(last@.tool_calls =~= resulted(iteration, ok, shown@).tool_calls);
                }
                assert(last@ =~= resulted(iteration, ok, shown@));
                self.iterations.push(last);
            }
            assert(self@.iterations =~= fed(before, kind@, data@).iterations);
        } else if same_text(kind, "final_answer") {
            self.final_answer = opt_text_at(data, "content");
        } else if same_text(kind, "run_end") {
            self.duration_ms = number_at_or_zero(data, "duration_ms");
            self.total_tokens = (number_at_or_zero(data, "total_tokens") % 0x1_0000_0000) as u32;
        }
    }
}

/// One tool call with its result.
pub open spec fn call_part(call: CallRecordView) -> Seq<char> {
    "- `tool_call`: `"@ + call.name + "("@ + call.args + ")`\n"@ + "- `tool_result`: ok="@ + (
    if call.ok {
        "true"@
    } else {
        "false"@
    }) + ", content_preview=\""@ + call.content_preview + "\"\n\n"@
}

/// The tool calls of an iteration.
pub open spec fn call_parts(calls: Seq<CallRecordView>) -> Seq<char>
    decreases calls.len(),
{
    if calls.len() == 0 {
        Seq::empty()
    } else {
        call_parts(calls.drop_last()) + call_part(calls.last())
    }
}

/// What the model said in an iteration without tool calls.
pub open spec fn content_part(iteration: IterationView) -> Seq<char> {
    match iteration.content {
        Some(content) => if content.len() > 0 && iteration.tool_calls.len() == 0 {
            "*Content:* "@ + content + "\n\n"@
        } else {
            Seq::empty()
        },
        None => Seq::empty(),
    }
}

/// One iteration.
pub open spec fn iteration_part(iteration: IterationView) -> Seq<char> {
    let reasoning = match iteration.reasoning {
        Some(text) => text,
        None => "(none)"@,
    };
    "### Iteration "@ + decimal(iteration.number as nat) + "\n"@ + "*Reasoning:* "@ + reasoning
        + "\n\n"@ + call_parts(iteration.tool_calls) + content_part(iteration)
}

/// All iterations.
pub open spec fn iteration_parts(iterations: Seq<IterationView>) -> Seq<char>
    decreases iterations.len(),
{
    if iterations.len() == 0 {
        Seq::empty()
    } else {
        iteration_parts(iterations.drop_last()) + iteration_part(iterations.last())
    }
}

/// The short name under which a transcript is kept.
pub open spec fn slug_or_untitled(c: CollectorView) -> Seq<char> {
    match c.slug {
        Some(slug) => slug,
        None => "untitled"@,
    }
}

/// The head of a transcript that is written at this time.
pub open spec fn head_part(c: CollectorView, written_at: Seq<char>) -> Seq<char> {
    "# "@ + slug_or_untitled(c) + " — "@ + written_at + " UTC\n\n"@ + "**Model:** "@ + c.model
        + "\n"@ + "**Run ID:** "@ + c.run_id + "\n"@ + "**Duration:** "@ + decimal(
        c.duration_ms as nat,
    ) + "ms ("@ + decimal(c.iterations.len()) + " iterations)\n"@ + "**Tokens:** "@ + decimal(
        c.total_tokens as nat,
    ) + "\n\n"@ + "## User prompt\n"@ + "> "@ + c.user_prompt + "\n\n"@
}

/// A transcript that is written at this time.
pub open spec fn transcript_text(c: CollectorView, written_at: Seq<char>) -> Seq<char> {
    let answer = match c.final_answer {
        Some(text) => text,
        None => "(no answer)"@,
    };
    head_part(c, written_at) + "## Agent trace\n"@ + iteration_parts(c.iterations)
        + "## Final answer\n"@ + answer + "\n"@
}

/// A transcript and where it belongs: `<dir>/<date>/<file_name>`.
#[derive(Debug)]
pub struct Transcript {
    pub dir: String,
    pub date: String,
    pub file_name: String,
    pub text: String,
}

/// One tool call with its result.
fn compose_call(call: &ToolCallRecord) -> (text: String)
    ensures
        text@ == call_part(call@),
{
    let mut text = "- `tool_call`: `".to_owned();
    text.append(call.name.as_str());
    text.append("(");
    text.append(call.args.as_str());
    text.append(")`\n");
    text.append("- `tool_result`: ok=");
    if call.ok {
        text.append("true");
    } else {
        text.append("false");
    }
    text.append(", content_preview=\"");
    text.append(call.content_preview.as_str());
    text.append("\"\n\n");
    text
}

/// One iteration.
fn compose_iteration(iteration: &IterationRecord) -> (text: String)
    ensures
        text@ == iteration_part(iteration@),
{
    let ghost calls = iteration@.tool_calls;
    let mut text = "### Iteration ".to_owned();
    text.append(decimal_text(iteration.number as u64).as_str());
    text.append("\n");
    text.append("*Reasoning:* ");
    match &iteration.reasoning {
        Some(reasoning) => text.append(reasoning.as_str()),
        None => text.append("(none)"),
    }
    text.append("\n\n");
    let ghost head = text@;
    let mut i: usize = 0;
    assert(text@ =~= head + call_parts(calls.take(0)));
    while i < iteration.tool_calls.len()
        invariant
            i <= iteration.tool_calls@.len(),
            calls == iteration@.tool_calls,
            text@ == head + call_parts(calls.take(i as int)),
        decreases iteration.tool_calls@.len() - i,
    {
        assert(calls.take(i + 1).drop_last() =~= calls.take(i as int));
        assert(calls.take(i + 1).last() == iteration.tool_calls@[i as int]@);
        text.append(compose_call(&iteration.tool_calls[i]).as_str());
        assert(text@ =~= head + call_parts(calls.take(i + 1)));
        i += 1;
    }
    assert(calls.take(i as int) =~= calls);
    let ghost so_far = text@;
    if let Some(content) = &iteration.content {
        proof {
            lemma_empty(content@);
        }
        if content.as_str().as_bytes().len() > 0 && iteration.tool_calls.len() == 0 {
            text.append("*Content:* ");
            text.append(content.as_str());
            text.append("\n\n");
        }
    }
    assert(text@ =~= so_far + content_part(iteration@));
    text
}

impl TranscriptCollector {
    /// The transcript of the run, from the times at which it is written: date
    /// and clock apart for the path, both together for the title.
    pub fn compose(&self, date: String, clock: &str, written_at: &str) -> (transcript: Transcript)
        ensures
            transcript.dir@ == self@.dir,
            transcript.date == date,
            transcript.file_name@ == clock@ + "_"@ + slug_or_untitled(self@) + ".md"@,
            transcript.text@ == transcript_text(self@, written_at@),
    {
        let slug = match &self.slug {
            Some(slug) => slug.as_str(),
            None => "untitled",
        };
        let mut text = "# ".to_owned();
        text.append(slug);
        text.append(" — ");
        text.append(written_at);
        text.append(" UTC\n\n");
        text.append("**Model:** ");
        text.append(self.model.as_str());
        text.append("\n");
        text.append("**Run ID:** ");
        text.append(self.run_id.as_str());
        text.append("\n");
        text.append("**Duration:** ");
        text.append(decimal_text(self.duration_ms).as_str());
        text.append("ms (");
        text.append(decimal_text(self.iterations.len() as u64).as_str());
        text.append(" iterations)\n");
        text.append("**Tokens:** ");
        text.append(decimal_text(self.total_tokens as u64).as_str());
        text.append("\n\n");
        text.append("## User prompt\n");
        text.append("> ");
        text.append(self.user_prompt.as_str());
        text.append("\n\n");
        assert(text@ == head_part(self@, written_at@));
        text.append("## Agent trace\n");
        let ghost head = text@;
        let ghost all = self@.iterations;
        let mut i: usize = 0;
        assert(text@ =~= head + iteration_parts(all.take(0)));
        while i < self.iterations.len()
            invariant
                i <= self.iterations@.len(),
                all == self@.iterations,
                text@ == head + iteration_parts(all.take(i as int)),
            decreases self.iterations@.len() - i,
        {
            assert(all.take(i + 1).drop_last() =~= all.take(i as int));
            assert(all.take(i + 1).last() == self.iterations@[i as int]@);
            text.append(compose_iteration(&self.iterations[i]).as_str());
            assert(text@ =~= head + iteration_parts(all.take(i + 1)));
            i += 1;
        }
        assert(all.take(i as int) =~= all);
        text.append("## Final answer\n");
        match &self.final_answer {
            Some(answer) => text.append(answer.as_str()),
            None => text.append("(no answer)"),
        }
        text.append("\n");
        let file_name = clock.to_owned().concat("_").concat(slug).concat(".md");
        Transcript { dir: self.dir.clone(), date, file_name, text }
    }

    /// The transcript of the run as it is written at this time.
    pub fn write(&self, now: &UtcTime) -> (transcript: Transcript)
        ensures
            transcript.dir@ == self@.dir,
            transcript.date@ == utc_format(
                now.seconds(),
                now.nanoseconds(),
                pattern_of(TimeFormat::Date),
            ),
            transcript.file_name@ == utc_format(
                now.seconds(),
                now.nanoseconds(),
                pattern_of(TimeFormat::Clock),
            ) + "_"@ + slug_or_untitled(self@) + ".md"@,
            transcript.text@ == transcript_text(
                self@,
                utc_format(now.seconds(), now.nanoseconds(), pattern_of(TimeFormat::DateAndClock)),
            ),
    {
        self.compose(
            now.format(TimeFormat::Date),
            now.format(TimeFormat::Clock).as_str(),
            now.format(TimeFormat::DateAndClock).as_str(),
        )
    }
}

/// A run's events, one after the other.
pub open spec fn fed_all(c: CollectorView, events: Seq<(Seq<char>, JsonView)>) -> CollectorView
    decreases events.len(),
{
    if events.len() == 0 {
        c
    } else {
        let before = fed_all(c, events.drop_last());
        fed(before, events.last().0, events.last().1)
    }
}

/// The first short name wins: whatever follows, it stays.
pub proof fn law_first_slug_wins(c: CollectorView, events: Seq<(Seq<char>, JsonView)>)
    requires
        c.slug is Some,
    ensures
        fed_all(c, events).slug == c.slug,
    decreases events.len(),
{
    if events.len() > 0 {
        law_first_slug_wins(c, events.drop_last());
    }
}

/// The first tool call gives a short name, and nothing before it does.
pub proof fn law_first_call_names(c: CollectorView, kind: Seq<char>, data: JsonView)
    requires
        c.slug is None,
    ensures
        fed(c, kind, data).slug is Some <==> kind == "tool_call"@,
{
    reveal_strlit("tool_call");
    reveal_strlit("run_start");
    reveal_strlit("llm_request");
    reveal_strlit("llm_response");
    assert("tool_call"@[0] != "run_start"@[0]);
    assert("tool_call"@.len() != "llm_request"@.len());
    assert("tool_call"@.len() != "llm_response"@.len());
}

/// Every request of a run is one iteration of its transcript, and only a
/// request is.
pub proof fn law_iterations_are_requests(c: CollectorView, kind: Seq<char>, data: JsonView)
    ensures
        fed(c, kind, data).iterations.len() == c.iterations.len() + if kind == "llm_request"@ {
            1nat
        } else {
            0
        },
{
    reveal_strlit("run_start");
    reveal_strlit("llm_request");
    assert("run_start"@.len() != "llm_request"@.len());
}

/// The kinds of events that a collector reads, told apart.
proof fn lemma_kinds()
    ensures
        "run_start"@ != "llm_request"@,
        "run_start"@ != "llm_response"@,
        "run_start"@ != "tool_call"@,
        "run_start"@ != "tool_result"@,
        "run_start"@ != "final_answer"@,
        "run_start"@ != "run_end"@,
        "llm_request"@ != "llm_response"@,
        "llm_request"@ != "tool_call"@,
        "llm_request"@ != "tool_result"@,
        "llm_request"@ != "final_answer"@,
        "llm_request"@ != "run_end"@,
        "llm_response"@ != "tool_call"@,
        "llm_response"@ != "tool_result"@,
        "llm_response"@ != "final_answer"@,
        "llm_response"@ != "run_end"@,
        "tool_call"@ != "tool_result"@,
        "tool_call"@ != "final_answer"@,
        "tool_call"@ != "run_end"@,
        "tool_result"@ != "final_answer"@,
        "tool_result"@ != "run_end"@,
        "final_answer"@ != "run_end"@,
{
    reveal_strlit("run_start");
    reveal_strlit("llm_request");
    reveal_strlit("llm_response");
    reveal_strlit("tool_call");
    reveal_strlit("tool_result");
    reveal_strlit("final_answer");
    reveal_strlit("run_end");
    assert("run_start"@.len() != "llm_request"@.len());
    assert("run_start"@.len() != "llm_response"@.len());
    assert("run_start"@[0] != "tool_call"@[0]);
    assert("run_start"@.len() != "tool_result"@.len());
    assert("run_start"@.len() != "final_answer"@.len());
    assert("run_start"@.len() != "run_end"@.len());
    assert("llm_request"@.len() != "llm_response"@.len());
    assert("llm_request"@.len() != "tool_call"@.len());
    assert("llm_request"@[0] != "tool_result"@[0]);
    assert("llm_request"@.len() != "final_answer"@.len());
    assert("llm_request"@.len() != "run_end"@.len());
    assert("llm_response"@.len() != "tool_call"@.len());
    assert("llm_response"@.len() != "tool_result"@.len());
    assert("llm_response"@[0] != "final_answer"@[0]);
    assert("llm_response"@.len() != "run_end"@.len());
    assert("tool_call"@.len() != "tool_result"@.len());
    assert("tool_call"@.len() != "final_answer"@.len());
    assert("tool_call"@.len() != "run_end"@.len());
    assert("tool_result"@.len() != "final_answer"@.len());
    assert("tool_result"@.len() != "run_end"@.len());
    assert("final_answer"@.len() != "run_end"@.len());
}

/// A tool call is added to the calls of the last iteration: those recorded before
/// stay, with their results, and one more follows, with the name and the arguments
/// of the event. Nothing else changes but the short name.
pub proof fn law_calls_accumulate(c: CollectorView, data: JsonView)
    requires
        c.iterations.len() > 0,
    ensures
        ({
            let to = fed(c, "tool_call"@, data);
            let before = c.iterations.last();
            let after = to.iterations.last();
            &&& to == CollectorView { iterations: to.iterations, slug: to.slug, ..c }
            &&& to.iterations.len() == c.iterations.len()
            &&& to.iterations.drop_last() == c.iterations.drop_last()
            &&& after == IterationView { tool_calls: after.tool_calls, ..before }
            &&& after.tool_calls.len() == before.tool_calls.len() + 1
            &&& before.tool_calls.is_prefix_of(after.tool_calls)
            &&& text_field(data, "name"@) matches Some(name) ==> after.tool_calls.last().name
                == name
            &&& text_field(data, "arguments"@) matches Some(args) ==> after.tool_calls.last().args
                == args
            &&& text_field(data, "name"@) is None ==> after.tool_calls.last().name.len() == 0
            &&& text_field(data, "arguments"@) is None ==> after.tool_calls.last().args == "{}"@
            &&& after.tool_calls.last().ok
            &&& after.tool_calls.last().content_preview.len() == 0
        }),
{
    lemma_kinds();
    let to = fed(c, "tool_call"@, data);
    let before = c.iterations.last().tool_calls;
    assert(to.iterations.drop_last() =~= c.iterations.drop_last());
    assert(before =~= to.iterations.last().tool_calls.subrange(0, before.len() as int));
}

/// A tool result belongs to the last call: it says whether that call went well and
/// shows the beginning of the text, all of it up to 200 characters. The other calls
/// and everything else stay.
pub proof fn law_result_belongs_to_the_last_call(c: CollectorView, data: JsonView)
    requires
        c.iterations.len() > 0,
        c.iterations.last().tool_calls.len() > 0,
    ensures
        ({
            let to = fed(c, "tool_result"@, data);
            let before = c.iterations.last();
            let after = to.iterations.last();
            let call = after.tool_calls.last();
            &&& to == CollectorView { iterations: to.iterations, ..c }
            &&& to.iterations.len() == c.iterations.len()
            &&& to.iterations.drop_last() == c.iterations.drop_last()
            &&& after == IterationView { tool_calls: after.tool_calls, ..before }
            &&& after.tool_calls.len() == before.tool_calls.len()
            &&& after.tool_calls.drop_last() == before.tool_calls.drop_last()
            &&& call.name == before.tool_calls.last().name
            &&& call.args == before.tool_calls.last().args
            &&& call.ok <==> flag_field(data, "ok"@) == Some(true)
            &&& text_field(data, "content"@) matches Some(text) ==> {
                &&& call.content_preview.is_prefix_of(text)
                &&& call.content_preview.len() == if text.len() <= 200 {
                    text.len()
                } else {
                    200
                }
            }
            &&& text_field(data, "content"@) is None ==> call.content_preview.len() == 0
        }),
{
    lemma_kinds();
    let to = fed(c, "tool_result"@, data);
    assert(to.iterations.drop_last() =~= c.iterations.drop_last());
    assert(to.iterations.last().tool_calls.drop_last()
        =~= c.iterations.last().tool_calls.drop_last());
    if let Some(text) = text_field(data, "content"@) {
        let shown = to.iterations.last().tool_calls.last().content_preview;
        assert(shown =~= text.subrange(0, shown.len() as int));
    }
}

/// A request opens an iteration with nothing in it, behind those before; an answer
/// fills in what the model said and thought in the last one and leaves its calls.
pub proof fn law_requests_open_and_answers_fill(c: CollectorView, data: JsonView)
    ensures
        ({
            let to = fed(c, "llm_request"@, data);
            let opened = to.iterations.last();
            &&& to == CollectorView {
                iterations: to.iterations,
                current_iteration: opened.number,
                ..c
            }
            &&& to.iterations.len() == c.iterations.len() + 1
            &&& to.iterations.drop_last() == c.iterations
            &&& opened.tool_calls.len() == 0
            &&& opened.reasoning is None
            &&& opened.content is None
            &&& number_field(data, "iteration"@) matches Some(n) ==> opened.number as int == n
                % 0x1_0000_0000
            &&& number_field(data, "iteration"@) is None ==> opened.number == 0
        }),
        c.iterations.len() > 0 ==> {
            let to = fed(c, "llm_response"@, data);
            let filled = to.iterations.last();
            &&& to == CollectorView { iterations: to.iterations, ..c }
            &&& to.iterations.len() == c.iterations.len()
            &&& to.iterations.drop_last() == c.iterations.drop_last()
            &&& filled.number == c.iterations.last().number
            &&& filled.tool_calls == c.iterations.last().tool_calls
            &&& filled.reasoning == text_field(data, "reasoning"@)
            &&& filled.content == text_field(data, "content"@)
        },
{
    lemma_kinds();
    assert(fed(c, "llm_request"@, data).iterations.drop_last() =~= c.iterations);
    if c.iterations.len() > 0 {
        assert(fed(c, "llm_response"@, data).iterations.drop_last()
            =~= c.iterations.drop_last());
    }
}

/// The head and the end of a transcript come from the first and the last events of
/// a run: the model, the run and the prompt from `run_start`, the answer from
/// `final_answer`, the time and the tokens from `run_end`. What these events do
/// not speak of stays, and every other kind of event changes nothing.
pub proof fn law_run_is_framed(c: CollectorView, kind: Seq<char>, data: JsonView)
    ensures
        ({
            let to = fed(c, "run_start"@, data);
            &&& to == CollectorView {
                model: to.model,
                run_id: to.run_id,
                user_prompt: to.user_prompt,
                ..c
            }
            &&& text_field(data, "model"@) matches Some(model) ==> to.model == model
            &&& text_field(data, "run_id"@) matches Some(id) ==> to.run_id == id
            &&& text_field(data, "user_prompt"@) matches Some(prompt) ==> to.user_prompt == prompt
            &&& text_field(data, "model"@) is None ==> to.model.len() == 0
            &&& text_field(data, "run_id"@) is None ==> to.run_id.len() == 0
            &&& text_field(data, "user_prompt"@) is None ==> to.user_prompt.len() == 0
        }),
        ({
            let to = fed(c, "final_answer"@, data);
            &&& to == CollectorView { final_answer: to.final_answer, ..c }
            &&& to.final_answer == text_field(data, "content"@)
        }),
        ({
            let to = fed(c, "run_end"@, data);
            &&& to == CollectorView {
                duration_ms: to.duration_ms,
                total_tokens: to.total_tokens,
                ..c
            }
            &&& number_field(data, "duration_ms"@) matches Some(n) ==> to.duration_ms == n
            &&& number_field(data, "duration_ms"@) is None ==> to.duration_ms == 0
            &&& number_field(data, "total_tokens"@) matches Some(n) ==> to.total_tokens as int == n
                % 0x1_0000_0000
            &&& number_field(data, "total_tokens"@) is None ==> to.total_tokens == 0
        }),
        kind != "run_start"@ && kind != "llm_request"@ && kind != "llm_response"@ && kind
            != "tool_call"@ && kind != "tool_result"@ && kind != "final_answer"@ && kind
            != "run_end"@ ==> fed(c, kind, data) == c,
{
    lemma_kinds();
}

/// What a run logs is what its transcript tells: each entry, fed to a collector,
/// leaves there what it was made from.
pub proof fn law_transcript_tells_what_was_logged(
    c: CollectorView,
    iteration: u32,
    id: Seq<char>,
    name: Seq<char>,
    text: Seq<char>,
    ok: bool,
    duration_ms: u64,
    total_tokens: u32,
)
    requires
        c.iterations.len() > 0,
        c.iterations.last().tool_calls.len() > 0,
    ensures
        ({
            let entry = tool_call_log(iteration, id, name, text);
            let call = fed(c, entry.kind, entry.data).iterations.last().tool_calls.last();
            call.name == name && call.args == text
        }),
        ({
            let entry = tool_result_log(iteration, id, ok, text);
            let call = fed(c, entry.kind, entry.data).iterations.last().tool_calls.last();
            call.ok == ok && call.content_preview.is_prefix_of(text)
        }),
        ({
            let entry = llm_request_log(iteration, name, 0);
            fed(c, entry.kind, entry.data).iterations.last().number == iteration
        }),
        ({
            let entry = final_answer_log(iteration, text);
            fed(c, entry.kind, entry.data).final_answer == Some(text)
        }),
        ({
            let entry = run_completed_log(duration_ms, total_tokens, iteration);
            let to = fed(c, entry.kind, entry.data);
            to.duration_ms == duration_ms && to.total_tokens == total_tokens
        }),
{
    let call = tool_call_log(iteration, id, name, text);
    law_tool_call_tells(iteration, id, name, text);
    law_calls_accumulate(c, call.data);
    let result = tool_result_log(iteration, id, ok, text);
    law_tool_result_tells(iteration, id, ok, text);
    law_result_belongs_to_the_last_call(c, result.data);
    let request = llm_request_log(iteration, name, 0);
    law_request_tells(iteration, name, 0);
    law_requests_open_and_answers_fill(c, request.data);
    law_final_answer_tells(iteration, text);
    law_run_is_framed(c, Seq::empty(), final_answer_log(iteration, text).data);
    law_completed_run_tells(duration_ms, total_tokens, iteration);
    law_run_is_framed(
        c,
        Seq::empty(),
        run_completed_log(duration_ms, total_tokens, iteration).data,
    );
}

/// The tool calls among some events.
pub open spec fn calls_among(events: Seq<(Seq<char>, JsonView)>) -> Seq<(Seq<char>, JsonView)> {
    events.filter(|e: (Seq<char>, JsonView)| e.0 == "tool_call"@)
}

/// Every tool call between a request and the next is recorded in the iteration of
/// that request, in order and under its name; the iterations before stay as they
/// were.
pub proof fn law_iteration_holds_its_calls(
    c: CollectorView,
    request: JsonView,
    events: Seq<(Seq<char>, JsonView)>,
)
    requires
        forall|k: int| 0 <= k < events.len() ==> (#[trigger] events[k]).0 != "llm_request"@,
    ensures
        ({
            let to = fed_all(fed(c, "llm_request"@, request), events);
            let calls = to.iterations.last().tool_calls;
            let asked = calls_among(events);
            &&& to.iterations.len() == c.iterations.len() + 1
            &&& to.iterations.drop_last() == c.iterations
            &&& calls.len() == asked.len()
            &&& forall|k: int|
                0 <= k < asked.len() ==> (text_field((#[trigger] asked[k]).1, "name"@) matches Some(
                    name,
                ) ==> calls[k].name == name)
            &&& forall|k: int|
                0 <= k < asked.len() ==> (text_field(
                    (#[trigger] asked[k]).1,
                    "arguments"@,
                ) matches Some(args) ==> calls[k].args == args)
        }),
    decreases events.len(),
{
    reveal(Seq::filter);
    lemma_kinds();
    let start = fed(c, "llm_request"@, request);
    law_requests_open_and_answers_fill(c, request);
    if events.len() == 0 {
        assert(calls_among(events).len() == 0);
    } else {
        let front = events.drop_last();
        let (kind, data) = events.last();
        assert forall|k: int| 0 <= k < front.len() implies (#[trigger] front[k]).0
            != "llm_request"@ by {
            assert(events[k] == front[k]);
        }
        law_iteration_holds_its_calls(c, request, front);
        let before = fed_all(start, front);
        let after = fed(before, kind, data);
        let asked = calls_among(front);
        let old = before.iterations.last().tool_calls;
        assert(events[events.len() - 1].0 != "llm_request"@);
        if kind == "tool_call"@ {
            law_calls_accumulate(before, data);
            assert(calls_among(events) =~= asked.push(events.last()));
            let new = after.iterations.last().tool_calls;
            assert forall|k: int| 0 <= k < old.len() implies #[trigger] new[k] == old[k] by {
                assert(new.subrange(0, old.len() as int)[k] == new[k]);
            }
        } else {
            assert(calls_among(events) =~= asked);
            if kind == "tool_result"@ {
                if old.len() > 0 {
                    law_result_belongs_to_the_last_call(before, data);
                    let new = after.iterations.last().tool_calls;
                    assert forall|k: int| 0 <= k < old.len() implies #[trigger] new[k].name
                        == old[k].name && new[k].args == old[k].args by {
                        if k < old.len() - 1 {
                            assert(new.drop_last()[k] == old.drop_last()[k]);
                        }
                    }
                } else {
                    assert(after.iterations =~= before.iterations);
                }
            } else if kind == "llm_response"@ {
                law_requests_open_and_answers_fill(before, data);
            } else {
                law_run_is_framed(before, kind, data);
            }
        }
    }
}

/// The first tool call names the transcript: one that opens an address by the
/// host, any other by the tool.
pub proof fn law_first_call_decides_the_name(
    c: CollectorView,
    data: JsonView,
    name: Seq<char>,
    args: Seq<char>,
)
    requires
        c.slug is None,
        text_field(data, "name"@) == Some(name),
        text_field(data, "arguments"@) == Some(args),
    ensures
        ({
            let to = fed(c, "tool_call"@, data);
            let url = match json_parse(args) {
                Some(json) => text_field(json, "url"@),
                None => None,
            };
            &&& name == "browser_navigate"@ && url is Some ==> to.slug == Some(url_slug(url->0))
            &&& name != "browser_navigate"@ || url is None ==> to.slug == Some(tool_slug(name))
        }),
{
    lemma_kinds();
}

/// Every call of an iteration is shown: its name with all of its arguments, how it
/// went and what is shown of its result.
pub proof fn law_call_is_shown(calls: Seq<CallRecordView>, k: int)
    requires
        0 <= k < calls.len(),
    ensures
        ({
            let part = call_part(calls[k]);
            &&& call_parts(calls) == call_parts(calls.take(k)) + part + call_parts(
                calls.skip(k + 1),
            )
            &&& shows(part, calls[k].name + "("@ + calls[k].args + ")"@)
            &&& shows(part, "ok="@ + if calls[k].ok { "true"@ } else { "false"@ })
            &&& shows(part, "\""@ + calls[k].content_preview + "\""@)
        }),
    decreases calls.len() - k,
{
    let call = calls[k];
    let part = call_part(call);
    let flag = if call.ok {
        "true"@
    } else {
        "false"@
    };
    reveal_strlit("(");
    reveal_strlit(")");
    reveal_strlit(")`\n");
    reveal_strlit("\"");
    reveal_strlit("ok=");
    reveal_strlit("- `tool_result`: ok=");
    reveal_strlit(", content_preview=\"");
    reveal_strlit("\"\n\n");
    reveal_strlit("`\n");
    reveal_strlit("- `tool_result`: ");
    reveal_strlit(", content_preview=");
    reveal_strlit("\n\n");
    let called = call.name + "("@ + call.args + ")"@;
    let went = "ok="@ + flag;
    let quoted = "\""@ + call.content_preview + "\""@;
    let opening = "- `tool_call`: `"@;
    let between = "`\n"@ + "- `tool_result`: "@;
    let comma = ", content_preview="@;
    let end = "\n\n"@;
    assert(part =~= opening + called + (between + went + comma + quoted + end));
    assert(part =~= (opening + called + between) + went + (comma + quoted + end));
    assert(part =~= (opening + called + between + went + comma) + quoted + end);
    lemma_shows_between(opening, called, between + went + comma + quoted + end, part);
    lemma_shows_between(opening + called + between, went, comma + quoted + end, part);
    lemma_shows_between(opening + called + between + went + comma, quoted, end, part);
    lemma_call_parts(calls.take(k + 1), calls.skip(k + 1));
    assert(calls.take(k + 1) + calls.skip(k + 1) =~= calls);
    assert(calls.take(k + 1).drop_last() =~= calls.take(k));
}

/// Calls one after the other.
proof fn lemma_call_parts(first: Seq<CallRecordView>, then: Seq<CallRecordView>)
    ensures
        call_parts(first + then) == call_parts(first) + call_parts(then),
    decreases then.len(),
{
    if then.len() == 0 {
        assert(first + then =~= first);
        assert(call_parts(first) + call_parts(then) =~= call_parts(first));
    } else {
        lemma_call_parts(first, then.drop_last());
        assert((first + then).drop_last() =~= first + then.drop_last());
        assert(call_parts(first + then) =~= call_parts(first) + call_parts(then));
    }
}

/// A transcript shows each of its iterations.
pub proof fn law_transcript_shows_every_iteration(
    c: CollectorView,
    written_at: Seq<char>,
    k: int,
)
    requires
        0 <= k < c.iterations.len(),
    ensures
        iteration_parts(c.iterations) == iteration_parts(c.iterations.take(k)) + iteration_part(
            c.iterations[k],
        ) + iteration_parts(c.iterations.skip(k + 1)),
        shows(transcript_text(c, written_at), iteration_parts(c.iterations)),
{
    let all = c.iterations;
    lemma_iteration_parts(all.take(k + 1), all.skip(k + 1));
    assert(all.take(k + 1) + all.skip(k + 1) =~= all);
    assert(all.take(k + 1).drop_last() =~= all.take(k));
    let answer = match c.final_answer {
        Some(text) => text,
        None => "(no answer)"@,
    };
    let left = head_part(c, written_at) + "## Agent trace\n"@;
    let right = "## Final answer\n"@ + answer + "\n"@;
    assert(transcript_text(c, written_at) =~= left + iteration_parts(all) + right);
    lemma_shows_between(left, iteration_parts(all), right, transcript_text(c, written_at));
}

/// Iterations one after the other.
proof fn lemma_iteration_parts(first: Seq<IterationView>, then: Seq<IterationView>)
    ensures
        iteration_parts(first + then) == iteration_parts(first) + iteration_parts(then),
    decreases then.len(),
{
    if then.len() == 0 {
        assert(first + then =~= first);
        assert(iteration_parts(first) + iteration_parts(then) =~= iteration_parts(first));
    } else {
        lemma_iteration_parts(first, then.drop_last());
        assert((first + then).drop_last() =~= first + then.drop_last());
        assert(iteration_parts(first + then) =~= iteration_parts(first) + iteration_parts(then));
    }
}

/// An iteration shows its number, its reasoning, all of its calls and, where it has
/// none, what the model said.
pub proof fn law_iteration_shows_all_of_it(iteration: IterationView)
    ensures
        ({
            let part = iteration_part(iteration);
            &&& shows(part, "Iteration "@ + decimal(iteration.number as nat) + "\n"@)
            &&& iteration.reasoning matches Some(text) ==> shows(
                part,
                "*Reasoning:* "@ + text + "\n\n"@,
            )
            &&& shows(part, call_parts(iteration.tool_calls))
            &&& iteration.content matches Some(text) ==> (text.len() > 0
                && iteration.tool_calls.len() == 0 ==> shows(
                part,
                "*Content:* "@ + text + "\n\n"@,
            ))
        }),
{
    let part = iteration_part(iteration);
    let reasoning = match iteration.reasoning {
        Some(text) => text,
        None => "(none)"@,
    };
    let number = "Iteration "@ + decimal(iteration.number as nat) + "\n"@;
    let thought = "*Reasoning:* "@ + reasoning + "\n\n"@;
    let calls = call_parts(iteration.tool_calls);
    let said = content_part(iteration);
    reveal_strlit("### Iteration ");
    reveal_strlit("### ");
    reveal_strlit("Iteration ");
    assert("### "@ + "Iteration "@ =~= "### Iteration "@);
    assert(part =~= "### "@ + number + (thought + calls + said));
    assert(part =~= ("### "@ + number) + thought + (calls + said));
    assert(part =~= ("### "@ + number + thought) + calls + said);
    assert(part =~= ("### "@ + number + thought + calls) + said + Seq::empty());
    lemma_shows_between("### "@, number, thought + calls + said, part);
    lemma_shows_between("### "@ + number, thought, calls + said, part);
    lemma_shows_between("### "@ + number + thought, calls, said, part);
    lemma_shows_between("### "@ + number + thought + calls, said, Seq::empty(), part);
}

/// A transcript shows the final answer at its end, or says that there is none.
pub proof fn law_transcript_ends_with_the_answer(c: CollectorView, written_at: Seq<char>)
    ensures
        ({
            let text = transcript_text(c, written_at);
            let end = "## Final answer\n"@ + (match c.final_answer {
                Some(answer) => answer,
                None => "(no answer)"@,
            }) + "\n"@;
            end.is_suffix_of(text)
        }),
{
    let text = transcript_text(c, written_at);
    let end = "## Final answer\n"@ + (match c.final_answer {
        Some(answer) => answer,
        None => "(no answer)"@,
    }) + "\n"@;
    let left = head_part(c, written_at) + "## Agent trace\n"@ + iteration_parts(c.iterations);
    assert(text =~= left + end);
    assert(end =~= text.subrange(text.len() - end.len(), text.len() as int));
}

/// A transcript shows its name and time, the model, the run, how long it took and in
/// how many iterations, the tokens and the whole prompt.
pub proof fn law_transcript_shows_the_run(c: CollectorView, written_at: Seq<char>)
    ensures
        ({
            let head = head_part(c, written_at);
            &&& head.is_prefix_of(transcript_text(c, written_at))
            &&& c.slug matches Some(slug) ==> shows(head, "# "@ + slug + " — "@ + written_at)
            &&& c.slug is None ==> shows(head, "# "@ + "untitled"@ + " — "@ + written_at)
            &&& shows(head, "**Model:** "@ + c.model + "\n"@)
            &&& shows(head, "**Run ID:** "@ + c.run_id + "\n"@)
            &&& shows(
                head,
                "**Duration:** "@ + decimal(c.duration_ms as nat) + "ms ("@ + decimal(
                    c.iterations.len(),
                ) + " iterations)\n"@,
            )
            &&& shows(head, "**Tokens:** "@ + decimal(c.total_tokens as nat) + "\n\n"@)
            &&& shows(head, "> "@ + c.user_prompt + "\n\n"@)
        }),
{
    let head = head_part(c, written_at);
    let text = transcript_text(c, written_at);
    assert(head =~= text.subrange(0, head.len() as int));
    let none = Seq::<char>::empty();
    let title = "# "@ + slug_or_untitled(c) + " — "@ + written_at;
    let model = "**Model:** "@ + c.model + "\n"@;
    let run = "**Run ID:** "@ + c.run_id + "\n"@;
    let time = "**Duration:** "@ + decimal(c.duration_ms as nat) + "ms ("@ + decimal(
        c.iterations.len(),
    ) + " iterations)\n"@;
    let tokens = "**Tokens:** "@ + decimal(c.total_tokens as nat) + "\n\n"@;
    let prompt = "> "@ + c.user_prompt + "\n\n"@;
    let first = title + " UTC\n\n"@;
    let second = first + model;
    lemma_three(first, "**Model:** "@, c.model, "\n"@);
    let third = second + run;
    lemma_three(second, "**Run ID:** "@, c.run_id, "\n"@);
    let fourth = third + time;
    let timed = "**Duration:** "@ + decimal(c.duration_ms as nat) + "ms ("@;
    lemma_three(third, "**Duration:** "@, decimal(c.duration_ms as nat), "ms ("@);
    lemma_three(third, timed, decimal(c.iterations.len()), " iterations)\n"@);
    let fifth = fourth + tokens;
    lemma_three(fourth, "**Tokens:** "@, decimal(c.total_tokens as nat), "\n\n"@);
    let sixth = fifth + "## User prompt\n"@;
    lemma_three(sixth, "> "@, c.user_prompt, "\n\n"@);
    assert(head == sixth + prompt);
    assert forall|piece: Seq<char>| shows(fifth, piece) implies #[trigger] shows(head, piece) by {
        lemma_shows(none, fifth, "## User prompt\n"@, piece);
        lemma_shows(none, sixth, prompt, piece);
    }
    assert forall|piece: Seq<char>| shows(third, piece) implies #[trigger] shows(fifth, piece) by {
        lemma_shows(none, third, time, piece);
        lemma_shows(none, fourth, tokens, piece);
    }
    assert forall|piece: Seq<char>| shows(first, piece) implies #[trigger] shows(third, piece) by {
        lemma_shows(none, first, model, piece);
        lemma_shows(none, second, run, piece);
    }
    lemma_shows_itself(title);
    lemma_shows(none, title, " UTC\n\n"@, title);
    assert(shows(third, title) && shows(fifth, title));
    lemma_shows_itself(model);
    lemma_shows(first, model, none, model);
    lemma_shows(none, second, run, model);
    assert(shows(fifth, model));
    lemma_shows_itself(run);
    lemma_shows(second, run, none, run);
    assert(shows(fifth, run));
    lemma_shows_itself(time);
    lemma_shows(third, time, none, time);
    lemma_shows(none, fourth, tokens, time);
    lemma_shows_itself(tokens);
    lemma_shows(fourth, tokens, none, tokens);
    lemma_shows_itself(prompt);
    lemma_shows(sixth, prompt, none, prompt);
}

/// Three texts behind another are one text behind it.
proof fn lemma_three(left: Seq<char>, a: Seq<char>, b: Seq<char>, c: Seq<char>)
    ensures
        left + a + b + c == left + (a + b + c),
{
    assert(left + a + b + c =~= left + (a + b + c));
}

/// What belongs to an iteration or to a call that is not there is passed over.
pub proof fn law_nothing_is_made_up(c: CollectorView, data: JsonView)
    ensures
        c.iterations.len() == 0 ==> {
            &&& fed(c, "llm_response"@, data) == c
            &&& fed(c, "tool_result"@, data) == c
            &&& fed(c, "tool_call"@, data).iterations.len() == 0
        },
        c.iterations.len() > 0 && c.iterations.last().tool_calls.len() == 0 ==> fed(
            c,
            "tool_result"@,
            data,
        ) == c,
{
    lemma_kinds();
    if c.iterations.len() > 0 && c.iterations.last().tool_calls.len() == 0 {
        assert(fed(c, "tool_result"@, data).iterations =~= c.iterations);
    }
}

/// What the model said beside its tool calls is not shown: an iteration with calls
/// looks the same whatever was said.
pub proof fn law_calls_hide_what_was_said(iteration: IterationView, content: Option<Seq<char>>)
    requires
        iteration.tool_calls.len() > 0,
    ensures
        iteration_part(IterationView { content, ..iteration }) == iteration_part(iteration),
{
}

/// An iteration in which nothing was called or said shows its number and its
/// reasoning alone.
pub proof fn law_silent_iteration_is_bare(iteration: IterationView)
    requires
        iteration.tool_calls.len() == 0,
        iteration.content matches Some(text) ==> text.len() == 0,
    ensures
        iteration_part(iteration) == "### Iteration "@ + decimal(iteration.number as nat) + "\n"@
            + "*Reasoning:* "@ + (match iteration.reasoning {
            Some(text) => text,
            None => "(none)"@,
        }) + "\n\n"@,
{
    assert(iteration_part(iteration) =~= "### Iteration "@ + decimal(iteration.number as nat)
        + "\n"@ + "*Reasoning:* "@ + (match iteration.reasoning {
        Some(text) => text,
        None => "(none)"@,
    }) + "\n\n"@);
}

} // verus!
