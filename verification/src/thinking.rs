//! Removal of the reasoning that some models leave in their answers.

use vstd::prelude::*;
use vstd::string::*;

use crate::text::{chars_of, starts_with, text_between};

verus! {

/// What opens a block of reasoning.
pub open spec fn block_start() -> Seq<char> {
    "<|channel|>analysis"@
}

/// What closes a block of reasoning.
pub open spec fn block_end() -> Seq<char> {
    "<|end|>"@
}

/// Where a pattern first occurs in a text.
pub open spec fn first_at(text: Seq<char>, pattern: Seq<char>) -> Option<nat>
    decreases text.len(),
{
    if starts_with(text, pattern) {
        Some(0)
    } else if text.len() == 0 {
        None
    } else {
        match first_at(text.drop_first(), pattern) {
            Some(n) => Some(n + 1),
            None => None,
        }
    }
}

/// A pattern lies within the text where it is found.
pub proof fn lemma_first_at(text: Seq<char>, pattern: Seq<char>)
    ensures
        first_at(text, pattern) matches Some(n) ==> n + pattern.len() <= text.len() && starts_with(
            text.skip(n as int),
            pattern,
        ),
    decreases text.len(),
{
    if starts_with(text, pattern) {
        assert(text.skip(0) =~= text);
    } else if text.len() > 0 {
        lemma_first_at(text.drop_first(), pattern);
        if let Some(n) = first_at(text.drop_first(), pattern) {
            assert(text.drop_first().skip(n as int) =~= text.skip(n as int + 1));
        }
    }
}

/// A text without its blocks of reasoning. A block ends with the first closing
/// mark after its opening one; one that is never closed stays.
pub open spec fn without_thinking(text: Seq<char>) -> Seq<char>
    decreases text.len(),
{
    proof {
        reveal_strlit("<|channel|>analysis");
        lemma_first_at(text, block_start());
    }
    match first_at(text, block_start()) {
        Some(open) => {
            let rest = text.skip((open + block_start().len()) as int);
            proof {
                lemma_first_at(rest, block_end());
            }
            match first_at(rest, block_end()) {
                Some(close) => text.take(open as int) + without_thinking(
                    rest.skip((close + block_end().len()) as int),
                ),
                None => text,
            }
        },
        None => text,
    }
}

/// Where a pattern first occurs, from a position on.
fn find_from(chars: &Vec<char>, from: usize, pattern: &Vec<char>) -> (found: Option<usize>)
    requires
        from <= chars@.len(),
    ensures
        match first_at(chars@.skip(from as int), pattern@) {
            Some(n) => found matches Some(at) && at == from + n && at + pattern@.len()
                <= chars@.len(),
            None => found is None,
        },
{
    let total = chars.len();
    let mut at = from;
    loop
        invariant
            from <= at <= total,
            total == chars@.len(),
            first_at(chars@.skip(from as int), pattern@) == match first_at(
                chars@.skip(at as int),
                pattern@,
            ) {
                Some(n) => Some((n + (at - from)) as nat),
                None => None,
            },
        decreases chars@.len() - at,
    {
        let ghost here = chars@.skip(at as int);
        if pattern.len() > total - at {
            proof {
                lemma_first_at(here, pattern@);
            }
            return None;
        }
        let mut k: usize = 0;
        while k < pattern.len() && chars[at + k] == pattern[k]
            invariant
                k <= pattern@.len(),
                at + pattern@.len() <= total,
                total == chars@.len(),
                here == chars@.skip(at as int),
                forall|m: int| 0 <= m < k ==> here[m] == pattern@[m],
            decreases pattern@.len() - k,
        {
            k += 1;
        }
        if k == pattern.len() {
            assert(here.take(pattern@.len() as int) =~= pattern@);
            return Some(at);
        }
        assert(here.take(pattern@.len() as int)[k as int] != pattern@[k as int]);
        if at == total {
            return None;
        }
        assert(here.drop_first() =~= chars@.skip(at + 1));
        at += 1;
    }
}

/// Strip `<|channel|>analysis...<|end|>` blocks.
pub fn strip_thinking_tags(content: &str) -> (stripped: String)
    ensures
        stripped@ == without_thinking(content@),
{
    let chars = chars_of(content);
    let start = chars_of("<|channel|>analysis");
    let end = chars_of("<|end|>");
    let mut kept = String::new();
    let mut at: usize = 0;
    proof {
        reveal_strlit("<|channel|>analysis");
        assert(chars@.skip(0) =~= chars@);
    }
    let total = chars.len();
    loop
        invariant
            at <= total,
            total == chars@.len(),
            start@ == block_start(),
            end@ == block_end(),
            start@.len() > 0,
            chars@ == content@,
            without_thinking(content@) == kept@ + without_thinking(chars@.skip(at as int)),
        ensures
            at <= total,
            without_thinking(chars@.skip(at as int)) == chars@.skip(at as int),
        decreases chars@.len() - at,
    {
        let ghost text = chars@.skip(at as int);
        match find_from(&chars, at, &start) {
            Some(open) => {
                let inner = open + start.len();
                assert(text.skip((open - at) + start@.len()) =~= chars@.skip(inner as int));
                match find_from(&chars, inner, &end) {
                    Some(close) => {
                        let next = close + end.len();
                        assert(text.take(open - at) =~= chars@.subrange(at as int, open as int));
                        assert(chars@.skip(inner as int).skip((close - inner) + end@.len())
                            =~= chars@.skip(next as int));
                        kept.append(text_between(&chars, at, open).as_str());
                        at = next;
                    },
                    None => {
                        break ;
                    },
                }
            },
            None => {
                break ;
            },
        }
    }
    assert(chars@.skip(at as int) =~= chars@.subrange(at as int, chars@.len() as int));
    kept.append(text_between(&chars, at, total).as_str());
    kept
}

/// A text that opens no block stays as it is.
pub proof fn law_plain_text_stays(text: Seq<char>)
    requires
        first_at(text, block_start()) is None,
    ensures
        without_thinking(text) == text,
{
    reveal_strlit("<|channel|>analysis");
}

/// Nothing is left of a text that is one block from end to end.
pub proof fn law_wrapped_text_is_removed(inner: Seq<char>)
    requires
        first_at(inner + block_end(), block_end()) == Some(inner.len()),
    ensures
        without_thinking(block_start() + inner + block_end()) == Seq::<char>::empty(),
{
    reveal_strlit("<|channel|>analysis");
    let text = block_start() + inner + block_end();
    let rest = inner + block_end();
    assert(text.take(block_start().len() as int) =~= block_start());
    assert(first_at(text, block_start()) == Some(0nat));
    assert(text.skip(0 + block_start().len() as int) =~= rest);
    let tail = rest.skip((inner.len() + block_end().len()) as int);
    assert(tail =~= Seq::empty());
    assert(first_at(tail, block_start()) is None);
    assert(without_thinking(tail) == tail);
    assert(text.take(0) =~= Seq::empty());
}

/// A pattern is found where it first occurs: there it stands, and at no place
/// before; where it is not found it stands nowhere.
pub proof fn law_first_occurrence_is_found(text: Seq<char>, pattern: Seq<char>)
    ensures
        first_at(text, pattern) matches Some(n) ==> {
            &&& n + pattern.len() <= text.len()
            &&& text.subrange(n as int, (n + pattern.len()) as int) == pattern
        },
        forall|at: int|
            0 <= at && at + pattern.len() <= text.len() && (first_at(text, pattern) matches Some(
                n,
            ) ==> at < n) ==> #[trigger] text.subrange(at, at + pattern.len()) != pattern,
    decreases text.len(),
{
    lemma_first_at(text, pattern);
    if let Some(n) = first_at(text, pattern) {
        assert(text.skip(n as int).take(pattern.len() as int) =~= text.subrange(
            n as int,
            (n + pattern.len()) as int,
        ));
    }
    assert forall|at: int|
        0 <= at && at + pattern.len() <= text.len() && (first_at(text, pattern) matches Some(n)
            ==> at < n) implies #[trigger] text.subrange(at, at + pattern.len()) != pattern by {
        if at == 0 {
            assert(text.subrange(0, pattern.len() as int) =~= text.take(pattern.len() as int));
        } else {
            let rest = text.drop_first();
            law_first_occurrence_is_found(rest, pattern);
            assert(text.subrange(at, at + pattern.len()) =~= rest.subrange(
                at - 1,
                at - 1 + pattern.len(),
            ));
        }
    }
}

/// A block is cut out and nothing else: what stands before the first block stays,
/// the block goes with its marks, and the rest is treated in the same way.
pub proof fn law_block_is_cut_out(before: Seq<char>, inner: Seq<char>, behind: Seq<char>)
    requires
        ({
            let open = "<|channel|>analysis"@;
            let close = "<|end|>"@;
            &&& first_at(before + open + inner + close + behind, open) == Some(before.len())
            &&& first_at(inner + close + behind, close) == Some(inner.len())
        }),
    ensures
        without_thinking(before + "<|channel|>analysis"@ + inner + "<|end|>"@ + behind) == before
            + without_thinking(behind),
{
    reveal_strlit("<|channel|>analysis");
    let open = "<|channel|>analysis"@;
    let close = "<|end|>"@;
    let text = before + open + inner + close + behind;
    let rest = inner + close + behind;
    assert(text.skip((before.len() + open.len()) as int) =~= rest);
    assert(rest.skip((inner.len() + close.len()) as int) =~= behind);
    assert(text.take(before.len() as int) =~= before);
    lemma_first_at(text, open);
    lemma_first_at(rest, close);
}

/// A block that is never closed stays, and so does everything around it.
pub proof fn law_unclosed_block_stays(before: Seq<char>, behind: Seq<char>)
    requires
        first_at(before + "<|channel|>analysis"@ + behind, "<|channel|>analysis"@) == Some(
            before.len(),
        ),
        first_at(behind, "<|end|>"@) is None,
    ensures
        without_thinking(before + "<|channel|>analysis"@ + behind) == before
            + "<|channel|>analysis"@ + behind,
{
    reveal_strlit("<|channel|>analysis");
    let open = "<|channel|>analysis"@;
    let text = before + open + behind;
    assert(text.skip((before.len() + open.len()) as int) =~= behind);
}

} // verus!
