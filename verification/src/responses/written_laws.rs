//! Calls that a model wrote as text, block by block.

use vstd::prelude::*;

use crate::json::{parsed_json, printed_json, JsonView};
use crate::responses::tools::{
    described_call, law_no_opening_tag_is_left, without_tag, without_tool_calls, written_calls,
};
use crate::text::{first_occurrence, lemma_first_occurrence, occurs, occurs_at, trim};

verus! {

/// Whether `pattern` stands in `text` at index `at`, and nowhere from index `from` up to there.
pub open spec fn stands_first(text: Seq<char>, pattern: Seq<char>, from: int, at: int) -> bool {
    &&& from <= at
    &&& occurs_at(text, pattern, at)
    &&& forall|j: int| from <= j < at ==> !#[trigger] occurs_at(text, pattern, j)
}

/// Whether `pattern` stands nowhere in `text` from index `from` on.
pub open spec fn stands_nowhere(text: Seq<char>, pattern: Seq<char>, from: int) -> bool {
    forall|j: int| from <= j ==> !#[trigger] occurs_at(text, pattern, j)
}

/// The calls of one block: one, if it describes one.
pub open spec fn calls_of_block(body: Seq<char>) -> Seq<(Seq<char>, Seq<char>)> {
    match described_call(trim(body)) {
        Some(call) => seq![call],
        None => seq![],
    }
}

proof fn lemma_found(text: Seq<char>, pattern: Seq<char>, from: int, at: int)
    requires
        0 <= from,
        stands_first(text, pattern, from, at),
    ensures
        first_occurrence(text, pattern, from) == Some(at),
{
    lemma_first_occurrence(text, pattern, from);
    if first_occurrence(text, pattern, from) is None {
        assert(!occurs_at(text, pattern, at));
    }
}

proof fn lemma_not_found(text: Seq<char>, pattern: Seq<char>, from: int)
    requires
        0 <= from,
        stands_nowhere(text, pattern, from),
    ensures
        first_occurrence(text, pattern, from) is None,
{
    lemma_first_occurrence(text, pattern, from);
}

proof fn lemma_occurs_shifted(text: Seq<char>, pattern: Seq<char>, by: int, at: int)
    requires
        0 <= by <= text.len(),
        0 <= at,
    ensures
        occurs_at(text.skip(by), pattern, at) == occurs_at(text, pattern, by + at),
{
    if by + at + pattern.len() <= text.len() {
        assert(text.skip(by).subrange(at, at + pattern.len()) =~= text.subrange(
            by + at,
            by + at + pattern.len(),
        ));
    }
}

proof fn lemma_first_shifted(text: Seq<char>, pattern: Seq<char>, by: int, from: int)
    requires
        0 <= by <= text.len(),
        0 <= from,
    ensures
        first_occurrence(text, pattern, by + from) == match first_occurrence(
            text.skip(by),
            pattern,
            from,
        ) {
            Some(at) => Some(by + at),
            None => None,
        },
    decreases text.len() - from + 1,
{
    let rest = text.skip(by);
    if from + pattern.len() <= rest.len() {
        lemma_occurs_shifted(text, pattern, by, from);
        if !occurs_at(rest, pattern, from) {
            lemma_first_shifted(text, pattern, by, from + 1);
        }
    }
}

proof fn lemma_written_shifted(text: Seq<char>, by: int, from: int)
    requires
        0 <= by <= text.len(),
        0 <= from,
    ensures
        written_calls(text, by + from) == written_calls(text.skip(by), from),
    decreases text.len() - from,
{
    reveal_strlit("<tool_call>");
    reveal_strlit("</tool_call>");
    let rest = text.skip(by);
    lemma_first_shifted(text, "<tool_call>"@, by, from);
    lemma_first_occurrence(rest, "<tool_call>"@, from);
    if let Some(start) = first_occurrence(rest, "<tool_call>"@, from) {
        let body = start + "<tool_call>"@.len();
        lemma_first_shifted(text, "</tool_call>"@, by, body);
        lemma_first_occurrence(rest, "</tool_call>"@, body);
        if let Some(end) = first_occurrence(rest, "</tool_call>"@, body) {
            lemma_written_shifted(text, by, end + "</tool_call>"@.len());
            assert(rest.subrange(body, end) =~= text.subrange(by + body, by + end));
        }
    }
}

/// The calls of a text are those of its first block, then those of the text behind that block.
/// A block reaches from an opening tag to the next closing tag; what it describes is read from
/// what stands between the two.
pub proof fn law_blocks_are_read_one_by_one(text: Seq<char>, start: int, end: int)
    requires
        stands_first(text, "<tool_call>"@, 0, start),
        stands_first(text, "</tool_call>"@, start + 11, end),
    ensures
        written_calls(text, 0) == calls_of_block(text.subrange(start + 11, end)) + written_calls(
            text.skip(end + 12),
            0,
        ),
{
    reveal_strlit("<tool_call>");
    reveal_strlit("</tool_call>");
    lemma_found(text, "<tool_call>"@, 0, start);
    lemma_found(text, "</tool_call>"@, start + 11, end);
    lemma_written_shifted(text, end + 12, 0);
    let rest = written_calls(text.skip(end + 12), 0);
    assert(Seq::<(Seq<char>, Seq<char>)>::empty() + rest =~= rest);
}

/// A block that is not closed describes no call.
pub proof fn law_open_blocks_are_not_read(text: Seq<char>, start: int)
    requires
        stands_first(text, "<tool_call>"@, 0, start),
        stands_nowhere(text, "</tool_call>"@, start + 11),
    ensures
        written_calls(text, 0).len() == 0,
{
    reveal_strlit("<tool_call>");
    lemma_found(text, "<tool_call>"@, 0, start);
    lemma_not_found(text, "</tool_call>"@, start + 11);
}

/// A block describes a call exactly if it is JSON with a member `name` that is a text and not
/// empty. That is the name of the call. Its arguments are the member `arguments`: a text as it
/// stands, another value as JSON, and the empty object where there is none.
pub proof fn law_blocks_describe_what_they_name(block: Seq<char>)
    ensures
        match parsed_json(block) {
            Some(tree) => match tree.get("name"@) {
                Some(JsonView::Str(name)) => if name.len() > 0 {
                    described_call(block) matches Some(call) && call.0 == name && call.1
                        == match tree.get("arguments"@) {
                        Some(JsonView::Str(text)) => text,
                        Some(value) => printed_json(value),
                        None => "{}"@,
                    }
                } else {
                    described_call(block) is None
                },
                _ => described_call(block) is None,
            },
            None => described_call(block) is None,
        },
{
}

/// A text without the opening tag keeps everything.
pub proof fn law_untagged_text_is_kept(text: Seq<char>, open: Seq<char>, close: Seq<char>)
    requires
        close.len() > 0,
        stands_nowhere(text, open, 0),
    ensures
        without_tag(text, open, close) == text,
{
    lemma_not_found(text, open, 0);
}

/// From an opening tag to the next closing tag everything is taken out of a text; what stands
/// around it is kept, and is then one text.
pub proof fn law_runs_are_taken_out_one_by_one(
    text: Seq<char>,
    open: Seq<char>,
    close: Seq<char>,
    start: int,
    end: int,
)
    requires
        close.len() > 0,
        stands_first(text, open, 0, start),
        stands_first(text, close, start, end),
    ensures
        without_tag(text, open, close) == without_tag(
            text.subrange(0, start) + text.subrange(end + close.len(), text.len() as int),
            open,
            close,
        ),
{
    lemma_found(text, open, 0, start);
    lemma_found(text, close, start, end);
    assert(text.take(start) == text.subrange(0, start));
    assert(text.skip(end + close.len()) == text.subrange(end + close.len(), text.len() as int));
}

/// From an opening tag that is not closed on, nothing of a text is kept.
pub proof fn law_open_runs_reach_to_the_end(
    text: Seq<char>,
    open: Seq<char>,
    close: Seq<char>,
    start: int,
)
    requires
        close.len() > 0,
        stands_first(text, open, 0, start),
        stands_nowhere(text, close, start),
    ensures
        without_tag(text, open, close) == text.subrange(0, start),
{
    lemma_found(text, open, 0, start);
    lemma_not_found(text, close, start);
}

/// What is left of a text around its calls and thoughts: first the calls are taken out, then
/// the thoughts, each where the text has such a tag. No thought is left.
pub proof fn law_calls_and_thoughts_are_taken_out(text: Seq<char>)
    ensures
        stands_nowhere(text, "<tool_call>"@, 0) && stands_nowhere(text, "<think>"@, 0)
            ==> without_tool_calls(text) == text,
        stands_nowhere(text, "<think>"@, 0) ==> without_tool_calls(text) == without_tag(
            text,
            "<tool_call>"@,
            "</tool_call>"@,
        ),
        !stands_nowhere(text, "<think>"@, 0) ==> without_tool_calls(text) == without_tag(
            without_tag(text, "<tool_call>"@, "</tool_call>"@),
            "<think>"@,
            "</think>"@,
        ) && !occurs(without_tool_calls(text), "<think>"@),
{
    reveal_strlit("<tool_call>");
    reveal_strlit("</tool_call>");
    reveal_strlit("<think>");
    reveal_strlit("</think>");
    if stands_nowhere(text, "<tool_call>"@, 0) {
        law_untagged_text_is_kept(text, "<tool_call>"@, "</tool_call>"@);
    }
    if !stands_nowhere(text, "<think>"@, 0) {
        let no_calls = without_tag(text, "<tool_call>"@, "</tool_call>"@);
        law_no_opening_tag_is_left(no_calls, "<think>"@, "</think>"@);
    }
}

} // verus!
