//! What a stream says, in terms of the chunks that came.
//!
//! A call of a stream is what its pieces bring: the last id, the last name, and all of the
//! arguments joined. The message is all text joined, and the reasoning is all that came before
//! the first text or call, where a summary was asked for. The laws here say that the output of a
//! response, and the items that are announced and told as done, are just that.

use vstd::prelude::*;

use crate::chat::{
    ChatChoiceStream, ChatCompletionMessageContent, ChatCompletionMessageToolCallChunk,
    CompletionUsage, FinishReason,
};
use crate::responses::convert_laws::counts_as;
use crate::responses::response::ResponseParams;
use crate::responses::stream::{
    after_chunk, after_end, close_call, close_calls, close_message, close_reasoning, delta_text,
    on_choice, on_choices, on_reasoning, on_text, on_tool_call, on_tool_calls, on_tool_delta,
    reserve_calls, CallState, Emitted, StreamState,
};
use crate::responses::stream_laws::{
    law_chunks_keep_indices_distinct, lemma_choices_grow, lemma_close_calls_grow,
    lemma_close_calls_wf, lemma_reserve_calls,
};
use crate::responses::stream_order::{with_counts, with_limit};
use crate::responses::stream_output::carried;
use crate::responses::stream_run::{is_fresh, stream_so_far, whole_stream, Turn};
use crate::responses::tools::tool_identity;
use crate::responses::types::{
    FunctionToolCallView, OutputItemView, OutputMessageContentView, OutputStatus, ResponseUsage,
    SummaryPartView, ToolView,
};

verus! {

/// The name that a piece of a call brings.
pub open spec fn name_in(piece: ChatCompletionMessageToolCallChunk) -> Option<Seq<char>> {
    match piece.function {
        Some(function) => match function.name {
            Some(name) => Some(name@),
            None => None,
        },
        None => None,
    }
}

/// The arguments that a piece of a call brings.
pub open spec fn arguments_in(piece: ChatCompletionMessageToolCallChunk) -> Option<Seq<char>> {
    match piece.function {
        Some(function) => match function.arguments {
            Some(text) => Some(text@),
            None => None,
        },
        None => None,
    }
}

/// The last name that the pieces of call `j` brought.
pub open spec fn last_name(pieces: Seq<ChatCompletionMessageToolCallChunk>, j: int) -> Seq<char>
    decreases pieces.len(),
{
    if pieces.len() == 0 {
        seq![]
    } else if pieces.last().index == j && name_in(pieces.last()) is Some {
        name_in(pieces.last())->0
    } else {
        last_name(pieces.drop_last(), j)
    }
}

/// The last id that the pieces of call `j` brought.
pub open spec fn last_id(pieces: Seq<ChatCompletionMessageToolCallChunk>, j: int) -> Seq<char>
    decreases pieces.len(),
{
    if pieces.len() == 0 {
        seq![]
    } else if pieces.last().index == j && pieces.last().id is Some {
        pieces.last().id->0@
    } else {
        last_id(pieces.drop_last(), j)
    }
}

/// All arguments that the pieces of call `j` brought, joined.
pub open spec fn all_arguments(pieces: Seq<ChatCompletionMessageToolCallChunk>, j: int) -> Seq<char>
    decreases pieces.len(),
{
    if pieces.len() == 0 {
        seq![]
    } else if pieces.last().index == j && arguments_in(pieces.last()) is Some {
        all_arguments(pieces.drop_last(), j) + arguments_in(pieces.last())->0
    } else {
        all_arguments(pieces.drop_last(), j)
    }
}

/// Whether the pieces of call `j` brought arguments, be they empty.
pub open spec fn brings(pieces: Seq<ChatCompletionMessageToolCallChunk>, j: int) -> bool {
    exists|k: int|
        0 <= k < pieces.len() && (#[trigger] pieces[k]).index == j && arguments_in(pieces[k])
            is Some
}

/// One more than the largest index of a call.
pub open spec fn call_count(pieces: Seq<ChatCompletionMessageToolCallChunk>) -> nat
    decreases pieces.len(),
{
    if pieces.len() == 0 {
        0
    } else if pieces.last().index + 1 > call_count(pieces.drop_last()) {
        (pieces.last().index + 1) as nat
    } else {
        call_count(pieces.drop_last())
    }
}

/// The pieces of calls that a choice brings.
pub open spec fn pieces_in(choice: ChatChoiceStream) -> Seq<ChatCompletionMessageToolCallChunk> {
    match choice.delta.tool_calls {
        Some(pieces) => pieces@,
        None => seq![],
    }
}

/// The text that a choice brings.
pub open spec fn text_in(choice: ChatChoiceStream) -> Seq<char> {
    match choice.delta.content {
        Some(ChatCompletionMessageContent::Text(text)) => text@,
        _ => seq![],
    }
}

/// The reasoning that a choice brings.
pub open spec fn reasoning_in(choice: ChatChoiceStream) -> Seq<char> {
    match choice.delta.reasoning_content {
        Some(text) => text@,
        None => seq![],
    }
}

/// All pieces of calls that choices bring.
pub open spec fn all_pieces(choices: Seq<ChatChoiceStream>) -> Seq<
    ChatCompletionMessageToolCallChunk,
>
    decreases choices.len(),
{
    if choices.len() == 0 {
        seq![]
    } else {
        all_pieces(choices.drop_last()) + pieces_in(choices.last())
    }
}

/// All text that choices bring, joined.
pub open spec fn all_text(choices: Seq<ChatChoiceStream>) -> Seq<char>
    decreases choices.len(),
{
    if choices.len() == 0 {
        seq![]
    } else {
        all_text(choices.drop_last()) + text_in(choices.last())
    }
}

/// Whether some choice brings text or calls.
pub open spec fn has_spoken(choices: Seq<ChatChoiceStream>) -> bool
    decreases choices.len(),
{
    choices.len() > 0 && (has_spoken(choices.drop_last()) || text_in(choices.last()).len() > 0
        || pieces_in(choices.last()).len() > 0)
}

/// Whether the token limit ended some choice.
pub open spec fn was_cut(choices: Seq<ChatChoiceStream>) -> bool
    decreases choices.len(),
{
    choices.len() > 0 && (was_cut(choices.drop_last()) || choices.last().finish_reason == Some(
        FinishReason::Length,
    ))
}

/// The reasoning that came before any text or call, joined, where it is to be shown.
pub open spec fn shown_reasoning(choices: Seq<ChatChoiceStream>, shown: bool) -> Seq<char>
    decreases choices.len(),
{
    if choices.len() == 0 || !shown {
        seq![]
    } else if has_spoken(choices.drop_last()) {
        shown_reasoning(choices.drop_last(), shown)
    } else {
        shown_reasoning(choices.drop_last(), shown) + reasoning_in(choices.last())
    }
}

/// All choices of the chunks, in their order.
pub open spec fn choices_of(turns: Seq<Turn>) -> Seq<ChatChoiceStream>
    decreases turns.len(),
{
    if turns.len() == 0 {
        seq![]
    } else {
        choices_of(turns.drop_last()) + turns.last().chunk.inner.choices@
    }
}

/// Whether the request asked for a summary of the reasoning.
pub open spec fn summary_asked(params: ResponseParams) -> bool {
    params.reasoning matches Some(reasoning) && reasoning.summary is Some
}

/// What a client is told of a call.
#[verifier::ext_equal]
pub struct CallTold {
    pub call_id: Seq<char>,
    pub name: Seq<char>,
    pub namespace: Option<Seq<char>>,
    pub arguments: Seq<char>,
    pub status: Option<OutputStatus>,
}

/// What a call item tells.
pub open spec fn told_by(call: FunctionToolCallView) -> CallTold {
    CallTold {
        call_id: call.call_id,
        name: call.name,
        namespace: call.namespace,
        arguments: call.arguments,
        status: call.status,
    }
}

/// What is to be told of call `j` after the given pieces, with some arguments and in a status.
pub open spec fn to_tell(
    tools: Option<Seq<ToolView>>,
    pieces: Seq<ChatCompletionMessageToolCallChunk>,
    j: int,
    arguments: Seq<char>,
    status: OutputStatus,
) -> CallTold {
    let identity = tool_identity(tools, last_name(pieces, j));
    CallTold {
        call_id: last_id(pieces, j),
        name: identity.0,
        namespace: identity.1,
        arguments,
        status: Some(status),
    }
}

/// The calls of an output, in their order.
pub open spec fn calls_in(output: Seq<OutputItemView>) -> Seq<CallTold>
    decreases output.len(),
{
    if output.len() == 0 {
        seq![]
    } else {
        match output.last() {
            OutputItemView::FunctionCall(call) => calls_in(output.drop_last()).push(told_by(call)),
            _ => calls_in(output.drop_last()),
        }
    }
}

/// The texts of the messages of an output, in their order.
pub open spec fn messages_in(output: Seq<OutputItemView>) -> Seq<Seq<char>>
    decreases output.len(),
{
    if output.len() == 0 {
        seq![]
    } else {
        match output.last() {
            OutputItemView::Message(message) => messages_in(output.drop_last()).push(
                match message.content[0] {
                    OutputMessageContentView::OutputText(content) => content.text,
                    OutputMessageContentView::Refusal(refusal) => refusal,
                },
            ),
            _ => messages_in(output.drop_last()),
        }
    }
}

/// The summaries of an output, in their order, each with its status.
pub open spec fn summaries_in(output: Seq<OutputItemView>) -> Seq<
    (Seq<char>, Option<OutputStatus>),
>
    decreases output.len(),
{
    if output.len() == 0 {
        seq![]
    } else {
        match output.last() {
            OutputItemView::Reasoning(reasoning) => summaries_in(output.drop_last()).push(
                match reasoning.summary[0] {
                    SummaryPartView::SummaryText(content) => (content.text, reasoning.status),
                },
            ),
            _ => summaries_in(output.drop_last()),
        }
    }
}

/// Whether an output says what the choices brought: the calls, the message and the reasoning,
/// whose text is `ending` longer.
pub open spec fn says(
    output: Seq<OutputItemView>,
    params: ResponseParams,
    choices: Seq<ChatChoiceStream>,
    ending: Seq<char>,
    status: OutputStatus,
) -> bool {
    let pieces = all_pieces(choices);
    let reasoning = shown_reasoning(choices, summary_asked(params));
    &&& calls_in(output) == calls_to_tell(
        params.tools.deep_view(),
        pieces,
        call_count(pieces),
        status,
    )
    &&& messages_in(output) == if all_text(choices).len() > 0 {
        seq![all_text(choices)]
    } else {
        seq![]
    }
    &&& summaries_in(output) == if reasoning.len() > 0 {
        seq![
            (
                reasoning + ending,
                Some(
                    if has_spoken(choices) {
                        OutputStatus::Completed
                    } else {
                        status
                    },
                ),
            ),
        ]
    } else {
        seq![]
    }
}

/// The last token counts that chunks brought.
pub open spec fn last_counts(turns: Seq<Turn>) -> Option<CompletionUsage>
    decreases turns.len(),
{
    if turns.len() == 0 {
        None
    } else if turns.last().chunk.inner.usage is Some {
        turns.last().chunk.inner.usage
    } else {
        last_counts(turns.drop_last())
    }
}

/// Whether the counts of a response are those that came.
pub open spec fn counts_match(came: Option<CompletionUsage>, told: Option<ResponseUsage>) -> bool {
    match came {
        Some(usage) => told matches Some(counted) && counts_as(usage, counted),
        None => told is None,
    }
}

/// The calls below `count` that have brought arguments, as they are to be told.
pub open spec fn calls_to_tell(
    tools: Option<Seq<ToolView>>,
    pieces: Seq<ChatCompletionMessageToolCallChunk>,
    count: nat,
    status: OutputStatus,
) -> Seq<CallTold>
    decreases count,
{
    if count == 0 {
        seq![]
    } else {
        let before = calls_to_tell(tools, pieces, (count - 1) as nat, status);
        if brings(pieces, count - 1) {
            before.push(
                to_tell(tools, pieces, count - 1, all_arguments(pieces, count - 1), status),
            )
        } else {
            before
        }
    }
}

/// The status of an item that ends after the given choices.
pub open spec fn status_after(choices: Seq<ChatChoiceStream>) -> OutputStatus {
    if was_cut(choices) {
        OutputStatus::Incomplete
    } else {
        OutputStatus::Completed
    }
}

/// Whether a converter holds of its calls what their pieces brought.
pub open spec fn calls_stand(
    state: StreamState,
    pieces: Seq<ChatCompletionMessageToolCallChunk>,
) -> bool {
    &&& state.calls.len() == call_count(pieces)
    &&& forall|j: int|
        0 <= j < state.calls.len() ==> call_stands(#[trigger] state.calls[j], pieces, j)
}

/// Whether a call is what its pieces brought.
pub open spec fn call_stands(
    call: CallState,
    pieces: Seq<ChatCompletionMessageToolCallChunk>,
    j: int,
) -> bool {
    &&& call.name == last_name(pieces, j)
    &&& call.call_id == last_id(pieces, j)
    &&& call.arguments == all_arguments(pieces, j)
    &&& call.started == brings(pieces, j)
}

/// Whether a converter holds what the choices brought, besides the calls.
pub open spec fn words_stand(state: StreamState, choices: Seq<ChatChoiceStream>) -> bool {
    let reasoning = shown_reasoning(choices, summary_asked(state.params));
    &&& state.text == all_text(choices)
    &&& state.message_started == (all_text(choices).len() > 0)
    &&& state.reasoning == reasoning
    &&& state.reasoning_started == (reasoning.len() > 0)
    &&& state.reasoning_done == has_spoken(choices)
    &&& state.reasoning_status == if has_spoken(choices) && reasoning.len() > 0 {
        Some(OutputStatus::Completed)
    } else {
        None
    }
    &&& state.output_limit_reached == was_cut(choices)
}

pub proof fn lemma_absent(pieces: Seq<ChatCompletionMessageToolCallChunk>, j: int)
    requires
        j >= call_count(pieces),
    ensures
        last_name(pieces, j) == Seq::<char>::empty(),
        last_id(pieces, j) == Seq::<char>::empty(),
        all_arguments(pieces, j) == Seq::<char>::empty(),
        !brings(pieces, j),
    decreases pieces.len(),
{
    if pieces.len() > 0 {
        let rest = pieces.drop_last();
        lemma_absent(rest, j);
        if brings(pieces, j) {
            let k = choose|k: int|
                0 <= k < pieces.len() && (#[trigger] pieces[k]).index == j && arguments_in(
                    pieces[k],
                ) is Some;
            if k < rest.len() {
                assert(rest[k] == pieces[k]);
            }
        }
    }
}

pub proof fn lemma_brings_push(
    pieces: Seq<ChatCompletionMessageToolCallChunk>,
    piece: ChatCompletionMessageToolCallChunk,
    j: int,
)
    ensures
        brings(pieces.push(piece), j) == (brings(pieces, j) || (piece.index == j && arguments_in(
            piece,
        ) is Some)),
{
    let all = pieces.push(piece);
    if brings(pieces, j) {
        let k = choose|k: int|
            0 <= k < pieces.len() && (#[trigger] pieces[k]).index == j && arguments_in(pieces[k])
                is Some;
        assert(all[k] == pieces[k]);
    }
    if brings(all, j) {
        let k = choose|k: int|
            0 <= k < all.len() && (#[trigger] all[k]).index == j && arguments_in(all[k]) is Some;
        if k < pieces.len() {
            assert(pieces[k] == all[k]);
        }
    }
    assert(all[pieces.len() as int] == piece);
}

/// Every piece is taken to its call.
pub proof fn lemma_piece_stands(
    run: Emitted,
    pieces: Seq<ChatCompletionMessageToolCallChunk>,
    piece: ChatCompletionMessageToolCallChunk,
    ids: Seq<Seq<char>>,
    base: nat,
)
    requires
        calls_stand(run.state, pieces),
    ensures
        calls_stand(on_tool_call(run, piece, ids, base).state, pieces.push(piece)),
{
    let state = run.state;
    let after = on_tool_call(run, piece, ids, base).state;
    let all = pieces.push(piece);
    let reserved = reserve_calls(state, (piece.index + 1) as nat, ids, base);
    lemma_reserve_calls(state, (piece.index + 1) as nat, ids, base);
    assert(all.drop_last() =~= pieces);
    assert(after.calls.len() == call_count(all));
    assert forall|j: int| 0 <= j < after.calls.len() implies call_stands(
        #[trigger] after.calls[j],
        all,
        j,
    ) by {
        lemma_brings_push(pieces, piece, j);
        if j < state.calls.len() {
            assert(reserved.calls[j] == state.calls[j]);
            assert(call_stands(state.calls[j], pieces, j));
        } else {
            lemma_absent(pieces, j);
        }
        if j != piece.index {
            assert(after.calls[j] == reserved.calls[j]);
        }
    }
}

pub proof fn lemma_pieces_stand(
    run: Emitted,
    pieces: Seq<ChatCompletionMessageToolCallChunk>,
    chunks: Seq<ChatCompletionMessageToolCallChunk>,
    from: int,
    ids: Seq<Seq<char>>,
    base: nat,
)
    requires
        0 <= from <= chunks.len(),
        calls_stand(run.state, pieces + chunks.take(from)),
    ensures
        calls_stand(on_tool_calls(run, chunks, from, ids, base).state, pieces + chunks),
    decreases chunks.len() - from,
{
    if from < chunks.len() {
        let next = on_tool_call(run, chunks[from], ids, base);
        lemma_piece_stands(run, pieces + chunks.take(from), chunks[from], ids, base);
        assert((pieces + chunks.take(from)).push(chunks[from]) =~= pieces + chunks.take(from + 1));
        lemma_pieces_stand(next, pieces, chunks, from + 1, ids, base);
    } else {
        assert(chunks.take(from) =~= chunks);
    }
}

/// Whether two states differ in their calls and their counters at most.
pub open spec fn same_words(a: StreamState, b: StreamState) -> bool {
    &&& a.params == b.params
    &&& a.text == b.text
    &&& a.message_started == b.message_started
    &&& a.reasoning == b.reasoning
    &&& a.reasoning_started == b.reasoning_started
    &&& a.reasoning_done == b.reasoning_done
    &&& a.reasoning_status == b.reasoning_status
    &&& a.output_limit_reached == b.output_limit_reached
    &&& a.usage == b.usage
}

pub proof fn lemma_pieces_keep_words(
    run: Emitted,
    chunks: Seq<ChatCompletionMessageToolCallChunk>,
    from: int,
    ids: Seq<Seq<char>>,
    base: nat,
)
    ensures
        same_words(run.state, on_tool_calls(run, chunks, from, ids, base).state),
    decreases chunks.len() - from,
{
    if 0 <= from < chunks.len() {
        lemma_reserve_calls(run.state, (chunks[from].index + 1) as nat, ids, base);
        let next = on_tool_call(run, chunks[from], ids, base);
        assert(same_words(run.state, next.state));
        lemma_pieces_keep_words(next, chunks, from + 1, ids, base);
    }
}

pub proof fn lemma_close_calls_keep(
    run: Emitted,
    from: int,
    pieces: Seq<ChatCompletionMessageToolCallChunk>,
)
    requires
        calls_stand(run.state, pieces),
    ensures
        calls_stand(close_calls(run, from).state, pieces),
        same_words(run.state, close_calls(run, from).state),
    decreases run.state.calls.len() - from,
{
    if 0 <= from < run.state.calls.len() {
        let next = close_call(run, from);
        assert forall|j: int| 0 <= j < next.state.calls.len() implies call_stands(
            #[trigger] next.state.calls[j],
            pieces,
            j,
        ) by {
            assert(call_stands(run.state.calls[j], pieces, j));
        }
        lemma_close_calls_keep(next, from + 1, pieces);
    }
}

/// Every choice adds what it brings.
pub proof fn lemma_choice_stands(
    run: Emitted,
    choices: Seq<ChatChoiceStream>,
    choice: ChatChoiceStream,
    ids: Seq<Seq<char>>,
    base: nat,
)
    requires
        calls_stand(run.state, all_pieces(choices)),
        words_stand(run.state, choices),
    ensures
        ({
            let after = on_choice(run, choice, ids, base).state;
            &&& calls_stand(after, all_pieces(choices.push(choice)))
            &&& words_stand(after, choices.push(choice))
            &&& after.params == run.state.params
            &&& after.usage == run.state.usage
        }),
{
    let all = choices.push(choice);
    let pieces = all_pieces(choices);
    assert(all.drop_last() =~= choices);
    let limited = with_limit(run, choice);
    let reasoned = on_reasoning(limited, choice.delta.reasoning_content);
    let texted = on_text(reasoned, delta_text(choice.delta.content));
    let called = on_tool_delta(texted, choice.delta.tool_calls, ids, base);
    assert(texted.state.calls == run.state.calls);
    assert(pieces + pieces_in(choice) == all_pieces(all));
    let shown = summary_asked(run.state.params);
    assert(limited.state.params.wants_summary() == shown);
    assert(reasoned.state.reasoning =~= shown_reasoning(all, shown));
    assert(texted.state.reasoning == reasoned.state.reasoning);
    assert(texted.state.text =~= all_text(all));
    if pieces_in(choice).len() > 0 {
        let closed = close_reasoning(texted, OutputStatus::Completed);
        let chunks = pieces_in(choice);
        assert(chunks.take(0) =~= Seq::empty());
        assert(pieces + chunks.take(0) =~= pieces);
        lemma_pieces_stand(closed, pieces, chunks, 0, ids, base);
        lemma_pieces_keep_words(closed, chunks, 0, ids, base);
        assert(called == on_tool_calls(closed, chunks, 0, ids, base));
    } else {
        assert(pieces + pieces_in(choice) =~= pieces);
        assert(called == texted);
    }
    assert(calls_stand(called.state, all_pieces(all)));
    assert(words_stand(called.state, all));
    lemma_close_calls_keep(called, 0, all_pieces(all));
}

pub proof fn lemma_choices_stand(
    run: Emitted,
    before: Seq<ChatChoiceStream>,
    choices: Seq<ChatChoiceStream>,
    from: int,
    ids: Seq<Seq<char>>,
    base: nat,
)
    requires
        0 <= from <= choices.len(),
        calls_stand(run.state, all_pieces(before + choices.take(from))),
        words_stand(run.state, before + choices.take(from)),
    ensures
        ({
            let after = on_choices(run, choices, from, ids, base).state;
            &&& calls_stand(after, all_pieces(before + choices))
            &&& words_stand(after, before + choices)
            &&& after.params == run.state.params
            &&& after.usage == run.state.usage
        }),
    decreases choices.len() - from,
{
    if from < choices.len() {
        let next = on_choice(run, choices[from], ids, base);
        lemma_choice_stands(run, before + choices.take(from), choices[from], ids, base);
        assert((before + choices.take(from)).push(choices[from]) =~= before + choices.take(
            from + 1,
        ));
        lemma_choices_stand(next, before, choices, from + 1, ids, base);
    } else {
        assert(choices.take(from) =~= choices);
    }
}

proof fn lemma_chunk_stands(state: StreamState, before: Seq<ChatChoiceStream>, turn: Turn)
    requires
        calls_stand(state, all_pieces(before)),
        words_stand(state, before),
    ensures
        ({
            let after = after_chunk(state, turn.chunk, turn.ids).state;
            let choices = before + turn.chunk.inner.choices@;
            &&& calls_stand(after, all_pieces(choices))
            &&& words_stand(after, choices)
            &&& after.params == state.params
            &&& after.usage == with_counts(state, turn.chunk).usage
        }),
{
    let choices = turn.chunk.inner.choices@;
    let run = Emitted { state: with_counts(state, turn.chunk), events: seq![] };
    assert(choices.take(0) =~= Seq::empty());
    assert(before + choices.take(0) =~= before);
    lemma_choices_stand(run, before, choices, 0, turn.ids, state.calls.len());
}

/// What holds of a converter once its stream has started.
pub open spec fn stream_stands(state: StreamState, params: ResponseParams, turns: Seq<Turn>) -> bool {
    &&& calls_stand(state, all_pieces(choices_of(turns)))
    &&& words_stand(state, choices_of(turns))
    &&& state.params == params
    &&& counts_match(last_counts(turns), state.usage)
}

pub proof fn lemma_stream_stands(state: StreamState, turns: Seq<Turn>, started: u64)
    requires
        is_fresh(state),
    ensures
        stream_stands(stream_so_far(state, turns, started).state, state.params, turns),
    decreases turns.len(),
{
    if turns.len() > 0 {
        let rest = turns.drop_last();
        let before = stream_so_far(state, rest, started);
        lemma_stream_stands(state, rest, started);
        lemma_chunk_stands(before.state, choices_of(rest), turns.last());
        assert(choices_of(turns) == choices_of(rest) + turns.last().chunk.inner.choices@);
    }
}

proof fn lemma_stream_wf(state: StreamState, turns: Seq<Turn>, started: u64)
    requires
        is_fresh(state),
        stream_so_far(state, turns, started).state.fits(),
    ensures
        stream_so_far(state, turns, started).state.wf(),
    decreases turns.len(),
{
    if turns.len() > 0 {
        let before = stream_so_far(state, turns.drop_last(), started);
        let turn = turns.last();
        lemma_choices_grow(
            Emitted { state: with_counts(before.state, turn.chunk), events: seq![] },
            turn.chunk.inner.choices@,
            0,
            turn.ids,
            before.state.calls.len(),
        );
        lemma_stream_wf(state, turns.drop_last(), started);
        law_chunks_keep_indices_distinct(before.state, turn.chunk, turn.ids);
    }
}

proof fn lemma_output_lists(
    state: StreamState,
    pieces: Seq<ChatCompletionMessageToolCallChunk>,
    end: nat,
    m: nat,
    status: OutputStatus,
)
    requires
        state.wf(),
        calls_stand(state, pieces),
        m <= state.calls.len(),
        forall|j: int| 0 <= j < m ==> (#[trigger] state.calls[j]).output_index < end,
        forall|j: int|
            m <= j < state.calls.len() ==> (#[trigger] state.calls[j]).output_index >= end,
    ensures
        ({
            let output = state.output_below(end, status);
            &&& calls_in(output) == calls_to_tell(
                state.params.tools.deep_view(),
                pieces,
                m,
                status,
            )
            &&& messages_in(output) == if state.message_started && state.message_output_index
                < end {
                seq![state.text]
            } else {
                seq![]
            }
            &&& summaries_in(output) == if state.reasoning_started
                && state.reasoning_output_index < end {
                seq![(state.reasoning, Some(state.reasoning_status.unwrap_or(status)))]
            } else {
                seq![]
            }
        }),
    decreases end,
{
    if end > 0 {
        let last = (end - 1) as nat;
        let before = state.output_below(last, status);
        let output = state.output_below(end, status);
        let item = state.item_at(last, status);
        if item is Some {
            assert(output.drop_last() =~= before);
        }
        if m > 0 && state.calls[m - 1].output_index == last {
            lemma_output_lists(state, pieces, last, (m - 1) as nat, status);
            assert(call_stands(state.calls[m - 1], pieces, m - 1));
            if state.calls[m - 1].started {
                assert(state.is_started_call(m - 1, last));
                let j = choose|j: int| state.is_started_call(j, last);
                assert(j == m - 1);
            }
        } else {
            assert forall|j: int| 0 <= j < m implies (#[trigger] state.calls[j]).output_index
                < last by {
                if j < m - 1 {
                    assert(state.calls[j].output_index < state.calls[m - 1].output_index);
                }
            }
            lemma_output_lists(state, pieces, last, m, status);
            if exists|j: int| state.is_started_call(j, last) {
                let j = choose|j: int| state.is_started_call(j, last);
                assert(state.calls[j].output_index == last);
            }
        }
        assert(Seq::<Seq<char>>::empty().push(state.text) =~= seq![state.text]);
        let summary = (state.reasoning, Some(state.reasoning_status.unwrap_or(status)));
        assert(Seq::<(Seq<char>, Option<OutputStatus>)>::empty().push(summary) =~= seq![summary]);
    } else if m > 0 {
        assert(state.calls[0].output_index < end);
    }
}

/// At any time of a stream the output says what the chunks have brought so far. Each call that
/// has brought arguments stands in it, in the order of the indices of the calls: under the last
/// id and as the tool of the last name that came with its index, and with all of its arguments
/// joined. The message is all text, and the reasoning is what came before the first text or call.
pub proof fn law_output_says_what_came(
    state: StreamState,
    turns: Seq<Turn>,
    started: u64,
    status: OutputStatus,
)
    requires
        is_fresh(state),
        stream_so_far(state, turns, started).state.fits(),
    ensures
        ({
            let sent = stream_so_far(state, turns, started);
            &&& says(
                sent.state.output(status),
                state.params,
                choices_of(turns),
                seq![],
                status,
            )
            &&& counts_match(last_counts(turns), sent.state.usage)
        }),
{
    let sent = stream_so_far(state, turns, started).state;
    let choices = choices_of(turns);
    lemma_stream_stands(state, turns, started);
    lemma_stream_wf(state, turns, started);
    lemma_output_lists(
        sent,
        all_pieces(choices),
        sent.next_output_index,
        sent.calls.len(),
        status,
    );
    let reasoning = shown_reasoning(choices, summary_asked(state.params));
    assert(reasoning + Seq::<char>::empty() =~= reasoning);
}

/// The response at the end of a stream says what its chunks brought. Reasoning that the token
/// limit cut off ends in an ellipsis; the token counts are the last that came.
pub proof fn law_final_response_says_what_came(
    state: StreamState,
    turns: Seq<Turn>,
    started: u64,
    ended: u64,
)
    requires
        is_fresh(state),
        whole_stream(state, turns, started, ended).state.fits(),
    ensures
        ({
            let whole = whole_stream(state, turns, started, ended);
            let choices = choices_of(turns);
            carried(whole.events.last().payload) matches Some(response) && {
                &&& says(
                    response.output,
                    state.params,
                    choices,
                    if was_cut(choices) && !has_spoken(choices) {
                        "..."@
                    } else {
                        seq![]
                    },
                    status_after(choices),
                )
                &&& counts_match(last_counts(turns), response.usage)
            }
        }),
{
    let sent = stream_so_far(state, turns, started);
    let choices = choices_of(turns);
    let pieces = all_pieces(choices);
    let status = sent.state.output_status();
    let reasoned = close_reasoning(Emitted { state: sent.state, events: seq![] }, status);
    let messaged = close_message(reasoned);
    let closed = close_calls(messaged, 0);
    let end = after_end(sent.state, ended);
    lemma_stream_stands(state, turns, started);
    lemma_close_calls_grow(messaged, 0);
    lemma_stream_wf(state, turns, started);
    assert(messaged.state.wf());
    lemma_close_calls_wf(messaged, 0);
    assert(messaged.state.calls == sent.state.calls);
    assert(calls_stand(messaged.state, pieces));
    lemma_close_calls_keep(messaged, 0, pieces);
    assert(status == status_after(choices));
    lemma_output_lists(
        closed.state,
        pieces,
        closed.state.next_output_index,
        closed.state.calls.len(),
        status,
    );
    let reasoning = shown_reasoning(choices, summary_asked(state.params));
    assert(reasoning + Seq::<char>::empty() =~= reasoning);
    let whole = whole_stream(state, turns, started, ended);
    assert(whole.events.last() == end.events.last());
}

} // verus!
