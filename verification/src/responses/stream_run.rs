//! Whole streams: what holds from the first event of a response to its last.

use vstd::prelude::*;

use crate::chat::{
    ChatChoiceStream, ChatCompletionMessageToolCallChunk, FinishReason,
    NvCreateChatCompletionStreamResponse,
};
use crate::responses::stream::{
    after_chunk, after_end, after_start, close_call, close_calls, close_message, close_reasoning,
    delta_text, fresh_state, on_choice, on_choices, on_reasoning, on_text, on_tool_call,
    on_tool_calls, on_tool_delta, Emitted, StreamState,
};
use crate::responses::stream_laws::lemma_reserve_calls;
use crate::responses::stream_order::{is_terminal, with_counts, with_limit};
use crate::responses::stream_output::carried;
use crate::responses::types::{OutputStatus, ResponseStreamEventView, Status};

verus! {

/// A chunk, and the item ids that its new calls take.
pub struct Turn {
    pub chunk: NvCreateChatCompletionStreamResponse,
    pub ids: Seq<Seq<char>>,
}

/// Whether a converter has seen nothing yet.
pub open spec fn is_fresh(state: StreamState) -> bool {
    state == fresh_state(
        state.model,
        state.params,
        state.context,
        state.response_id,
        state.message_item_id,
        state.reasoning_item_id,
        state.created_at,
    )
}

/// One chunk after what was emitted before.
pub open spec fn with_chunk(run: Emitted, turn: Turn) -> Emitted {
    let sent = after_chunk(run.state, turn.chunk, turn.ids);
    Emitted { state: sent.state, events: run.events + sent.events }
}

/// The chunks, one after the other, after what was emitted before.
pub open spec fn with_chunks(run: Emitted, turns: Seq<Turn>) -> Emitted
    decreases turns.len(),
{
    if turns.len() == 0 {
        run
    } else {
        with_chunk(with_chunks(run, turns.drop_last()), turns.last())
    }
}

/// A stream so far: its start, at the given time, and its chunks.
pub open spec fn stream_so_far(state: StreamState, turns: Seq<Turn>, started: u64) -> Emitted {
    with_chunks(after_start(state, started), turns)
}

/// A whole stream: its start, its chunks and its end.
pub open spec fn whole_stream(
    state: StreamState,
    turns: Seq<Turn>,
    started: u64,
    ended: u64,
) -> Emitted {
    let before = stream_so_far(state, turns, started);
    let end = after_end(before.state, ended);
    Emitted { state: end.state, events: before.events + end.events }
}

/// Whether a chunk says that the token limit cut a choice off.
pub open spec fn cuts_off(chunk: NvCreateChatCompletionStreamResponse) -> bool {
    exists|c: int|
        0 <= c < chunk.inner.choices@.len() && (
        #[trigger] chunk.inner.choices@[c]).finish_reason == Some(FinishReason::Length)
}

/// Whether some chunk says that the token limit cut a choice off.
pub open spec fn some_cuts_off(turns: Seq<Turn>) -> bool {
    exists|t: int| 0 <= t < turns.len() && cuts_off((#[trigger] turns[t]).chunk)
}

/// Whether events are numbered from `first` on, without a gap.
pub open spec fn numbered(first: nat, events: Seq<ResponseStreamEventView>) -> bool {
    forall|k: int|
        0 <= k < events.len() ==> (#[trigger] events[k]).sequence_number == first + k
}

/// Whether what was emitted is numbered from `first` on and holds no terminal event, and the
/// token limit was reached as said.
spec fn told(first: nat, limit: bool, run: Emitted) -> bool {
    &&& run.state.sequence_number == first + run.events.len()
    &&& run.state.output_limit_reached == limit
    &&& forall|k: int|
        0 <= k < run.events.len() ==> {
            &&& (#[trigger] run.events[k]).sequence_number == (first + k) as u64
            &&& !is_terminal(run.events[k].payload)
        }
}

proof fn lemma_reasoning_told(first: nat, limit: bool, run: Emitted, text: Option<String>)
    requires
        told(first, limit, run),
    ensures
        told(first, limit, on_reasoning(run, text)),
{
}

proof fn lemma_closed_told(first: nat, limit: bool, run: Emitted, status: OutputStatus)
    requires
        told(first, limit, run),
    ensures
        told(first, limit, close_reasoning(run, status)),
        told(first, limit, close_message(run)),
{
}

proof fn lemma_text_told(first: nat, limit: bool, run: Emitted, delta: Seq<char>)
    requires
        told(first, limit, run),
    ensures
        told(first, limit, on_text(run, delta)),
{
    lemma_closed_told(first, limit, run, OutputStatus::Completed);
}

proof fn lemma_tool_calls_told(
    first: nat,
    limit: bool,
    run: Emitted,
    chunks: Seq<ChatCompletionMessageToolCallChunk>,
    from: int,
    ids: Seq<Seq<char>>,
    base: nat,
)
    requires
        told(first, limit, run),
    ensures
        told(first, limit, on_tool_calls(run, chunks, from, ids, base)),
    decreases chunks.len() - from,
{
    if 0 <= from < chunks.len() {
        let next = on_tool_call(run, chunks[from], ids, base);
        lemma_reserve_calls(run.state, (chunks[from].index + 1) as nat, ids, base);
        assert(told(first, limit, next));
        lemma_tool_calls_told(first, limit, next, chunks, from + 1, ids, base);
    }
}

proof fn lemma_close_calls_told(first: nat, limit: bool, run: Emitted, from: int)
    requires
        told(first, limit, run),
    ensures
        told(first, limit, close_calls(run, from)),
    decreases run.state.calls.len() - from,
{
    if 0 <= from < run.state.calls.len() {
        lemma_close_calls_told(first, limit, close_call(run, from), from + 1);
    }
}

proof fn lemma_choice_told(
    first: nat,
    limit: bool,
    run: Emitted,
    choice: ChatChoiceStream,
    ids: Seq<Seq<char>>,
    base: nat,
)
    requires
        told(first, limit, run),
    ensures
        told(
            first,
            limit || choice.finish_reason == Some(FinishReason::Length),
            on_choice(run, choice, ids, base),
        ),
{
    let now = limit || choice.finish_reason == Some(FinishReason::Length);
    let limited = with_limit(run, choice);
    let reasoned = on_reasoning(limited, choice.delta.reasoning_content);
    let texted = on_text(reasoned, delta_text(choice.delta.content));
    let called = on_tool_delta(texted, choice.delta.tool_calls, ids, base);
    assert(told(first, now, limited));
    lemma_reasoning_told(first, now, limited, choice.delta.reasoning_content);
    lemma_text_told(first, now, reasoned, delta_text(choice.delta.content));
    if let Some(all) = choice.delta.tool_calls {
        let closed = close_reasoning(texted, OutputStatus::Completed);
        lemma_closed_told(first, now, texted, OutputStatus::Completed);
        lemma_tool_calls_told(first, now, closed, all@, 0, ids, base);
    }
    lemma_close_calls_told(first, now, called, 0);
}

/// Whether a choice from position `from` on was cut off.
spec fn cut_off_from(choices: Seq<ChatChoiceStream>, from: int) -> bool {
    exists|c: int|
        from <= c < choices.len() && (#[trigger] choices[c]).finish_reason == Some(
            FinishReason::Length,
        )
}

proof fn lemma_choices_told(
    first: nat,
    limit: bool,
    run: Emitted,
    choices: Seq<ChatChoiceStream>,
    from: int,
    ids: Seq<Seq<char>>,
    base: nat,
)
    requires
        0 <= from,
        told(first, limit, run),
    ensures
        told(
            first,
            limit || cut_off_from(choices, from),
            on_choices(run, choices, from, ids, base),
        ),
    decreases choices.len() - from,
{
    if from < choices.len() {
        let cut = choices[from].finish_reason == Some(FinishReason::Length);
        let next = on_choice(run, choices[from], ids, base);
        lemma_choice_told(first, limit, run, choices[from], ids, base);
        lemma_choices_told(first, limit || cut, next, choices, from + 1, ids, base);
        assert(cut_off_from(choices, from) == (cut || cut_off_from(choices, from + 1))) by {
            if cut_off_from(choices, from + 1) {
                let c = choose|c: int|
                    from + 1 <= c < choices.len() && (#[trigger] choices[c]).finish_reason == Some(
                        FinishReason::Length,
                    );
                assert(choices[c].finish_reason == Some(FinishReason::Length));
            }
        }
    }
}

proof fn lemma_chunk_told(state: StreamState, turn: Turn)
    ensures
        told(
            state.sequence_number,
            state.output_limit_reached || cuts_off(turn.chunk),
            after_chunk(state, turn.chunk, turn.ids),
        ),
{
    let run = Emitted { state: with_counts(state, turn.chunk), events: seq![] };
    let choices = turn.chunk.inner.choices@;
    lemma_choices_told(
        state.sequence_number,
        state.output_limit_reached,
        run,
        choices,
        0,
        turn.ids,
        state.calls.len(),
    );
    assert(cut_off_from(choices, 0) == cuts_off(turn.chunk));
}

/// The events of every chunk go on numbering where those before them ended, and none of them
/// ends the response. The token limit is reached once a choice was cut off by it, and stays so.
pub proof fn law_chunks_are_numbered_without_a_gap(
    state: StreamState,
    chunk: NvCreateChatCompletionStreamResponse,
    ids: Seq<Seq<char>>,
)
    requires
        after_chunk(state, chunk, ids).state.fits(),
    ensures
        ({
            let sent = after_chunk(state, chunk, ids);
            &&& numbered(state.sequence_number, sent.events)
            &&& sent.state.sequence_number == state.sequence_number + sent.events.len()
            &&& forall|k: int|
                0 <= k < sent.events.len() ==> !is_terminal((#[trigger] sent.events[k]).payload)
            &&& sent.state.output_limit_reached == (state.output_limit_reached || cuts_off(chunk))
        }),
{
    lemma_chunk_told(state, Turn { chunk, ids });
}

proof fn lemma_chunks_told(first: nat, run: Emitted, turns: Seq<Turn>)
    requires
        told(first, run.state.output_limit_reached, run),
    ensures
        told(
            first,
            run.state.output_limit_reached || some_cuts_off(turns),
            with_chunks(run, turns),
        ),
    decreases turns.len(),
{
    if turns.len() > 0 {
        let rest = turns.drop_last();
        let before = with_chunks(run, rest);
        let turn = turns.last();
        let sent = after_chunk(before.state, turn.chunk, turn.ids);
        let after = with_chunks(run, turns);
        lemma_chunks_told(first, run, rest);
        lemma_chunk_told(before.state, turn);
        assert(some_cuts_off(turns) == (some_cuts_off(rest) || cuts_off(turn.chunk))) by {
            assert(turns[turns.len() - 1] == turn);
            if some_cuts_off(rest) {
                let t = choose|t: int| 0 <= t < rest.len() && cuts_off((#[trigger] rest[t]).chunk);
                assert(turns[t] == rest[t]);
            }
            if some_cuts_off(turns) {
                let t = choose|t: int|
                    0 <= t < turns.len() && cuts_off((#[trigger] turns[t]).chunk);
                if t < rest.len() {
                    assert(turns[t] == rest[t]);
                }
            }
        }
        assert forall|k: int| 0 <= k < after.events.len() implies {
            &&& (#[trigger] after.events[k]).sequence_number == (first + k) as u64
            &&& !is_terminal(after.events[k].payload)
        } by {
            if k >= before.events.len() {
                assert(after.events[k] == sent.events[k - before.events.len()]);
            } else {
                assert(after.events[k] == before.events[k]);
            }
        }
    }
}

proof fn lemma_stream_told(state: StreamState, turns: Seq<Turn>, started: u64)
    requires
        is_fresh(state),
    ensures
        told(0, some_cuts_off(turns), stream_so_far(state, turns, started)),
{
    assert(told(0, false, after_start(state, started)));
    lemma_chunks_told(0, after_start(state, started), turns);
}

/// What was emitted first stays where it is.
proof fn lemma_starts_kept(run: Emitted, turns: Seq<Turn>)
    ensures
        run.events.len() <= with_chunks(run, turns).events.len(),
        forall|k: int|
            0 <= k < run.events.len() ==> #[trigger] with_chunks(run, turns).events[k]
                == run.events[k],
    decreases turns.len(),
{
    if turns.len() > 0 {
        lemma_starts_kept(run, turns.drop_last());
    }
}

/// The end of a stream, before its terminal event.
spec fn closed_end(state: StreamState) -> Emitted {
    let run = Emitted { state, events: seq![] };
    close_calls(close_message(close_reasoning(run, state.output_status())), 0)
}

proof fn lemma_end_told(state: StreamState, now: u64)
    ensures
        told(state.sequence_number, state.output_limit_reached, closed_end(state)),
        after_end(state, now).events.drop_last() == closed_end(state).events,
        after_end(state, now).events.len() == closed_end(state).events.len() + 1,
        after_end(state, now).events.last().sequence_number
            == closed_end(state).state.sequence_number as u64,
        after_end(state, now).state.sequence_number == closed_end(state).state.sequence_number + 1,
{
    let first = state.sequence_number;
    let limit = state.output_limit_reached;
    let run = Emitted { state, events: seq![] };
    let reasoned = close_reasoning(run, state.output_status());
    lemma_closed_told(first, limit, run, state.output_status());
    lemma_closed_told(first, limit, reasoned, state.output_status());
    lemma_close_calls_told(first, limit, close_message(reasoned), 0);
    assert(after_end(state, now).events.drop_last() =~= closed_end(state).events);
}

/// A stream starts with `response.created` and `response.in_progress`, and all of its events
/// are numbered from 0 on without a gap.
pub proof fn law_streams_are_numbered_without_a_gap(
    state: StreamState,
    turns: Seq<Turn>,
    started: u64,
    ended: u64,
)
    requires
        is_fresh(state),
        whole_stream(state, turns, started, ended).state.fits(),
    ensures
        ({
            let all = whole_stream(state, turns, started, ended).events;
            &&& numbered(0, all)
            &&& all.len() >= 3
            &&& all[0].payload is ResponseCreated
            &&& all[1].payload is ResponseInProgress
        }),
{
    let before = stream_so_far(state, turns, started);
    let end = after_end(before.state, ended);
    let closed = closed_end(before.state);
    let all = whole_stream(state, turns, started, ended).events;
    lemma_stream_told(state, turns, started);
    lemma_end_told(before.state, ended);
    let begun = after_start(state, started).events;
    lemma_starts_kept(after_start(state, started), turns);
    assert(begun.len() == 2);
    assert(before.events[0] == begun[0]);
    assert(before.events[1] == begun[1]);
    assert forall|k: int| 0 <= k < all.len() implies (#[trigger] all[k]).sequence_number == k by {
        let at = k - before.events.len();
        if at < 0 {
            assert(all[k] == before.events[k]);
        } else if at < closed.events.len() {
            assert(all[k] == end.events.drop_last()[at]);
            assert(all[k] == closed.events[at]);
        } else {
            assert(all[k] == end.events.last());
        }
    }
}

/// The last event of a stream is the only one that ends it: `response.incomplete` if some
/// choice was cut off by the token limit, and `response.completed` otherwise. The response in
/// it says so too.
pub proof fn law_streams_end_once(
    state: StreamState,
    turns: Seq<Turn>,
    started: u64,
    ended: u64,
)
    requires
        is_fresh(state),
    ensures
        ({
            let all = whole_stream(state, turns, started, ended).events;
            let cut = some_cuts_off(turns);
            &&& forall|k: int|
                0 <= k < all.len() - 1 ==> !is_terminal((#[trigger] all[k]).payload)
            &&& cut ==> all.last().payload is ResponseIncomplete
            &&& !cut ==> all.last().payload is ResponseCompleted
            &&& carried(all.last().payload) matches Some(response) && {
                &&& response.status == if cut {
                    Status::Incomplete
                } else {
                    Status::Completed
                }
                &&& cut ==> response.incomplete_details.is_some()
                    && response.incomplete_details->0.reason == "max_output_tokens"@
                &&& !cut ==> response.incomplete_details is None
                &&& response.completed_at == if cut {
                    None
                } else {
                    Some(ended)
                }
            }
        }),
{
    let before = stream_so_far(state, turns, started);
    let end = after_end(before.state, ended);
    let closed = closed_end(before.state);
    let all = whole_stream(state, turns, started, ended).events;
    lemma_stream_told(state, turns, started);
    lemma_end_told(before.state, ended);
    assert(all.last() == end.events.last());
    assert forall|k: int| 0 <= k < all.len() - 1 implies !is_terminal(
        (#[trigger] all[k]).payload,
    ) by {
        let at = k - before.events.len();
        if at < 0 {
            assert(all[k] == before.events[k]);
        } else {
            assert(all[k] == end.events.drop_last()[at]);
            assert(all[k] == closed.events[at]);
        }
    }
}

} // verus!
