//! What every step of a response stream keeps, and what a whole stream promises.

use vstd::prelude::*;

use crate::chat::{
    ChatChoiceStream, ChatCompletionMessageToolCallChunk, FinishReason,
    NvCreateChatCompletionStreamResponse,
};
use crate::responses::room::{choice_below, choice_cost, choices_cost, has_room, CALL_LIMIT};
use crate::responses::stream::{
    after_chunk, after_end, after_error, chunk_fits, close_call, close_calls, close_message,
    close_reasoning, delta_text, is_truncation_error, on_choice, on_choices, on_reasoning, on_text,
    on_tool_call, on_tool_calls, on_tool_delta, reserve_calls, reserved_call, with_state,
    BackendError, Emitted, StreamState,
};
use crate::responses::types::OutputStatus;

verus! {

/// Neither counter falls, and reasoning starts only where a summary was asked for.
pub open spec fn grows(before: StreamState, after: StreamState) -> bool {
    &&& before.sequence_number <= after.sequence_number
    &&& before.next_output_index <= after.next_output_index
    &&& before.params == after.params
    &&& after.reasoning_started ==> before.reasoning_started || before.params.wants_summary()
}

pub proof fn lemma_reserve_calls(
    state: StreamState,
    count: nat,
    ids: Seq<Seq<char>>,
    base: nat,
)
    ensures
        grows(state, reserve_calls(state, count, ids, base)),
        ({
            let after = reserve_calls(state, count, ids, base);
            &&& after.calls.len() == if state.calls.len() < count {
                count
            } else {
                state.calls.len()
            }
            &&& after.next_output_index - after.calls.len() == state.next_output_index
                - state.calls.len()
            &&& forall|j: int| 0 <= j < state.calls.len() ==> after.calls[j] == state.calls[j]
            &&& forall|j: int|
                state.calls.len() <= j < after.calls.len() ==> {
                    &&& (#[trigger] after.calls[j]) == reserved_call(
                        ids[j - base],
                        (state.next_output_index + j - state.calls.len()) as nat,
                    )
                }
            &&& after == StreamState {
                calls: after.calls,
                next_output_index: after.next_output_index,
                ..state
            }
        }),
    decreases count - state.calls.len(),
{
    if state.calls.len() < count {
        let one = StreamState {
            calls: state.calls.push(
                reserved_call(ids[state.calls.len() - base], state.next_output_index),
            ),
            next_output_index: state.next_output_index + 1,
            ..state
        };
        lemma_reserve_calls(one, count, ids, base);
        let after = reserve_calls(one, count, ids, base);
        assert forall|j: int| 0 <= j < state.calls.len() implies after.calls[j]
            == state.calls[j] by {
            assert(after.calls[j] == one.calls[j]);
        }
        assert(after.calls[state.calls.len() as int] == one.calls[state.calls.len() as int]);
    }
}

pub proof fn lemma_tool_call_grows(
    run: Emitted,
    chunk: ChatCompletionMessageToolCallChunk,
    ids: Seq<Seq<char>>,
    base: nat,
)
    ensures
        grows(run.state, on_tool_call(run, chunk, ids, base).state),
        grows(
            reserve_calls(run.state, (chunk.index + 1) as nat, ids, base),
            on_tool_call(run, chunk, ids, base).state,
        ),
        on_tool_call(run, chunk, ids, base).state.calls.len() == reserve_calls(
            run.state,
            (chunk.index + 1) as nat,
            ids,
            base,
        ).calls.len(),
{
    lemma_reserve_calls(run.state, (chunk.index + 1) as nat, ids, base);
}

pub proof fn lemma_tool_calls_grow(
    run: Emitted,
    chunks: Seq<ChatCompletionMessageToolCallChunk>,
    from: int,
    ids: Seq<Seq<char>>,
    base: nat,
)
    ensures
        grows(run.state, on_tool_calls(run, chunks, from, ids, base).state),
    decreases chunks.len() - from,
{
    if 0 <= from < chunks.len() {
        lemma_tool_call_grows(run, chunks[from], ids, base);
        lemma_tool_calls_grow(on_tool_call(run, chunks[from], ids, base), chunks, from + 1, ids, base);
    }
}

pub proof fn lemma_close_calls_grow(run: Emitted, from: int)
    ensures
        grows(run.state, close_calls(run, from).state),
    decreases run.state.calls.len() - from,
{
    if 0 <= from < run.state.calls.len() {
        lemma_close_calls_grow(close_call(run, from), from + 1);
    }
}

pub proof fn lemma_tool_delta_grows(
    run: Emitted,
    chunks: Option<Vec<ChatCompletionMessageToolCallChunk>>,
    ids: Seq<Seq<char>>,
    base: nat,
)
    ensures
        grows(run.state, on_tool_delta(run, chunks, ids, base).state),
{
    if let Some(all) = chunks {
        lemma_tool_calls_grow(
            close_reasoning(run, OutputStatus::Completed),
            all@,
            0,
            ids,
            base,
        );
    }
}

pub proof fn lemma_choice_grows(
    run: Emitted,
    choice: ChatChoiceStream,
    ids: Seq<Seq<char>>,
    base: nat,
)
    ensures
        grows(run.state, on_choice(run, choice, ids, base).state),
{
    let limited = if choice.finish_reason == Some(FinishReason::Length) {
        with_state(run, StreamState { output_limit_reached: true, ..run.state })
    } else {
        run
    };
    let reasoned = on_reasoning(limited, choice.delta.reasoning_content);
    let texted = on_text(reasoned, delta_text(choice.delta.content));
    lemma_tool_delta_grows(texted, choice.delta.tool_calls, ids, base);
    lemma_close_calls_grow(on_tool_delta(texted, choice.delta.tool_calls, ids, base), 0);
}

pub proof fn lemma_choices_grow(
    run: Emitted,
    choices: Seq<ChatChoiceStream>,
    from: int,
    ids: Seq<Seq<char>>,
    base: nat,
)
    ensures
        grows(run.state, on_choices(run, choices, from, ids, base).state),
    decreases choices.len() - from,
{
    if 0 <= from < choices.len() {
        lemma_choice_grows(run, choices[from], ids, base);
        lemma_choices_grow(on_choice(run, choices[from], ids, base), choices, from + 1, ids, base);
    }
}

pub proof fn lemma_tool_call_wf(
    run: Emitted,
    chunk: ChatCompletionMessageToolCallChunk,
    ids: Seq<Seq<char>>,
    base: nat,
)
    requires
        run.state.wf(),
        on_tool_call(run, chunk, ids, base).state.fits(),
    ensures
        on_tool_call(run, chunk, ids, base).state.wf(),
{
    lemma_reserve_calls(run.state, (chunk.index + 1) as nat, ids, base);
}

pub proof fn lemma_tool_calls_wf(
    run: Emitted,
    chunks: Seq<ChatCompletionMessageToolCallChunk>,
    from: int,
    ids: Seq<Seq<char>>,
    base: nat,
)
    requires
        run.state.wf(),
        on_tool_calls(run, chunks, from, ids, base).state.fits(),
    ensures
        on_tool_calls(run, chunks, from, ids, base).state.wf(),
    decreases chunks.len() - from,
{
    if 0 <= from < chunks.len() {
        let next = on_tool_call(run, chunks[from], ids, base);
        lemma_tool_calls_grow(next, chunks, from + 1, ids, base);
        lemma_tool_call_wf(run, chunks[from], ids, base);
        lemma_tool_calls_wf(next, chunks, from + 1, ids, base);
    }
}

pub proof fn lemma_close_calls_wf(run: Emitted, from: int)
    requires
        run.state.wf(),
        close_calls(run, from).state.fits(),
    ensures
        close_calls(run, from).state.wf(),
    decreases run.state.calls.len() - from,
{
    if 0 <= from < run.state.calls.len() {
        lemma_close_calls_grow(close_call(run, from), from + 1);
        lemma_close_calls_wf(close_call(run, from), from + 1);
    }
}

pub proof fn lemma_choice_wf(
    run: Emitted,
    choice: ChatChoiceStream,
    ids: Seq<Seq<char>>,
    base: nat,
)
    requires
        run.state.wf(),
        on_choice(run, choice, ids, base).state.fits(),
    ensures
        on_choice(run, choice, ids, base).state.wf(),
{
    let limited = if choice.finish_reason == Some(FinishReason::Length) {
        with_state(run, StreamState { output_limit_reached: true, ..run.state })
    } else {
        run
    };
    let reasoned = on_reasoning(limited, choice.delta.reasoning_content);
    let texted = on_text(reasoned, delta_text(choice.delta.content));
    let called = on_tool_delta(texted, choice.delta.tool_calls, ids, base);
    lemma_tool_delta_grows(texted, choice.delta.tool_calls, ids, base);
    lemma_close_calls_grow(called, 0);
    assert(limited.state.wf());
    assert(reasoned.state.wf());
    if delta_text(choice.delta.content).len() > 0 {
        assert(close_reasoning(reasoned, OutputStatus::Completed).state.wf());
    }
    assert(texted.state.wf());
    let closed = close_reasoning(texted, OutputStatus::Completed);
    if let Some(all) = choice.delta.tool_calls {
        if all@.len() > 0 {
            lemma_tool_calls_grow(closed, all@, 0, ids, base);
            assert(closed.state.wf());
            lemma_tool_calls_wf(closed, all@, 0, ids, base);
        }
    }
    if choice.finish_reason is Some {
        lemma_close_calls_wf(called, 0);
    }
}

pub proof fn lemma_choices_wf(
    run: Emitted,
    choices: Seq<ChatChoiceStream>,
    from: int,
    ids: Seq<Seq<char>>,
    base: nat,
)
    requires
        run.state.wf(),
        on_choices(run, choices, from, ids, base).state.fits(),
    ensures
        on_choices(run, choices, from, ids, base).state.wf(),
    decreases choices.len() - from,
{
    if 0 <= from < choices.len() {
        let next = on_choice(run, choices[from], ids, base);
        lemma_choices_grow(next, choices, from + 1, ids, base);
        lemma_choice_wf(run, choices[from], ids, base);
        lemma_choices_wf(next, choices, from + 1, ids, base);
    }
}

/// Every chunk keeps the output indices distinct and the calls in the order of theirs.
pub proof fn law_chunks_keep_indices_distinct(
    state: StreamState,
    chunk: NvCreateChatCompletionStreamResponse,
    ids: Seq<Seq<char>>,
)
    requires
        state.wf(),
        after_chunk(state, chunk, ids).state.fits(),
    ensures
        after_chunk(state, chunk, ids).state.wf(),
{
    let counted = StreamState {
        usage: match chunk.inner.usage {
            Some(usage) => Some(crate::responses::response::usage_of(usage)),
            None => state.usage,
        },
        ..state
    };
    assert(counted.wf());
    lemma_choices_wf(
        Emitted { state: counted, events: seq![] },
        chunk.inner.choices@,
        0,
        ids,
        state.calls.len(),
    );
}

pub proof fn lemma_end_wf(state: StreamState, now: u64)
    requires
        state.wf(),
        after_end(state, now).state.fits(),
    ensures
        after_end(state, now).state.wf(),
{
    let run = Emitted { state, events: seq![] };
    let reasoned = close_reasoning(run, state.output_status());
    let messaged = close_message(reasoned);
    lemma_close_calls_grow(messaged, 0);
    assert(reasoned.state.wf());
    assert(messaged.state.wf());
    lemma_close_calls_wf(messaged, 0);
}

/// The output index counter counts the items that have one.
pub open spec fn counts_items(state: StreamState) -> bool {
    state.next_output_index == state.calls.len() + (if state.reasoning_started {
        1int
    } else {
        0
    }) + (if state.message_started {
        1int
    } else {
        0
    })
}

/// A step that emits at most `cost` events and, where there were at most `limit` calls,
/// leaves at most `limit`.
pub open spec fn bounded_step(
    before: StreamState,
    after: StreamState,
    cost: nat,
    limit: nat,
) -> bool {
    &&& counts_items(before) ==> counts_items(after)
    &&& before.calls.len() <= limit ==> after.calls.len() <= limit
    &&& after.sequence_number <= before.sequence_number + cost
}

proof fn lemma_tool_calls_bounded(
    run: Emitted,
    chunks: Seq<ChatCompletionMessageToolCallChunk>,
    from: int,
    ids: Seq<Seq<char>>,
    base: nat,
    limit: nat,
)
    requires
        0 <= from <= chunks.len(),
        forall|k: int| 0 <= k < chunks.len() ==> (#[trigger] chunks[k]).index < limit,
    ensures
        bounded_step(
            run.state,
            on_tool_calls(run, chunks, from, ids, base).state,
            (2 * (chunks.len() - from)) as nat,
            limit,
        ),
    decreases chunks.len() - from,
{
    if from < chunks.len() {
        lemma_reserve_calls(run.state, (chunks[from].index + 1) as nat, ids, base);
        lemma_tool_calls_bounded(
            on_tool_call(run, chunks[from], ids, base),
            chunks,
            from + 1,
            ids,
            base,
            limit,
        );
    }
}

proof fn lemma_close_calls_bounded(run: Emitted, from: int, limit: nat)
    requires
        run.state.calls.len() <= limit,
        0 <= from,
    ensures
        bounded_step(
            run.state,
            close_calls(run, from).state,
            if from < limit {
                (2 * (limit - from)) as nat
            } else {
                0
            },
            limit,
        ),
        close_calls(run, from).state.next_output_index == run.state.next_output_index,
    decreases run.state.calls.len() - from,
{
    if from < run.state.calls.len() {
        lemma_close_calls_bounded(close_call(run, from), from + 1, limit);
    }
}

proof fn lemma_choice_bounded(
    run: Emitted,
    choice: ChatChoiceStream,
    ids: Seq<Seq<char>>,
    base: nat,
    limit: nat,
)
    requires
        run.state.calls.len() <= limit,
        choice_below(choice, limit),
    ensures
        bounded_step(
            run.state,
            on_choice(run, choice, ids, base).state,
            choice_cost(choice, limit),
            limit,
        ),
{
    let limited = if choice.finish_reason == Some(FinishReason::Length) {
        with_state(run, StreamState { output_limit_reached: true, ..run.state })
    } else {
        run
    };
    let reasoned = on_reasoning(limited, choice.delta.reasoning_content);
    let closed = close_reasoning(reasoned, OutputStatus::Completed);
    let texted = on_text(reasoned, delta_text(choice.delta.content));
    assert(bounded_step(run.state, reasoned.state, 3, limit));
    assert(bounded_step(reasoned.state, closed.state, 3, limit));
    assert(bounded_step(reasoned.state, texted.state, 6, limit));
    let called = on_tool_delta(texted, choice.delta.tool_calls, ids, base);
    if let Some(chunks) = choice.delta.tool_calls {
        lemma_tool_calls_bounded(
            close_reasoning(texted, OutputStatus::Completed),
            chunks@,
            0,
            ids,
            base,
            limit,
        );
    }
    assert(called.state.calls.len() <= limit);
    lemma_close_calls_bounded(called, 0, limit);
}

proof fn lemma_choices_bounded(
    run: Emitted,
    choices: Seq<ChatChoiceStream>,
    from: int,
    ids: Seq<Seq<char>>,
    base: nat,
    limit: nat,
)
    requires
        0 <= from,
        run.state.calls.len() <= limit,
        forall|c: int| 0 <= c < choices.len() ==> choice_below(#[trigger] choices[c], limit),
    ensures
        bounded_step(
            run.state,
            on_choices(run, choices, from, ids, base).state,
            choices_cost(choices, from, limit),
            limit,
        ),
    decreases choices.len() - from,
{
    if from < choices.len() {
        lemma_choice_bounded(run, choices[from], ids, base, limit);
        lemma_choices_bounded(
            on_choice(run, choices[from], ids, base),
            choices,
            from + 1,
            ids,
            base,
            limit,
        );
    }
}

/// Whether the sequence numbers stay well below the machine limit to the end of the stream.
pub open spec fn has_room_to_end(state: StreamState) -> bool {
    state.sequence_number + 2 * state.calls.len() + 8 <= u64::MAX
}

/// A chunk for which there is room leaves counters that fit.
pub proof fn law_room_suffices_for_chunks(
    state: StreamState,
    chunk: NvCreateChatCompletionStreamResponse,
)
    requires
        state.wf(),
        has_room(state.sequence_number, state.calls.len(), chunk),
    ensures
        chunk_fits(state, chunk),
{
    let limit = CALL_LIMIT as nat;
    assert forall|ids: Seq<Seq<char>>| (#[trigger] after_chunk(state, chunk, ids)).state.fits() by {
        let counted = StreamState {
            usage: match chunk.inner.usage {
                Some(usage) => Some(crate::responses::response::usage_of(usage)),
                None => state.usage,
            },
            ..state
        };
        lemma_choices_bounded(
            Emitted { state: counted, events: seq![] },
            chunk.inner.choices@,
            0,
            ids,
            state.calls.len(),
            limit,
        );
    }
}

/// A stream whose sequence numbers stay well below the machine limit can end.
pub proof fn law_room_suffices_to_end(state: StreamState, now: u64)
    requires
        state.wf(),
        has_room_to_end(state),
    ensures
        after_end(state, now).state.fits(),
{
    let run = Emitted { state, events: seq![] };
    let messaged = close_message(close_reasoning(run, state.output_status()));
    lemma_close_calls_bounded(messaged, 0, state.calls.len());
}

/// A stream for which there is room can end on an error.
pub proof fn law_room_suffices_for_errors(state: StreamState, error: Option<BackendError>, now: u64)
    requires
        state.wf(),
        has_room_to_end(state),
    ensures
        after_error(state, error, now).state.fits(),
{
    if is_truncation_error(error) {
        let cut = StreamState { output_limit_reached: true, ..state };
        assert(cut.wf());
        law_room_suffices_to_end(cut, now);
    }
}

/// Reasoning is never shown where no summary was asked for.
pub proof fn law_reasoning_needs_a_request(
    state: StreamState,
    chunk: NvCreateChatCompletionStreamResponse,
    ids: Seq<Seq<char>>,
)
    requires
        !state.reasoning_started,
        !state.params.wants_summary(),
    ensures
        !after_chunk(state, chunk, ids).state.reasoning_started,
        after_chunk(state, chunk, ids).state.params == state.params,
{
    let counted = StreamState {
        usage: match chunk.inner.usage {
            Some(usage) => Some(crate::responses::response::usage_of(usage)),
            None => state.usage,
        },
        ..state
    };
    lemma_choices_grow(
        Emitted { state: counted, events: seq![] },
        chunk.inner.choices@,
        0,
        ids,
        state.calls.len(),
    );
}

/// The text that the choices from position `from` on bring.
pub open spec fn choices_text(choices: Seq<ChatChoiceStream>, from: int) -> Seq<char>
    decreases choices.len() - from,
{
    if from < 0 || from >= choices.len() {
        seq![]
    } else {
        delta_text(choices[from].delta.content) + choices_text(choices, from + 1)
    }
}

proof fn lemma_tool_calls_keep_text(
    run: Emitted,
    chunks: Seq<ChatCompletionMessageToolCallChunk>,
    from: int,
    ids: Seq<Seq<char>>,
    base: nat,
)
    ensures
        on_tool_calls(run, chunks, from, ids, base).state.text == run.state.text,
    decreases chunks.len() - from,
{
    if 0 <= from < chunks.len() {
        lemma_reserve_calls(run.state, (chunks[from].index + 1) as nat, ids, base);
        lemma_tool_calls_keep_text(
            on_tool_call(run, chunks[from], ids, base),
            chunks,
            from + 1,
            ids,
            base,
        );
    }
}

proof fn lemma_close_calls_keep_text(run: Emitted, from: int)
    ensures
        close_calls(run, from).state.text == run.state.text,
    decreases run.state.calls.len() - from,
{
    if 0 <= from < run.state.calls.len() {
        lemma_close_calls_keep_text(close_call(run, from), from + 1);
    }
}

proof fn lemma_choice_text(
    run: Emitted,
    choice: ChatChoiceStream,
    ids: Seq<Seq<char>>,
    base: nat,
)
    ensures
        on_choice(run, choice, ids, base).state.text == run.state.text + delta_text(
            choice.delta.content,
        ),
{
    let limited = if choice.finish_reason == Some(FinishReason::Length) {
        with_state(run, StreamState { output_limit_reached: true, ..run.state })
    } else {
        run
    };
    let reasoned = on_reasoning(limited, choice.delta.reasoning_content);
    let texted = on_text(reasoned, delta_text(choice.delta.content));
    let called = on_tool_delta(texted, choice.delta.tool_calls, ids, base);
    assert(texted.state.text =~= run.state.text + delta_text(choice.delta.content));
    if let Some(all) = choice.delta.tool_calls {
        lemma_tool_calls_keep_text(
            close_reasoning(texted, OutputStatus::Completed),
            all@,
            0,
            ids,
            base,
        );
    }
    lemma_close_calls_keep_text(called, 0);
}

proof fn lemma_choices_text(
    run: Emitted,
    choices: Seq<ChatChoiceStream>,
    from: int,
    ids: Seq<Seq<char>>,
    base: nat,
)
    ensures
        on_choices(run, choices, from, ids, base).state.text == run.state.text + choices_text(
            choices,
            from,
        ),
    decreases choices.len() - from,
{
    if 0 <= from < choices.len() {
        lemma_choice_text(run, choices[from], ids, base);
        lemma_choices_text(on_choice(run, choices[from], ids, base), choices, from + 1, ids, base);
        assert(run.state.text + delta_text(choices[from].delta.content) + choices_text(
            choices,
            from + 1,
        ) =~= run.state.text + choices_text(choices, from));
    } else {
        assert(run.state.text + Seq::<char>::empty() =~= run.state.text);
    }
}

/// The message grows by exactly the text that a chunk brings.
pub proof fn law_chunks_keep_text(
    state: StreamState,
    chunk: NvCreateChatCompletionStreamResponse,
    ids: Seq<Seq<char>>,
)
    ensures
        after_chunk(state, chunk, ids).state.text == state.text + choices_text(
            chunk.inner.choices@,
            0,
        ),
{
    let counted = StreamState {
        usage: match chunk.inner.usage {
            Some(usage) => Some(crate::responses::response::usage_of(usage)),
            None => state.usage,
        },
        ..state
    };
    lemma_choices_text(
        Emitted { state: counted, events: seq![] },
        chunk.inner.choices@,
        0,
        ids,
        state.calls.len(),
    );
}

} // verus!
