//! What every step of a message stream keeps, and what a whole stream promises.

use vstd::prelude::*;

use crate::anthropic::stream::{
    add_text, add_texts, after_message_chunk, after_message_end, arguments_with, choice_bound,
    choices_bound, close_text, close_thinking, close_tools, flush, flush_if_free, has_block_room,
    in_state, on_message_choice, on_message_choices, on_message_text, on_piece, on_pieces,
    on_thinking, on_tools, open_stream, piece_bound, reserve_tools, reserved_tool, with_chunk_match,
    with_chunk_usage, with_piece, with_tool, MessageState, Sent, ToolState,
};
use crate::chat::{
    ChatChoiceStream, ChatCompletionMessageToolCallChunk, NvCreateChatCompletionStreamResponse,
};
use crate::json::parsed_json;
use crate::responses::stream::delta_text;

verus! {

/// A step that reserves calls up to `bound` and opens at most `blocks` other blocks.
pub open spec fn reserves(
    before: MessageState,
    after: MessageState,
    blocks: nat,
    bound: nat,
) -> bool {
    &&& before.next_index <= after.next_index
    &&& after.tools.len() == if before.tools.len() < bound {
        bound
    } else {
        before.tools.len()
    }
    &&& after.next_index - after.tools.len() <= before.next_index - before.tools.len() + blocks
}

pub proof fn lemma_reserve_tools(state: MessageState, count: nat)
    ensures
        reserves(state, reserve_tools(state, count), 0, count),
        ({
            let after = reserve_tools(state, count);
            &&& after.next_index - after.tools.len() == state.next_index - state.tools.len()
            &&& forall|j: int| 0 <= j < state.tools.len() ==> after.tools[j] == state.tools[j]
            &&& forall|j: int|
                state.tools.len() <= j < after.tools.len() ==> (#[trigger] after.tools[j])
                    == reserved_tool((state.next_index + j - state.tools.len()) as nat)
            &&& after == MessageState {
                tools: after.tools,
                next_index: after.next_index,
                ..state
            }
        }),
    decreases count - state.tools.len(),
{
    if state.tools.len() < count {
        let one = MessageState {
            tools: state.tools.push(reserved_tool(state.next_index)),
            next_index: state.next_index + 1,
            ..state
        };
        lemma_reserve_tools(one, count);
        let after = reserve_tools(one, count);
        assert forall|j: int| 0 <= j < state.tools.len() implies after.tools[j]
            == state.tools[j] by {
            assert(after.tools[j] == one.tools[j]);
        }
        assert(after.tools[state.tools.len() as int] == one.tools[state.tools.len() as int]);
    }
}

/// Adding texts opens at most one block, and leaves everything but the text block alone.
pub proof fn lemma_add_texts(run: Sent, texts: Seq<Seq<char>>, from: int)
    ensures
        ({
            let after = add_texts(run, texts, from).state;
            &&& after == MessageState {
                text_started: after.text_started,
                text_closed: after.text_closed,
                text_index: after.text_index,
                next_index: after.next_index,
                ..run.state
            }
            &&& after.next_index == run.state.next_index || (after.next_index
                == run.state.next_index + 1 && after.text_index == run.state.next_index)
            &&& after.next_index == run.state.next_index ==> after == run.state
            &&& run.state.text_started && !run.state.text_closed ==> after == run.state
        }),
    decreases texts.len() - from,
{
    if 0 <= from < texts.len() {
        lemma_add_texts(add_text(run, texts[from]), texts, from + 1);
    }
}

pub proof fn lemma_piece_reserves(
    run: Sent,
    piece: ChatCompletionMessageToolCallChunk,
    id: Seq<char>,
    complete: bool,
)
    ensures
        reserves(
            run.state,
            on_piece(run, piece, id, complete).state,
            0,
            (piece.index + 1) as nat,
        ),
        on_piece(run, piece, id, complete).state.next_index == with_piece(
            run.state,
            piece,
            id,
        ).next_index,
{
    lemma_reserve_tools(run.state, (piece.index + 1) as nat);
}

/// The bound of the pieces from position `from` on.
spec fn bound_from(pieces: Seq<ChatCompletionMessageToolCallChunk>, from: int) -> nat
    decreases pieces.len() - from,
{
    if from < 0 || from >= pieces.len() {
        0
    } else {
        let rest = bound_from(pieces, from + 1);
        if pieces[from].index + 1 > rest {
            (pieces[from].index + 1) as nat
        } else {
            rest
        }
    }
}

proof fn lemma_bound_from(pieces: Seq<ChatCompletionMessageToolCallChunk>, from: int)
    requires
        0 <= from <= pieces.len(),
    ensures
        piece_bound(pieces) == if piece_bound(pieces.take(from)) > bound_from(pieces, from) {
            piece_bound(pieces.take(from))
        } else {
            bound_from(pieces, from)
        },
    decreases pieces.len() - from,
{
    if from < pieces.len() {
        lemma_bound_from(pieces, from + 1);
        assert(pieces.take(from + 1).drop_last() =~= pieces.take(from));
    } else {
        assert(pieces.take(from) =~= pieces);
    }
}

proof fn lemma_pieces_reserve(
    run: Sent,
    pieces: Seq<ChatCompletionMessageToolCallChunk>,
    from: int,
    ids: Seq<Seq<char>>,
)
    requires
        0 <= from,
    ensures
        reserves(run.state, on_pieces(run, pieces, from, ids).state, 0, bound_from(pieces, from)),
    decreases pieces.len() - from,
{
    if from < pieces.len() {
        let complete = parsed_json(arguments_with(run.state, pieces[from])) is Some;
        lemma_piece_reserves(run, pieces[from], ids[from], complete);
        lemma_pieces_reserve(
            on_piece(run, pieces[from], ids[from], complete),
            pieces,
            from + 1,
            ids,
        );
    }
}

/// The block counter does not fall while the pieces are taken.
pub proof fn lemma_pieces_grow(
    run: Sent,
    pieces: Seq<ChatCompletionMessageToolCallChunk>,
    from: int,
    ids: Seq<Seq<char>>,
)
    requires
        0 <= from,
    ensures
        run.state.next_index <= on_pieces(run, pieces, from, ids).state.next_index,
        run.state.tools.len() <= on_pieces(run, pieces, from, ids).state.tools.len(),
{
    lemma_pieces_reserve(run, pieces, from, ids);
}

pub proof fn lemma_tools_reserve(
    run: Sent,
    pieces: Option<Vec<ChatCompletionMessageToolCallChunk>>,
    ids: Seq<Seq<char>>,
)
    ensures
        reserves(
            run.state,
            on_tools(run, pieces, ids).state,
            0,
            match pieces {
                Some(all) => piece_bound(all@),
                None => 0,
            },
        ),
{
    if let Some(all) = pieces {
        lemma_pieces_reserve(close_text(close_thinking(run)), all@, 0, ids);
        lemma_bound_from(all@, 0);
        assert(all@.take(0) =~= seq![]);
    }
}

pub proof fn lemma_choice_reserves(run: Sent, choice: ChatChoiceStream, ids: Seq<Seq<char>>)
    ensures
        reserves(run.state, on_message_choice(run, choice, ids).state, 3, choice_bound(choice)),
        ({
            let finished = match choice.finish_reason {
                Some(reason) => in_state(
                    run,
                    MessageState { finish_reason: Some(reason), ..run.state },
                ),
                None => run,
            };
            let thought = on_thinking(finished, choice.delta.reasoning_content);
            let texted = on_message_text(thought, delta_text(choice.delta.content));
            let called = on_tools(texted, choice.delta.tool_calls, ids);
            let after = on_message_choice(run, choice, ids);
            &&& after == flush_if_free(called)
            &&& thought.state.next_index <= texted.state.next_index
            &&& texted.state.next_index <= called.state.next_index
            &&& called.state.next_index <= after.state.next_index
        }),
{
    let finished = match choice.finish_reason {
        Some(reason) => in_state(
            run,
            MessageState { finish_reason: Some(reason), ..run.state },
        ),
        None => run,
    };
    let thought = on_thinking(finished, choice.delta.reasoning_content);
    let texted = on_message_text(thought, delta_text(choice.delta.content));
    let called = on_tools(texted, choice.delta.tool_calls, ids);
    assert(reserves(run.state, thought.state, 1, 0));
    assert(reserves(thought.state, texted.state, 1, 0));
    lemma_tools_reserve(texted, choice.delta.tool_calls, ids);
    lemma_add_texts(
        in_state(called, MessageState { pending: seq![], ..called.state }),
        called.state.pending,
        0,
    );
}

/// The bound of the choices from position `from` on.
spec fn choices_bound_from(choices: Seq<ChatChoiceStream>, from: int) -> nat
    decreases choices.len() - from,
{
    if from < 0 || from >= choices.len() {
        0
    } else {
        let rest = choices_bound_from(choices, from + 1);
        if choice_bound(choices[from]) > rest {
            choice_bound(choices[from])
        } else {
            rest
        }
    }
}

proof fn lemma_choices_bound_from(choices: Seq<ChatChoiceStream>, from: int)
    requires
        0 <= from <= choices.len(),
    ensures
        choices_bound(choices) == if choices_bound(choices.take(from)) > choices_bound_from(
            choices,
            from,
        ) {
            choices_bound(choices.take(from))
        } else {
            choices_bound_from(choices, from)
        },
    decreases choices.len() - from,
{
    if from < choices.len() {
        lemma_choices_bound_from(choices, from + 1);
        assert(choices.take(from + 1).drop_last() =~= choices.take(from));
    } else {
        assert(choices.take(from) =~= choices);
    }
}

proof fn lemma_choices_reserve(
    run: Sent,
    choices: Seq<ChatChoiceStream>,
    from: int,
    ids: Seq<Seq<Seq<char>>>,
)
    requires
        0 <= from <= choices.len(),
    ensures
        reserves(
            run.state,
            on_message_choices(run, choices, from, ids).state,
            (3 * (choices.len() - from)) as nat,
            choices_bound_from(choices, from),
        ),
    decreases choices.len() - from,
{
    if from < choices.len() {
        lemma_choice_reserves(run, choices[from], ids[from]);
        lemma_choices_reserve(
            on_message_choice(run, choices[from], ids[from]),
            choices,
            from + 1,
            ids,
        );
    }
}

/// The block counter does not fall while the choices are taken.
pub proof fn lemma_choices_grow(
    run: Sent,
    choices: Seq<ChatChoiceStream>,
    from: int,
    ids: Seq<Seq<Seq<char>>>,
)
    requires
        0 <= from <= choices.len(),
    ensures
        run.state.next_index <= on_message_choices(run, choices, from, ids).state.next_index,
{
    lemma_choices_reserve(run, choices, from, ids);
}

/// A chunk for which there is room leaves a block counter that fits.
pub proof fn lemma_block_room(
    state: MessageState,
    chunk: NvCreateChatCompletionStreamResponse,
    ids: Seq<Seq<Seq<char>>>,
)
    requires
        has_block_room(state, chunk),
        state.tools.len() <= state.next_index,
    ensures
        after_message_chunk(state, chunk, ids).state.fits(),
{
    let choices = chunk.inner.choices@;
    let opened = open_stream(
        Sent { state: with_chunk_usage(state, chunk), events: seq![] },
        crate::anthropic::stream::initial_tokens(chunk),
    );
    let started = in_state(opened, with_chunk_match(opened.state, chunk));
    lemma_choices_reserve(started, choices, 0, ids);
    lemma_choices_bound_from(choices, 0);
    assert(choices.take(0) =~= seq![]);
}

proof fn lemma_open_survives(before: MessageState, after: MessageState)
    requires
        before.tool_open(),
        before.tools.len() <= after.tools.len(),
        forall|j: int|
            0 <= j < before.tools.len() && (#[trigger] before.tools[j]).is_open()
                ==> after.tools[j].is_open(),
    ensures
        after.tool_open(),
{
    let j = choose|j: int| 0 <= j < before.tools.len() && (#[trigger] before.tools[j]).is_open();
    assert(after.tools[j].is_open());
}

/// Everything that [`MessageState::wf`] says but that text waits only for an open call.
pub open spec fn indices_distinct(state: MessageState) -> bool {
    MessageState { pending: seq![], ..state }.wf()
}

pub proof fn lemma_piece_wf(
    run: Sent,
    piece: ChatCompletionMessageToolCallChunk,
    id: Seq<char>,
    complete: bool,
)
    requires
        indices_distinct(run.state),
        on_piece(run, piece, id, complete).state.fits(),
    ensures
        indices_distinct(on_piece(run, piece, id, complete).state),
        on_piece(run, piece, id, complete).state.pending == run.state.pending,
{
    lemma_reserve_tools(run.state, (piece.index + 1) as nat);
}

pub proof fn lemma_named_wf(run: Sent, piece: ChatCompletionMessageToolCallChunk, id: Seq<char>)
    requires
        indices_distinct(run.state),
        with_piece(run.state, piece, id).fits(),
    ensures
        indices_distinct(with_piece(run.state, piece, id)),
{
    lemma_reserve_tools(run.state, (piece.index + 1) as nat);
}

pub proof fn lemma_pieces_wf(
    run: Sent,
    pieces: Seq<ChatCompletionMessageToolCallChunk>,
    from: int,
    ids: Seq<Seq<char>>,
)
    requires
        0 <= from,
        indices_distinct(run.state),
        on_pieces(run, pieces, from, ids).state.fits(),
    ensures
        indices_distinct(on_pieces(run, pieces, from, ids).state),
        on_pieces(run, pieces, from, ids).state.pending == run.state.pending,
    decreases pieces.len() - from,
{
    if from < pieces.len() {
        let complete = parsed_json(arguments_with(run.state, pieces[from])) is Some;
        let next = on_piece(run, pieces[from], ids[from], complete);
        lemma_pieces_grow(next, pieces, from + 1, ids);
        lemma_piece_wf(run, pieces[from], ids[from], complete);
        lemma_pieces_wf(next, pieces, from + 1, ids);
    }
}

pub proof fn lemma_add_texts_wf(run: Sent, texts: Seq<Seq<char>>)
    requires
        indices_distinct(run.state),
        add_texts(run, texts, 0).state.fits(),
    ensures
        indices_distinct(add_texts(run, texts, 0).state),
{
    lemma_add_texts(run, texts, 0);
}

pub proof fn lemma_thinking_wf(run: Sent, text: Option<String>)
    requires
        indices_distinct(run.state),
        on_thinking(run, text).state.fits(),
    ensures
        indices_distinct(on_thinking(run, text).state),
{
}

pub proof fn lemma_close_blocks_wf(run: Sent)
    requires
        indices_distinct(run.state),
    ensures
        indices_distinct(close_thinking(run).state),
        indices_distinct(close_text(close_thinking(run)).state),
{
}

pub proof fn lemma_add_text_wf(run: Sent, text: Seq<char>)
    requires
        indices_distinct(run.state),
        add_text(run, text).state.fits(),
    ensures
        indices_distinct(add_text(run, text).state),
{
}

pub proof fn lemma_text_wf(run: Sent, text: Seq<char>)
    requires
        indices_distinct(run.state),
        on_message_text(run, text).state.fits(),
    ensures
        indices_distinct(on_message_text(run, text).state),
{
    lemma_close_blocks_wf(run);
    let closed = close_thinking(run);
    if text.len() > 0 && !closed.state.tool_open() {
        lemma_add_text_wf(closed, text);
    }
}

proof fn lemma_flush_wf(run: Sent)
    requires
        indices_distinct(run.state),
        flush_if_free(run).state.fits(),
    ensures
        flush_if_free(run).state.wf(),
{
    if !run.state.tool_open() {
        let emptied = in_state(run, MessageState { pending: seq![], ..run.state });
        lemma_add_texts_wf(emptied, run.state.pending);
        lemma_add_texts(emptied, run.state.pending, 0);
        let after = flush(run).state;
        assert(after =~= MessageState { pending: seq![], ..after });
    } else {
        let emptied = MessageState { pending: seq![], ..run.state };
        assert(emptied.wf());
    }
}

pub proof fn lemma_choice_wf(run: Sent, choice: ChatChoiceStream, ids: Seq<Seq<char>>)
    requires
        run.state.wf(),
        on_message_choice(run, choice, ids).state.fits(),
    ensures
        on_message_choice(run, choice, ids).state.wf(),
{
    let finished = match choice.finish_reason {
        Some(reason) => in_state(
            run,
            MessageState { finish_reason: Some(reason), ..run.state },
        ),
        None => run,
    };
    let thought = on_thinking(finished, choice.delta.reasoning_content);
    let texted = on_message_text(thought, delta_text(choice.delta.content));
    let closed = close_text(close_thinking(texted));
    let called = on_tools(texted, choice.delta.tool_calls, ids);
    lemma_choice_reserves(run, choice, ids);
    assert(indices_distinct(finished.state));
    lemma_thinking_wf(finished, choice.delta.reasoning_content);
    lemma_text_wf(thought, delta_text(choice.delta.content));
    if let Some(all) = choice.delta.tool_calls {
        lemma_close_blocks_wf(texted);
        lemma_pieces_wf(closed, all@, 0, ids);
    }
    lemma_flush_wf(called);
}

pub proof fn lemma_choices_wf(
    run: Sent,
    choices: Seq<ChatChoiceStream>,
    from: int,
    ids: Seq<Seq<Seq<char>>>,
)
    requires
        0 <= from <= choices.len(),
        run.state.wf(),
        on_message_choices(run, choices, from, ids).state.fits(),
    ensures
        on_message_choices(run, choices, from, ids).state.wf(),
    decreases choices.len() - from,
{
    if from < choices.len() {
        let next = on_message_choice(run, choices[from], ids[from]);
        lemma_choices_grow(next, choices, from + 1, ids);
        lemma_choice_wf(run, choices[from], ids[from]);
        lemma_choices_wf(next, choices, from + 1, ids);
    }
}

/// Every chunk keeps the block indices distinct, and text waits only for an open call.
pub proof fn law_chunks_keep_blocks_distinct(
    state: MessageState,
    chunk: NvCreateChatCompletionStreamResponse,
    ids: Seq<Seq<Seq<char>>>,
)
    requires
        state.wf(),
        has_block_room(state, chunk),
    ensures
        after_message_chunk(state, chunk, ids).state.wf(),
{
    lemma_block_room(state, chunk, ids);
    let opened = open_stream(
        Sent { state: with_chunk_usage(state, chunk), events: seq![] },
        crate::anthropic::stream::initial_tokens(chunk),
    );
    let started = in_state(opened, with_chunk_match(opened.state, chunk));
    assert(started.state.tools == state.tools);
    if state.tool_open() {
        lemma_open_survives(state, started.state);
    }
    assert(started.state.wf());
    lemma_choices_wf(started, chunk.inner.choices@, 0, ids);
}

pub proof fn lemma_close_tools(run: Sent, from: int)
    requires
        0 <= from,
    ensures
        ({
            let after = close_tools(run, from).state;
            &&& after == MessageState { tools: after.tools, ..run.state }
            &&& after.tools.len() == run.state.tools.len()
            &&& forall|j: int|
                0 <= j < run.state.tools.len() ==> (#[trigger] after.tools[j]) == if j >= from
                    && run.state.tools[j].is_open() {
                    ToolState { stopped: true, ..run.state.tools[j] }
                } else {
                    run.state.tools[j]
                }
        }),
    decreases run.state.tools.len() - from,
{
    if from < run.state.tools.len() {
        let tool = run.state.tools[from];
        let closed = if tool.is_open() {
            Sent {
                state: with_tool(run.state, from, ToolState { stopped: true, ..tool }),
                events: run.events.push(crate::anthropic::stream::block_stop(tool.block_index)),
            }
        } else {
            run
        };
        lemma_close_tools(closed, from + 1);
    }
}

/// The end of a stream leaves no block open and no text waiting.
pub proof fn law_end_closes_every_block(state: MessageState)
    requires
        state.wf(),
        state.next_index < u32::MAX,
    ensures
        ({
            let after = after_message_end(state).state;
            &&& after.wf()
            &&& after.start_emitted
            &&& after.thinking_started ==> after.thinking_closed
            &&& after.text_started ==> after.text_closed
            &&& !after.tool_open()
            &&& after.pending.len() == 0
        }),
{
    let opened = open_stream(Sent { state, events: seq![] }, 0);
    let thought = close_thinking(opened);
    lemma_close_tools(thought, 0);
    let tooled = close_tools(thought, 0);
    assert(indices_distinct(thought.state));
    assert(indices_distinct(tooled.state));
    let emptied = in_state(tooled, MessageState { pending: seq![], ..tooled.state });
    lemma_add_texts(emptied, tooled.state.pending, 0);
    lemma_add_texts_wf(emptied, tooled.state.pending);
    let flushed = flush(tooled);
    assert(flushed.state.tools == tooled.state.tools);
    assert(!flushed.state.tool_open()) by {
        if flushed.state.tool_open() {
            let j = choose|j: int|
                0 <= j < flushed.state.tools.len() && (#[trigger] flushed.state.tools[j]).is_open();
            assert(tooled.state.tools[j].is_open());
        }
    }
    let closed = close_text(flushed);
    assert(closed.state.tools == flushed.state.tools);
    assert(!closed.state.tool_open());
}

} // verus!
