//! The order of the events of a message.
//!
//! A client reads `message_start`, then blocks one after the other, each a start, its deltas
//! and a stop, then `message_delta` and `message_stop`. [`read`] is such a client. The laws
//! here say that it finds an event out of place exactly where a chunk itself goes back to a
//! block that is over or opens one inside another (is not [`orderly`]).

use vstd::prelude::*;

use crate::anthropic::reply::AnthropicStreamEventView;
use crate::anthropic::stream::{
    add_text, add_texts, after_message_chunk, after_message_end, all_closed, arguments_with,
    block_delta, block_start, block_stop, close_text, close_thinking, close_tools, flush,
    fresh_message, has_block_room, in_state, initial_tokens, is_duplicate, on_input,
    on_message_choice, on_message_choices, on_message_text, on_piece, on_pieces, on_thinking,
    on_tools, open_stream, open_tool, reserve_tools, send, with_chunk_match, with_chunk_usage,
    with_piece, with_tool, MessageState, Sent, ToolState,
};
use crate::anthropic::stream_laws::{
    indices_distinct, lemma_add_text_wf, lemma_add_texts, lemma_block_room, lemma_choice_reserves,
    lemma_choice_wf, lemma_choices_grow, lemma_close_blocks_wf, lemma_close_tools, lemma_named_wf,
    lemma_piece_wf, lemma_pieces_grow, lemma_pieces_wf, lemma_reserve_tools, lemma_text_wf,
    lemma_thinking_wf,
};
use crate::chat::{
    ChatChoiceStream, ChatCompletionMessageToolCallChunk, NvCreateChatCompletionStreamResponse,
};
use crate::json::parsed_json;
use crate::responses::stream::{delta_arguments, delta_text};

verus! {

/// What a client has read of a message.
pub struct Reader {
    pub begun: bool,
    /// The block that is open.
    pub block: Option<u32>,
    /// The blocks that have started.
    pub seen: Set<u32>,
    pub told: bool,
    pub over: bool,
}

/// A client that has read nothing.
pub open spec fn new_reader() -> Reader {
    Reader { begun: false, block: None, seen: Set::empty(), told: false, over: false }
}

/// The client after one more event, or `None` where the event is out of place.
pub open spec fn read(reader: Reader, event: AnthropicStreamEventView) -> Option<Reader> {
    match event {
        AnthropicStreamEventView::MessageStart { .. } => if !reader.begun {
            Some(Reader { begun: true, ..reader })
        } else {
            None
        },
        AnthropicStreamEventView::ContentBlockStart { index, .. } => if reader.begun
            && !reader.told && reader.block is None && !reader.seen.contains(index) {
            Some(Reader { block: Some(index), seen: reader.seen.insert(index), ..reader })
        } else {
            None
        },
        AnthropicStreamEventView::ContentBlockDelta { index, .. } => if reader.block == Some(
            index,
        ) {
            Some(reader)
        } else {
            None
        },
        AnthropicStreamEventView::ContentBlockStop { index } => if reader.block == Some(index) {
            Some(Reader { block: None, ..reader })
        } else {
            None
        },
        AnthropicStreamEventView::MessageDelta { .. } => if reader.begun && !reader.told
            && reader.block is None {
            Some(Reader { told: true, ..reader })
        } else {
            None
        },
        AnthropicStreamEventView::MessageStop => if reader.told && !reader.over {
            Some(Reader { over: true, ..reader })
        } else {
            None
        },
        _ => Some(reader),
    }
}

/// The client after the events, or `None` where one of them is out of place.
pub open spec fn read_all(reader: Reader, events: Seq<AnthropicStreamEventView>) -> Option<Reader>
    decreases events.len(),
{
    if events.len() == 0 {
        Some(reader)
    } else {
        match read_all(reader, events.drop_last()) {
            Some(before) => read(before, events.last()),
            None => None,
        }
    }
}

impl MessageState {
    /// Whether the thinking block is open.
    pub open spec fn thinking_open(self) -> bool {
        self.thinking_started && !self.thinking_closed
    }

    /// Whether the text block is open.
    pub open spec fn text_open(self) -> bool {
        self.text_started && !self.text_closed
    }
}

/// Whether a client has read what a converter in the given state has sent: its open block is
/// the only one that the converter has open.
pub open spec fn in_step(reader: Reader, state: MessageState) -> bool {
    &&& reader.begun == state.start_emitted
    &&& !reader.told
    &&& !reader.over
    &&& state.thinking_open() ==> reader.block == Some(state.thinking_index as u32)
    &&& state.text_open() ==> reader.block == Some(state.text_index as u32)
    &&& forall|j: int|
        0 <= j < state.tools.len() && (#[trigger] state.tools[j]).is_open() ==> reader.block
            == Some(state.tools[j].block_index as u32)
    &&& reader.block is Some ==> state.thinking_open() || state.text_open() || state.tool_open()
    &&& forall|index: u32| #[trigger] reader.seen.contains(index) ==> index < state.next_index
    &&& forall|j: int|
        0 <= j < state.tools.len() && !(#[trigger] state.tools[j]).started
            ==> !reader.seen.contains(state.tools[j].block_index as u32)
    &&& state.thinking_open() ==> state.pending.len() == 0
}

/// Whether reasoning may come in a state: thinking is not over and no other block is open.
pub open spec fn orderly_thinking(state: MessageState, text: Option<String>) -> bool {
    text matches Some(thinking) ==> thinking@.len() == 0 || {
        &&& !state.thinking_closed
        &&& !state.text_open()
        &&& !state.tool_open()
    }
}

/// Whether a piece of a call may come in a state: if it brings arguments, its call is not
/// over and no other call is open.
pub open spec fn orderly_piece(
    state: MessageState,
    piece: ChatCompletionMessageToolCallChunk,
    id: Seq<char>,
) -> bool {
    let named = with_piece(state, piece, id);
    let j = piece.index as int;
    delta_arguments(piece.function) is Some && !is_duplicate(named, named.tools[j]) ==> {
        &&& !named.tools[j].stopped
        &&& forall|k: int|
            0 <= k < named.tools.len() && k != j ==> !(#[trigger] named.tools[k]).is_open()
    }
}

/// Whether every piece from position `from` on comes in a state where it may.
pub open spec fn orderly_pieces(
    run: Sent,
    pieces: Seq<ChatCompletionMessageToolCallChunk>,
    from: int,
    ids: Seq<Seq<char>>,
) -> bool
    decreases pieces.len() - from,
{
    0 <= from < pieces.len() ==> {
        &&& orderly_piece(run.state, pieces[from], ids[from])
        &&& orderly_pieces(
            on_piece(
                run,
                pieces[from],
                ids[from],
                parsed_json(arguments_with(run.state, pieces[from])) is Some,
            ),
            pieces,
            from + 1,
            ids,
        )
    }
}

/// The state with the finish reason that a choice brings.
pub open spec fn with_finish(run: Sent, choice: ChatChoiceStream) -> Sent {
    match choice.finish_reason {
        Some(reason) => in_state(
            run,
            MessageState { finish_reason: Some(reason), ..run.state },
        ),
        None => run,
    }
}

/// Whether everything that a choice brings comes in a state where it may.
pub open spec fn orderly_choice(run: Sent, choice: ChatChoiceStream, ids: Seq<Seq<char>>) -> bool {
    let finished = with_finish(run, choice);
    let thought = on_thinking(finished, choice.delta.reasoning_content);
    let texted = on_message_text(thought, delta_text(choice.delta.content));
    &&& orderly_thinking(finished.state, choice.delta.reasoning_content)
    &&& choice.delta.tool_calls matches Some(pieces) ==> orderly_pieces(
        close_text(close_thinking(texted)),
        pieces@,
        0,
        ids,
    )
}

/// Whether everything that the choices from position `from` on bring comes in a state where
/// it may.
pub open spec fn orderly_choices(
    run: Sent,
    choices: Seq<ChatChoiceStream>,
    from: int,
    ids: Seq<Seq<Seq<char>>>,
) -> bool
    decreases choices.len() - from,
{
    0 <= from < choices.len() ==> {
        &&& orderly_choice(run, choices[from], ids[from])
        &&& orderly_choices(
            on_message_choice(run, choices[from], ids[from]),
            choices,
            from + 1,
            ids,
        )
    }
}

/// A message with what a chunk says of all of it, started if it was not.
pub open spec fn with_chunk_head(
    state: MessageState,
    chunk: NvCreateChatCompletionStreamResponse,
) -> Sent {
    let opened = open_stream(
        Sent { state: with_chunk_usage(state, chunk), events: seq![] },
        initial_tokens(chunk),
    );
    in_state(opened, with_chunk_match(opened.state, chunk))
}

/// Whether a chunk neither goes back to a block that is over nor opens one inside another:
/// no reasoning once thinking is over or while another block is open, and no arguments of a
/// call that is over or while another call is open.
pub open spec fn orderly(
    state: MessageState,
    chunk: NvCreateChatCompletionStreamResponse,
    ids: Seq<Seq<Seq<char>>>,
) -> bool {
    orderly_choices(with_chunk_head(state, chunk), chunk.inner.choices@, 0, ids)
}

/// Whether a client that starts as `reader` can read what was sent and is then in step.
spec fn spoken(reader: Reader, run: Sent) -> bool {
    read_all(reader, run.events) matches Some(after) && in_step(after, run.state)
}

proof fn lemma_read_push(
    reader: Reader,
    events: Seq<AnthropicStreamEventView>,
    event: AnthropicStreamEventView,
)
    requires
        read_all(reader, events) is Some,
    ensures
        read_all(reader, events.push(event)) == read(read_all(reader, events)->0, event),
{
    assert(events.push(event).drop_last() =~= events);
}

proof fn lemma_thinking_spoken(reader: Reader, run: Sent, text: Option<String>)
    requires
        spoken(reader, run),
        run.state.wf(),
        run.state.start_emitted,
        indices_distinct(on_thinking(run, text).state),
        orderly_thinking(run.state, text),
    ensures
        spoken(reader, on_thinking(run, text)),
{
    if let Some(thinking) = text {
        if thinking@.len() > 0 {
            let state = run.state;
            let opened = if state.thinking_started {
                run
            } else {
                send(
                    in_state(
                        run,
                        MessageState {
                            thinking_started: true,
                            thinking_index: state.next_index,
                            next_index: state.next_index + 1,
                            ..state
                        },
                    ),
                    block_start(
                        state.next_index,
                        crate::anthropic::reply::AnthropicResponseContentBlockView::Thinking {
                            thinking: seq![],
                            signature: seq![],
                        },
                    ),
                )
            };
            if !state.thinking_started {
                lemma_read_push(reader, run.events, opened.events.last());
                assert(opened.state.tools == state.tools);
                assert(spoken(reader, opened));
            }
            lemma_read_push(reader, opened.events, on_thinking(run, text).events.last());
        }
    }
}

proof fn lemma_closed_spoken(reader: Reader, run: Sent)
    requires
        spoken(reader, run),
        indices_distinct(run.state),
    ensures
        spoken(reader, close_thinking(run)),
        spoken(reader, close_text(run)),
{
    let thought = close_thinking(run);
    if run.state.thinking_open() {
        let told = run.events.push(
            block_delta(
                run.state.thinking_index,
                crate::anthropic::reply::AnthropicDeltaView::SignatureDelta {
                    signature: "erased"@,
                },
            ),
        );
        lemma_read_push(reader, run.events, told.last());
        lemma_read_push(reader, told, block_stop(run.state.thinking_index));
        assert(thought.state.tools == run.state.tools);
    }
    if run.state.text_open() {
        lemma_read_push(reader, run.events, block_stop(run.state.text_index));
        assert(close_text(run).state.tools == run.state.tools);
    }
}

proof fn lemma_text_added(reader: Reader, run: Sent, text: Seq<char>)
    requires
        spoken(reader, run),
        indices_distinct(run.state),
        run.state.start_emitted,
        !run.state.thinking_open(),
        !run.state.tool_open(),
        add_text(run, text).state.fits(),
    ensures
        spoken(reader, add_text(run, text)),
{
    let state = run.state;
    let after = add_text(run, text);
    assert(after.state.tools == state.tools);
    if !state.text_open() {
        let opened = Sent {
            state: MessageState {
                text_started: true,
                text_closed: false,
                text_index: state.next_index,
                next_index: state.next_index + 1,
                ..state
            },
            events: run.events.push(
                block_start(
                    state.next_index,
                    crate::anthropic::reply::AnthropicResponseContentBlockView::Text {
                        text: seq![],
                        citations: None,
                    },
                ),
            ),
        };
        lemma_read_push(reader, run.events, opened.events.last());
        assert(spoken(reader, opened));
        lemma_read_push(reader, opened.events, after.events.last());
    } else {
        lemma_read_push(reader, run.events, after.events.last());
    }
}

proof fn lemma_texts_added(reader: Reader, run: Sent, texts: Seq<Seq<char>>, from: int)
    requires
        0 <= from,
        spoken(reader, run),
        indices_distinct(run.state),
        run.state.start_emitted,
        !run.state.thinking_open(),
        !run.state.tool_open(),
        add_texts(run, texts, from).state.fits(),
    ensures
        spoken(reader, add_texts(run, texts, from)),
    decreases texts.len() - from,
{
    if from < texts.len() {
        let next = add_text(run, texts[from]);
        lemma_add_texts(next, texts, from + 1);
        lemma_text_added(reader, run, texts[from]);
        lemma_add_text_wf(run, texts[from]);
        assert(next.state.tools == run.state.tools);
        assert(!next.state.tool_open());
        lemma_texts_added(reader, next, texts, from + 1);
    }
}

proof fn lemma_flushed(reader: Reader, run: Sent)
    requires
        spoken(reader, run),
        indices_distinct(run.state),
        run.state.start_emitted,
        !run.state.thinking_open() || run.state.pending.len() == 0,
        !run.state.tool_open(),
        flush(run).state.fits(),
    ensures
        spoken(reader, flush(run)),
{
    let emptied = in_state(run, MessageState { pending: seq![], ..run.state });
    assert(emptied.state.tools == run.state.tools);
    assert(!emptied.state.tool_open());
    if run.state.pending.len() > 0 {
        lemma_texts_added(reader, emptied, run.state.pending, 0);
    }
}

proof fn lemma_text_spoken(reader: Reader, run: Sent, text: Seq<char>)
    requires
        spoken(reader, run),
        indices_distinct(run.state),
        run.state.start_emitted,
        on_message_text(run, text).state.fits(),
    ensures
        spoken(reader, on_message_text(run, text)),
{
    if text.len() > 0 {
        let closed = close_thinking(run);
        lemma_closed_spoken(reader, run);
        lemma_close_blocks_wf(run);
        if closed.state.tool_open() {
            let after = on_message_text(run, text);
            assert(after.state.tools == closed.state.tools);
            assert(after.state.tool_open());
        } else {
            lemma_text_added(reader, closed, text);
        }
    }
}

proof fn lemma_piece_named(
    reader: Reader,
    run: Sent,
    piece: ChatCompletionMessageToolCallChunk,
    id: Seq<char>,
)
    requires
        spoken(reader, run),
        indices_distinct(run.state),
        with_piece(run.state, piece, id).fits(),
    ensures
        spoken(reader, in_state(run, with_piece(run.state, piece, id))),
{
    let state = run.state;
    let named = with_piece(state, piece, id);
    let reserved = reserve_tools(state, (piece.index + 1) as nat);
    lemma_reserve_tools(state, (piece.index + 1) as nat);
    assert forall|j: int| 0 <= j < named.tools.len() implies {
        &&& (#[trigger] named.tools[j]).started == reserved.tools[j].started
        &&& named.tools[j].stopped == reserved.tools[j].stopped
        &&& named.tools[j].block_index == reserved.tools[j].block_index
    } by {}
    if state.tool_open() {
        let j = choose|j: int| 0 <= j < state.tools.len() && (#[trigger] state.tools[j]).is_open();
        assert(named.tools[j].is_open());
    }
}

proof fn lemma_tool_opened(reader: Reader, run: Sent, j: int)
    requires
        spoken(reader, run),
        indices_distinct(run.state),
        run.state.start_emitted,
        0 <= j < run.state.tools.len(),
        !run.state.thinking_open(),
        !run.state.text_open(),
        !run.state.tools[j].stopped,
        forall|k: int|
            0 <= k < run.state.tools.len() && k != j ==> !(
            #[trigger] run.state.tools[k]).is_open(),
    ensures
        spoken(reader, open_tool(run, j)),
        open_tool(run, j).state.tools[j].is_open(),
        open_tool(run, j).state.tools.len() == run.state.tools.len(),
        open_tool(run, j).state.tools[j].block_index == run.state.tools[j].block_index,
        indices_distinct(open_tool(run, j).state),
        !open_tool(run, j).state.thinking_open(),
        !open_tool(run, j).state.text_open(),
        forall|k: int|
            0 <= k < run.state.tools.len() && k != j ==> !(#[trigger] open_tool(
                run,
                j,
            ).state.tools[k]).is_open(),
{
    let after = open_tool(run, j);
    if !run.state.tools[j].started {
        assert(!run.state.tool_open());
        lemma_read_push(reader, run.events, after.events.last());
        assert(after.state.tools[j].is_open());
    }
}

proof fn lemma_input_spoken(reader: Reader, run: Sent, j: int, delta: Seq<char>, complete: bool)
    requires
        spoken(reader, run),
        indices_distinct(run.state),
        run.state.start_emitted,
        0 <= j < run.state.tools.len(),
        !run.state.thinking_open(),
        !run.state.text_open(),
        !run.state.tools[j].stopped,
        forall|k: int|
            0 <= k < run.state.tools.len() && k != j ==> !(
            #[trigger] run.state.tools[k]).is_open(),
    ensures
        spoken(reader, on_input(run, j, delta, complete)),
{
    lemma_tool_opened(reader, run, j);
    let opened = open_tool(run, j);
    let tool = opened.state.tools[j];
    let extended = ToolState { arguments: tool.arguments + delta, ..tool };
    let told = send(
        in_state(opened, with_tool(opened.state, j, extended)),
        block_delta(
            tool.block_index,
            crate::anthropic::reply::AnthropicDeltaView::InputJsonDelta { partial_json: delta },
        ),
    );
    lemma_read_push(reader, opened.events, told.events.last());
    assert(told.state.tools[j].is_open());
    assert(spoken(reader, told));
    let after = on_input(run, j, delta, complete);
    if tool.id.len() > 0 && tool.name.len() > 0 && complete {
        lemma_read_push(reader, told.events, block_stop(tool.block_index));
    }
}

proof fn lemma_piece_spoken(
    reader: Reader,
    run: Sent,
    piece: ChatCompletionMessageToolCallChunk,
    id: Seq<char>,
    complete: bool,
)
    requires
        spoken(reader, run),
        indices_distinct(run.state),
        run.state.start_emitted,
        !run.state.thinking_open(),
        !run.state.text_open(),
        orderly_piece(run.state, piece, id),
        on_piece(run, piece, id, complete).state.fits(),
    ensures
        spoken(reader, on_piece(run, piece, id, complete)),
        !on_piece(run, piece, id, complete).state.thinking_open(),
        !on_piece(run, piece, id, complete).state.text_open(),
        on_piece(run, piece, id, complete).state.start_emitted,
{
    let named = in_state(run, with_piece(run.state, piece, id));
    lemma_reserve_tools(run.state, (piece.index + 1) as nat);
    lemma_piece_named(reader, run, piece, id);
    lemma_piece_wf(run, piece, id, complete);
    lemma_named_wf(run, piece, id);
    if let Some(delta) = delta_arguments(piece.function) {
        if !is_duplicate(named.state, named.state.tools[piece.index as int]) {
            lemma_input_spoken(reader, named, piece.index as int, delta@, complete);
        }
    }
}

proof fn lemma_pieces_spoken(
    reader: Reader,
    run: Sent,
    pieces: Seq<ChatCompletionMessageToolCallChunk>,
    from: int,
    ids: Seq<Seq<char>>,
)
    requires
        0 <= from,
        spoken(reader, run),
        indices_distinct(run.state),
        run.state.start_emitted,
        !run.state.thinking_open(),
        !run.state.text_open(),
        orderly_pieces(run, pieces, from, ids),
        on_pieces(run, pieces, from, ids).state.fits(),
    ensures
        spoken(reader, on_pieces(run, pieces, from, ids)),
        !on_pieces(run, pieces, from, ids).state.thinking_open(),
        !on_pieces(run, pieces, from, ids).state.text_open(),
        on_pieces(run, pieces, from, ids).state.start_emitted,
    decreases pieces.len() - from,
{
    if from < pieces.len() {
        let complete = parsed_json(arguments_with(run.state, pieces[from])) is Some;
        let next = on_piece(run, pieces[from], ids[from], complete);
        lemma_pieces_grow(next, pieces, from + 1, ids);
        lemma_piece_wf(run, pieces[from], ids[from], complete);
        lemma_piece_spoken(reader, run, pieces[from], ids[from], complete);
        lemma_pieces_spoken(reader, next, pieces, from + 1, ids);
    }
}

proof fn lemma_choice_spoken(
    reader: Reader,
    run: Sent,
    choice: ChatChoiceStream,
    ids: Seq<Seq<char>>,
)
    requires
        spoken(reader, run),
        run.state.wf(),
        run.state.start_emitted,
        orderly_choice(run, choice, ids),
        on_message_choice(run, choice, ids).state.fits(),
    ensures
        spoken(reader, on_message_choice(run, choice, ids)),
        on_message_choice(run, choice, ids).state.start_emitted,
{
    let finished = with_finish(run, choice);
    let thought = on_thinking(finished, choice.delta.reasoning_content);
    let texted = on_message_text(thought, delta_text(choice.delta.content));
    let called = on_tools(texted, choice.delta.tool_calls, ids);
    lemma_choice_reserves(run, choice, ids);
    assert(finished.state.tools == run.state.tools);
    assert(finished.state.tool_open() == run.state.tool_open());
    assert(finished.state.wf());
    assert(spoken(reader, finished));
    lemma_thinking_wf(finished, choice.delta.reasoning_content);
    lemma_thinking_spoken(reader, finished, choice.delta.reasoning_content);
    lemma_text_wf(thought, delta_text(choice.delta.content));
    lemma_text_spoken(reader, thought, delta_text(choice.delta.content));
    if let Some(pieces) = choice.delta.tool_calls {
        let closed = close_thinking(texted);
        let quiet = close_text(closed);
        lemma_close_blocks_wf(texted);
        lemma_closed_spoken(reader, texted);
        lemma_closed_spoken(reader, closed);
        lemma_pieces_wf(quiet, pieces@, 0, ids);
        lemma_pieces_spoken(reader, quiet, pieces@, 0, ids);
    }
    if !called.state.tool_open() {
        lemma_flushed(reader, called);
        lemma_add_texts(
            in_state(called, MessageState { pending: seq![], ..called.state }),
            called.state.pending,
            0,
        );
    }
}

proof fn lemma_choices_spoken(
    reader: Reader,
    run: Sent,
    choices: Seq<ChatChoiceStream>,
    from: int,
    ids: Seq<Seq<Seq<char>>>,
)
    requires
        0 <= from <= choices.len(),
        spoken(reader, run),
        run.state.wf(),
        run.state.start_emitted,
        orderly_choices(run, choices, from, ids),
        on_message_choices(run, choices, from, ids).state.fits(),
    ensures
        spoken(reader, on_message_choices(run, choices, from, ids)),
    decreases choices.len() - from,
{
    if from < choices.len() {
        let next = on_message_choice(run, choices[from], ids[from]);
        lemma_choices_grow(next, choices, from + 1, ids);
        lemma_choice_wf(run, choices[from], ids[from]);
        lemma_choice_spoken(reader, run, choices[from], ids[from]);
        lemma_choices_spoken(reader, next, choices, from + 1, ids);
    }
}

/// A client that has read nothing is in step with a converter that has seen nothing.
pub proof fn law_streams_start_in_step(
    model: Seq<char>,
    context: Option<crate::anthropic::reply::AnthropicContext>,
    message_id: Seq<char>,
)
    ensures
        in_step(new_reader(), fresh_message(model, context, message_id)),
{
}

/// A client can always read the start of a message.
proof fn lemma_head_spoken(
    reader: Reader,
    state: MessageState,
    chunk: NvCreateChatCompletionStreamResponse,
)
    requires
        state.wf(),
        in_step(reader, state),
    ensures
        spoken(reader, with_chunk_head(state, chunk)),
        with_chunk_head(state, chunk).state.wf(),
        with_chunk_head(state, chunk).state.start_emitted,
{
    let head = with_chunk_head(state, chunk);
    assert(head.state.tools == state.tools);
    assert(head.state.tool_open() == state.tool_open());
    if !state.start_emitted {
        lemma_read_push(reader, seq![], head.events.last());
        assert(head.events =~= Seq::<AnthropicStreamEventView>::empty().push(head.events.last()));
    }
}

/// A client can read the events of an orderly chunk after which the block counter fits.
pub proof fn lemma_chunk_spoken(
    reader: Reader,
    state: MessageState,
    chunk: NvCreateChatCompletionStreamResponse,
    ids: Seq<Seq<Seq<char>>>,
)
    requires
        state.wf(),
        in_step(reader, state),
        after_message_chunk(state, chunk, ids).state.fits(),
        orderly(state, chunk, ids),
    ensures
        ({
            let sent = after_message_chunk(state, chunk, ids);
            &&& read_all(reader, sent.events) matches Some(after) && in_step(after, sent.state)
            &&& sent.state.wf()
        }),
{
    let head = with_chunk_head(state, chunk);
    lemma_head_spoken(reader, state, chunk);
    lemma_choices_spoken(reader, head, chunk.inner.choices@, 0, ids);
    crate::anthropic::stream_laws::lemma_choices_wf(head, chunk.inner.choices@, 0, ids);
}

/// A client can read the events of every orderly chunk, and stays in step: the message starts
/// first and once, each block starts once and when no other is open, and deltas and stops are
/// of the open block.
pub proof fn law_chunks_are_read_in_order(
    reader: Reader,
    state: MessageState,
    chunk: NvCreateChatCompletionStreamResponse,
    ids: Seq<Seq<Seq<char>>>,
)
    requires
        state.wf(),
        in_step(reader, state),
        has_block_room(state, chunk),
        orderly(state, chunk, ids),
    ensures
        ({
            let sent = after_message_chunk(state, chunk, ids);
            read_all(reader, sent.events) matches Some(after) && in_step(after, sent.state)
        }),
{
    lemma_block_room(state, chunk, ids);
    lemma_chunk_spoken(reader, state, chunk, ids);
}

/// Whether a run of events starts with another.
pub open spec fn continues(
    before: Seq<AnthropicStreamEventView>,
    after: Seq<AnthropicStreamEventView>,
) -> bool {
    before.len() <= after.len() && after.take(before.len() as int) =~= before
}

proof fn lemma_goes_on(
    first: Seq<AnthropicStreamEventView>,
    second: Seq<AnthropicStreamEventView>,
    third: Seq<AnthropicStreamEventView>,
)
    requires
        continues(first, second),
        continues(second, third),
    ensures
        continues(first, third),
{
    assert(third.take(first.len() as int) =~= third.take(second.len() as int).take(
        first.len() as int,
    ));
}

/// A client that could not read the start of a run cannot read all of it.
proof fn lemma_stays_unread(
    reader: Reader,
    before: Seq<AnthropicStreamEventView>,
    after: Seq<AnthropicStreamEventView>,
)
    requires
        continues(before, after),
        read_all(reader, before) is None,
    ensures
        read_all(reader, after) is None,
    decreases after.len(),
{
    if before.len() < after.len() {
        assert(after.drop_last().take(before.len() as int) =~= before);
        lemma_stays_unread(reader, before, after.drop_last());
    } else {
        assert(after =~= before);
    }
}

proof fn lemma_texts_continue(run: Sent, texts: Seq<Seq<char>>, from: int)
    ensures
        continues(run.events, add_texts(run, texts, from).events),
    decreases texts.len() - from,
{
    if 0 <= from < texts.len() {
        let next = add_text(run, texts[from]);
        lemma_texts_continue(next, texts, from + 1);
        lemma_goes_on(run.events, next.events, add_texts(next, texts, from + 1).events);
    }
}

proof fn lemma_pieces_continue(
    run: Sent,
    pieces: Seq<ChatCompletionMessageToolCallChunk>,
    from: int,
    ids: Seq<Seq<char>>,
)
    ensures
        continues(run.events, on_pieces(run, pieces, from, ids).events),
    decreases pieces.len() - from,
{
    if 0 <= from < pieces.len() {
        let complete = parsed_json(arguments_with(run.state, pieces[from])) is Some;
        let next = on_piece(run, pieces[from], ids[from], complete);
        lemma_pieces_continue(next, pieces, from + 1, ids);
        lemma_goes_on(run.events, next.events, on_pieces(next, pieces, from + 1, ids).events);
    }
}

proof fn lemma_choice_continues(run: Sent, choice: ChatChoiceStream, ids: Seq<Seq<char>>)
    ensures
        ({
            let thought = on_thinking(with_finish(run, choice), choice.delta.reasoning_content);
            let texted = on_message_text(thought, delta_text(choice.delta.content));
            let called = on_tools(texted, choice.delta.tool_calls, ids);
            let after = on_message_choice(run, choice, ids);
            &&& continues(run.events, after.events)
            &&& continues(thought.events, after.events)
            &&& continues(called.events, after.events)
        }),
{
    let thought = on_thinking(with_finish(run, choice), choice.delta.reasoning_content);
    let texted = on_message_text(thought, delta_text(choice.delta.content));
    let called = on_tools(texted, choice.delta.tool_calls, ids);
    let after = on_message_choice(run, choice, ids);
    assert(continues(run.events, thought.events));
    assert(continues(thought.events, texted.events));
    assert(continues(texted.events, called.events)) by {
        if let Some(pieces) = choice.delta.tool_calls {
            let quiet = close_text(close_thinking(texted));
            assert(continues(texted.events, quiet.events));
            lemma_pieces_continue(quiet, pieces@, 0, ids);
            lemma_goes_on(texted.events, quiet.events, called.events);
        }
    }
    lemma_texts_continue(
        in_state(called, MessageState { pending: seq![], ..called.state }),
        called.state.pending,
        0,
    );
    assert(continues(called.events, after.events));
    lemma_goes_on(texted.events, called.events, after.events);
    lemma_goes_on(thought.events, texted.events, after.events);
    lemma_goes_on(run.events, thought.events, after.events);
}

/// The events of the choices come after those before them.
pub proof fn lemma_choices_continue(
    run: Sent,
    choices: Seq<ChatChoiceStream>,
    from: int,
    ids: Seq<Seq<Seq<char>>>,
)
    ensures
        continues(run.events, on_message_choices(run, choices, from, ids).events),
    decreases choices.len() - from,
{
    if 0 <= from < choices.len() {
        let next = on_message_choice(run, choices[from], ids[from]);
        lemma_choice_continues(run, choices[from], ids[from]);
        lemma_choices_continue(next, choices, from + 1, ids);
        lemma_goes_on(
            run.events,
            next.events,
            on_message_choices(next, choices, from + 1, ids).events,
        );
    }
}

/// Reasoning that comes too late cannot be read.
proof fn lemma_thinking_unread(reader: Reader, run: Sent, text: Option<String>)
    requires
        spoken(reader, run),
        indices_distinct(run.state),
        !orderly_thinking(run.state, text),
        on_thinking(run, text).state.fits(),
    ensures
        read_all(reader, on_thinking(run, text).events) is None,
{
    let state = run.state;
    let after = on_thinking(run, text).events;
    if state.thinking_started {
        lemma_read_push(reader, run.events, after.last());
        assert(after == run.events.push(after.last()));
    } else {
        let opened = after.drop_last();
        assert(opened == run.events.push(opened.last()));
        lemma_read_push(reader, run.events, opened.last());
    }
}

/// Arguments for a call that is over, or while another call is open, cannot be read.
proof fn lemma_piece_unread(
    reader: Reader,
    run: Sent,
    piece: ChatCompletionMessageToolCallChunk,
    id: Seq<char>,
    complete: bool,
)
    requires
        spoken(reader, run),
        indices_distinct(run.state),
        !run.state.thinking_open(),
        !run.state.text_open(),
        !orderly_piece(run.state, piece, id),
        on_piece(run, piece, id, complete).state.fits(),
    ensures
        read_all(reader, on_piece(run, piece, id, complete).events) is None,
{
    let named = in_state(run, with_piece(run.state, piece, id));
    let j = piece.index as int;
    let delta = delta_arguments(piece.function)->0@;
    let after = on_input(named, j, delta, complete).events;
    lemma_reserve_tools(run.state, (piece.index + 1) as nat);
    lemma_piece_named(reader, run, piece, id);
    lemma_named_wf(run, piece, id);
    let tool = named.state.tools[j];
    let opened = open_tool(named, j);
    let told = opened.events.push(
        block_delta(
            tool.block_index,
            crate::anthropic::reply::AnthropicDeltaView::InputJsonDelta { partial_json: delta },
        ),
    );
    if tool.started {
        lemma_read_push(reader, run.events, told.last());
        assert(read_all(reader, told) is None);
        lemma_stays_unread(reader, told, after);
    } else {
        lemma_read_push(reader, run.events, opened.events.last());
        assert(read_all(reader, opened.events) is None);
        lemma_stays_unread(reader, opened.events, after);
    }
}

proof fn lemma_pieces_unread(
    reader: Reader,
    run: Sent,
    pieces: Seq<ChatCompletionMessageToolCallChunk>,
    from: int,
    ids: Seq<Seq<char>>,
)
    requires
        0 <= from,
        spoken(reader, run),
        indices_distinct(run.state),
        run.state.start_emitted,
        !run.state.thinking_open(),
        !run.state.text_open(),
        !orderly_pieces(run, pieces, from, ids),
        on_pieces(run, pieces, from, ids).state.fits(),
    ensures
        read_all(reader, on_pieces(run, pieces, from, ids).events) is None,
    decreases pieces.len() - from,
{
    if from < pieces.len() {
        let complete = parsed_json(arguments_with(run.state, pieces[from])) is Some;
        let next = on_piece(run, pieces[from], ids[from], complete);
        lemma_pieces_grow(next, pieces, from + 1, ids);
        if orderly_piece(run.state, pieces[from], ids[from]) {
            lemma_piece_wf(run, pieces[from], ids[from], complete);
            lemma_piece_spoken(reader, run, pieces[from], ids[from], complete);
            lemma_pieces_unread(reader, next, pieces, from + 1, ids);
        } else {
            lemma_piece_unread(reader, run, pieces[from], ids[from], complete);
            lemma_pieces_continue(next, pieces, from + 1, ids);
            lemma_stays_unread(
                reader,
                next.events,
                on_pieces(next, pieces, from + 1, ids).events,
            );
        }
    }
}

proof fn lemma_choice_unread(
    reader: Reader,
    run: Sent,
    choice: ChatChoiceStream,
    ids: Seq<Seq<char>>,
)
    requires
        spoken(reader, run),
        run.state.wf(),
        run.state.start_emitted,
        !orderly_choice(run, choice, ids),
        on_message_choice(run, choice, ids).state.fits(),
    ensures
        read_all(reader, on_message_choice(run, choice, ids).events) is None,
{
    let finished = with_finish(run, choice);
    let thought = on_thinking(finished, choice.delta.reasoning_content);
    let texted = on_message_text(thought, delta_text(choice.delta.content));
    let called = on_tools(texted, choice.delta.tool_calls, ids);
    let after = on_message_choice(run, choice, ids).events;
    lemma_choice_reserves(run, choice, ids);
    lemma_choice_continues(run, choice, ids);
    assert(finished.state.tools == run.state.tools);
    assert(finished.state.tool_open() == run.state.tool_open());
    assert(finished.state.wf());
    assert(spoken(reader, finished));
    if orderly_thinking(finished.state, choice.delta.reasoning_content) {
        let pieces = choice.delta.tool_calls->0@;
        let closed = close_thinking(texted);
        let quiet = close_text(closed);
        lemma_thinking_wf(finished, choice.delta.reasoning_content);
        lemma_thinking_spoken(reader, finished, choice.delta.reasoning_content);
        lemma_text_wf(thought, delta_text(choice.delta.content));
        lemma_text_spoken(reader, thought, delta_text(choice.delta.content));
        lemma_close_blocks_wf(texted);
        lemma_closed_spoken(reader, texted);
        lemma_closed_spoken(reader, closed);
        lemma_pieces_unread(reader, quiet, pieces, 0, ids);
        lemma_stays_unread(reader, called.events, after);
    } else {
        lemma_thinking_unread(reader, finished, choice.delta.reasoning_content);
        lemma_stays_unread(reader, thought.events, after);
    }
}

proof fn lemma_choices_unread(
    reader: Reader,
    run: Sent,
    choices: Seq<ChatChoiceStream>,
    from: int,
    ids: Seq<Seq<Seq<char>>>,
)
    requires
        0 <= from <= choices.len(),
        spoken(reader, run),
        run.state.wf(),
        run.state.start_emitted,
        !orderly_choices(run, choices, from, ids),
        on_message_choices(run, choices, from, ids).state.fits(),
    ensures
        read_all(reader, on_message_choices(run, choices, from, ids).events) is None,
    decreases choices.len() - from,
{
    if from < choices.len() {
        let next = on_message_choice(run, choices[from], ids[from]);
        lemma_choices_grow(next, choices, from + 1, ids);
        if orderly_choice(run, choices[from], ids[from]) {
            lemma_choice_wf(run, choices[from], ids[from]);
            lemma_choice_spoken(reader, run, choices[from], ids[from]);
            lemma_choices_unread(reader, next, choices, from + 1, ids);
        } else {
            lemma_choice_unread(reader, run, choices[from], ids[from]);
            lemma_choices_continue(next, choices, from + 1, ids);
            lemma_stays_unread(
                reader,
                next.events,
                on_message_choices(next, choices, from + 1, ids).events,
            );
        }
    }
}

/// A client that is in step cannot read the events of a chunk that is not orderly: one of them
/// is out of place.
pub proof fn law_disorderly_chunks_cannot_be_read(
    reader: Reader,
    state: MessageState,
    chunk: NvCreateChatCompletionStreamResponse,
    ids: Seq<Seq<Seq<char>>>,
)
    requires
        state.wf(),
        in_step(reader, state),
        has_block_room(state, chunk),
        !orderly(state, chunk, ids),
    ensures
        read_all(reader, after_message_chunk(state, chunk, ids).events) is None,
{
    let head = with_chunk_head(state, chunk);
    lemma_block_room(state, chunk, ids);
    lemma_head_spoken(reader, state, chunk);
    lemma_choices_unread(reader, head, chunk.inner.choices@, 0, ids);
}

proof fn lemma_tools_closed(reader: Reader, run: Sent, from: int)
    requires
        0 <= from,
        spoken(reader, run),
        indices_distinct(run.state),
    ensures
        spoken(reader, close_tools(run, from)),
    decreases run.state.tools.len() - from,
{
    if from < run.state.tools.len() {
        let tool = run.state.tools[from];
        if tool.is_open() {
            let closed = send(
                in_state(run, with_tool(run.state, from, ToolState { stopped: true, ..tool })),
                block_stop(tool.block_index),
            );
            lemma_read_push(reader, run.events, block_stop(tool.block_index));
            assert(spoken(reader, closed));
            lemma_tools_closed(reader, closed, from + 1);
        } else {
            lemma_tools_closed(reader, run, from + 1);
        }
    }
}

/// A client that is in step can read the end of the stream, and has then read a whole
/// message: started, with every block stopped, and over.
pub proof fn law_streams_end_in_order(reader: Reader, state: MessageState)
    requires
        state.wf(),
        in_step(reader, state),
        state.next_index < u32::MAX,
    ensures
        read_all(reader, after_message_end(state).events) matches Some(after) && {
            &&& after.begun
            &&& after.block is None
            &&& after.told
            &&& after.over
        },
{
    let head = open_stream(Sent { state, events: seq![] }, 0);
    assert(head.state.tools == state.tools);
    assert(head.state.tool_open() == state.tool_open());
    if !state.start_emitted {
        lemma_read_push(reader, seq![], head.events.last());
        assert(head.events =~= Seq::<AnthropicStreamEventView>::empty().push(head.events.last()));
    }
    assert(spoken(reader, head));
    crate::anthropic::stream_laws::law_end_closes_every_block(state);
    let thought = close_thinking(head);
    lemma_closed_spoken(reader, head);
    lemma_close_blocks_wf(head);
    let tooled = close_tools(thought, 0);
    lemma_tools_closed(reader, thought, 0);
    lemma_close_tools(thought, 0);
    assert(!tooled.state.tool_open());
    assert(indices_distinct(tooled.state));
    let emptied = in_state(tooled, MessageState { pending: seq![], ..tooled.state });
    lemma_add_texts(emptied, tooled.state.pending, 0);
    let flushed = flush(tooled);
    lemma_flushed(reader, tooled);
    crate::anthropic::stream_laws::lemma_add_texts_wf(emptied, tooled.state.pending);
    lemma_closed_spoken(reader, flushed);
    let closed = close_text(flushed);
    assert(closed == all_closed(head));
    assert(closed.state.tools == tooled.state.tools);
    assert(!closed.state.tool_open());
    let events = after_message_end(state).events;
    let told = events.drop_last();
    assert(told.drop_last() =~= closed.events);
    assert(told == closed.events.push(told.last()));
    lemma_read_push(reader, closed.events, told.last());
    assert(events == told.push(events.last()));
    lemma_read_push(reader, told, events.last());
}

} // verus!
