//! The stream of Anthropic events that a stream of chat completion chunks becomes.
//!
//! `message_start`, then per content block a start, its deltas and a stop, then
//! `message_delta` and `message_stop`. What the converter holds is [`MessageState`]; what it
//! holds and has emitted is [`Sent`], and each step is a function from one `Sent` to the next.

use vstd::prelude::*;

use crate::anthropic::convert::{anthropic_usage, matched_stop, stop_reason_of};
use crate::anthropic::reply::{
    AnthropicContext, AnthropicDeltaView, AnthropicErrorBodyView, AnthropicMessageDeltaBodyView,
    AnthropicMessageResponseView, AnthropicResponseContentBlockView, AnthropicStopReason,
    AnthropicStreamEventView, AnthropicUsage,
};
use crate::chat::{
    ChatChoiceStream, ChatCompletionMessageToolCallChunk, FinishReason,
    NvCreateChatCompletionStreamResponse,
};
use crate::json::{parsed_json, JsonView};
use crate::responses::stream::{delta_arguments, delta_text};

verus! {

/// A tool call of the stream so far.
#[verifier::ext_equal]
pub struct ToolState {
    pub id: Seq<char>,
    pub name: Seq<char>,
    pub arguments: Seq<char>,
    pub block_index: nat,
    pub started: bool,
    pub stopped: bool,
}

impl ToolState {
    /// Whether the block of the call is open.
    pub open spec fn is_open(self) -> bool {
        self.started && !self.stopped
    }
}

/// What the converter holds.
#[verifier::ext_equal]
pub struct MessageState {
    pub model: Seq<char>,
    pub message_id: Seq<char>,
    pub context: Option<AnthropicContext>,
    pub thinking_started: bool,
    pub thinking_closed: bool,
    pub thinking_index: nat,
    pub text_started: bool,
    pub text_closed: bool,
    pub text_index: nat,
    pub pending: Seq<Seq<char>>,
    pub usage: AnthropicUsage,
    pub tools: Seq<ToolState>,
    pub sent_ids: Seq<Seq<char>>,
    pub next_index: nat,
    pub finish_reason: Option<FinishReason>,
    pub matched: Option<Seq<char>>,
    pub start_emitted: bool,
}

/// What the converter holds, and the events that one of its operations has emitted.
#[verifier::ext_equal]
pub struct Sent {
    pub state: MessageState,
    pub events: Seq<AnthropicStreamEventView>,
}

impl MessageState {
    /// Whether the block counter fits its machine type.
    pub open spec fn fits(self) -> bool {
        self.next_index <= u32::MAX
    }

    /// Whether the block of some call is open.
    pub open spec fn tool_open(self) -> bool {
        exists|j: int| 0 <= j < self.tools.len() && (#[trigger] self.tools[j]).is_open()
    }

    /// Every block index given out is below the next one, and no two blocks share one. What
    /// is closed was started. Text waits only for an open call.
    pub open spec fn wf(self) -> bool {
        &&& self.fits()
        &&& self.tools.len() <= self.next_index
        &&& self.thinking_index <= u32::MAX
        &&& self.text_index <= u32::MAX
        &&& self.thinking_closed ==> self.thinking_started
        &&& self.thinking_started ==> self.thinking_index < self.next_index
        &&& self.text_started ==> self.text_index < self.next_index
        &&& self.thinking_started && self.text_started ==> self.thinking_index != self.text_index
        &&& forall|j: int|
            0 <= j < self.tools.len() ==> {
                &&& (#[trigger] self.tools[j]).block_index < self.next_index
                &&& self.thinking_started ==> self.tools[j].block_index != self.thinking_index
                &&& self.text_started ==> self.tools[j].block_index != self.text_index
                &&& self.tools[j].stopped ==> self.tools[j].started
            }
        &&& forall|j: int, k: int|
            #![trigger self.tools[j], self.tools[k]]
            0 <= j < k < self.tools.len() ==> self.tools[j].block_index < self.tools[k].block_index
        &&& self.pending.len() > 0 ==> self.tool_open()
    }
}

/// The state of a converter that has seen nothing yet.
pub open spec fn fresh_message(
    model: Seq<char>,
    context: Option<AnthropicContext>,
    message_id: Seq<char>,
) -> MessageState {
    MessageState {
        model,
        message_id,
        context,
        thinking_started: false,
        thinking_closed: false,
        thinking_index: 0,
        text_started: false,
        text_closed: false,
        text_index: 0,
        pending: seq![],
        usage: AnthropicUsage {
            input_tokens: 0,
            output_tokens: 0,
            cache_creation_input_tokens: Some(0),
            cache_read_input_tokens: Some(0),
        },
        tools: seq![],
        sent_ids: seq![],
        next_index: 0,
        finish_reason: None,
        matched: None,
        start_emitted: false,
    }
}

/// One more event.
pub open spec fn send(run: Sent, event: AnthropicStreamEventView) -> Sent {
    Sent { state: run.state, events: run.events.push(event) }
}

/// The state after a change, with the events as they are.
pub open spec fn in_state(run: Sent, state: MessageState) -> Sent {
    Sent { state, events: run.events }
}

/// The stop of a block.
pub open spec fn block_stop(index: nat) -> AnthropicStreamEventView {
    AnthropicStreamEventView::ContentBlockStop { index: index as u32 }
}

/// The start of a block.
pub open spec fn block_start(
    index: nat,
    content_block: AnthropicResponseContentBlockView,
) -> AnthropicStreamEventView {
    AnthropicStreamEventView::ContentBlockStart { index: index as u32, content_block }
}

/// An addition to a block.
pub open spec fn block_delta(index: nat, delta: AnthropicDeltaView) -> AnthropicStreamEventView {
    AnthropicStreamEventView::ContentBlockDelta { index: index as u32, delta }
}

/// The start of the message, unless it has started. `input_tokens` is what is known of the
/// prompt.
pub open spec fn open_stream(run: Sent, input_tokens: u32) -> Sent {
    let state = run.state;
    if state.start_emitted {
        run
    } else {
        send(
            in_state(run, MessageState { start_emitted: true, ..state }),
            AnthropicStreamEventView::MessageStart {
                message: AnthropicMessageResponseView {
                    id: state.message_id,
                    object_type: "message"@,
                    role: "assistant"@,
                    content: seq![],
                    model: state.model,
                    stop_reason: None,
                    stop_sequence: None,
                    usage: AnthropicUsage { input_tokens, ..state.usage },
                },
            },
        )
    }
}

/// Reasoning extends the thinking block, which the first of it opens.
pub open spec fn on_thinking(run: Sent, text: Option<String>) -> Sent {
    match text {
        Some(thinking) if thinking@.len() > 0 => {
            let state = run.state;
            let opened = if state.thinking_started {
                run
            } else {
                send(
                    in_state(
                        run,
                        MessageState {
                            thinking_started: true,
                            thinking_index: state.next_index,
                            next_index: state.next_index + 1,
                            ..state
                        },
                    ),
                    block_start(
                        state.next_index,
                        AnthropicResponseContentBlockView::Thinking {
                            thinking: seq![],
                            signature: seq![],
                        },
                    ),
                )
            };
            send(
                opened,
                block_delta(
                    opened.state.thinking_index,
                    AnthropicDeltaView::ThinkingDelta { thinking: thinking@ },
                ),
            )
        },
        _ => run,
    }
}

/// Closes the thinking block, if it is open: a placeholder signature, then the stop.
pub open spec fn close_thinking(run: Sent) -> Sent {
    let state = run.state;
    if state.thinking_started && !state.thinking_closed {
        send(
            send(
                in_state(run, MessageState { thinking_closed: true, ..state }),
                block_delta(
                    state.thinking_index,
                    AnthropicDeltaView::SignatureDelta { signature: "erased"@ },
                ),
            ),
            block_stop(state.thinking_index),
        )
    } else {
        run
    }
}

/// Closes the text block, if it is open.
pub open spec fn close_text(run: Sent) -> Sent {
    let state = run.state;
    if state.text_started && !state.text_closed {
        send(
            in_state(run, MessageState { text_closed: true, ..state }),
            block_stop(state.text_index),
        )
    } else {
        run
    }
}

/// Extends the text block. Where none is open, a new one is.
pub open spec fn add_text(run: Sent, text: Seq<char>) -> Sent {
    let state = run.state;
    let opened = if state.text_started && !state.text_closed {
        run
    } else {
        send(
            in_state(
                run,
                MessageState {
                    text_started: true,
                    text_closed: false,
                    text_index: state.next_index,
                    next_index: state.next_index + 1,
                    ..state
                },
            ),
            block_start(
                state.next_index,
                AnthropicResponseContentBlockView::Text { text: seq![], citations: None },
            ),
        )
    };
    send(opened, block_delta(opened.state.text_index, AnthropicDeltaView::TextDelta { text }))
}

/// Adds the texts from position `from` on.
pub open spec fn add_texts(run: Sent, texts: Seq<Seq<char>>, from: int) -> Sent
    decreases texts.len() - from,
{
    if from < 0 || from >= texts.len() {
        run
    } else {
        add_texts(add_text(run, texts[from]), texts, from + 1)
    }
}

/// Releases the text that waited.
pub open spec fn flush(run: Sent) -> Sent {
    add_texts(
        in_state(run, MessageState { pending: seq![], ..run.state }),
        run.state.pending,
        0,
    )
}

/// Text closes the thinking block. While a call is open it waits.
pub open spec fn on_message_text(run: Sent, text: Seq<char>) -> Sent {
    if text.len() == 0 {
        run
    } else {
        let closed = close_thinking(run);
        if closed.state.tool_open() {
            in_state(
                closed,
                MessageState { pending: closed.state.pending.push(text), ..closed.state },
            )
        } else {
            add_text(closed, text)
        }
    }
}

/// A call that has a place among the blocks but has not started.
pub open spec fn reserved_tool(block_index: nat) -> ToolState {
    ToolState {
        id: seq![],
        name: seq![],
        arguments: seq![],
        block_index,
        started: false,
        stopped: false,
    }
}

/// Reserves calls until there are `count`.
pub open spec fn reserve_tools(state: MessageState, count: nat) -> MessageState
    decreases count - state.tools.len(),
{
    if state.tools.len() >= count {
        state
    } else {
        reserve_tools(
            MessageState {
                tools: state.tools.push(reserved_tool(state.next_index)),
                next_index: state.next_index + 1,
                ..state
            },
            count,
        )
    }
}

/// The state with the call at position `j` replaced.
pub open spec fn with_tool(state: MessageState, j: int, tool: ToolState) -> MessageState {
    MessageState { tools: state.tools.update(j, tool), ..state }
}

/// The call with the id and the name that a piece of it brings. A call takes one id, the
/// first time that a piece brings one.
pub open spec fn named_tool(
    tool: ToolState,
    piece: ChatCompletionMessageToolCallChunk,
    id: Seq<char>,
) -> ToolState {
    let name = match piece.function {
        Some(f) => f.name,
        None => None,
    };
    ToolState {
        id: if piece.id is Some && tool.id.len() == 0 {
            id
        } else {
            tool.id
        },
        name: match name {
            Some(text) => text@,
            None => tool.name,
        },
        ..tool
    }
}

/// The state with a place for the call of a piece, and what the piece names.
pub open spec fn with_piece(
    state: MessageState,
    piece: ChatCompletionMessageToolCallChunk,
    id: Seq<char>,
) -> MessageState {
    let reserved = reserve_tools(state, (piece.index + 1) as nat);
    let j = piece.index as int;
    with_tool(reserved, j, named_tool(reserved.tools[j], piece, id))
}

/// Whether a call must not start because its id was sent before.
pub open spec fn is_duplicate(state: MessageState, tool: ToolState) -> bool {
    !tool.started && tool.id.len() > 0 && state.sent_ids.contains(tool.id)
}

/// Starts the block of the call at position `j`, unless it has started.
pub open spec fn open_tool(run: Sent, j: int) -> Sent {
    let state = run.state;
    let tool = state.tools[j];
    if tool.started {
        run
    } else {
        let started = with_tool(state, j, ToolState { started: true, ..tool });
        send(
            in_state(
                run,
                MessageState {
                    sent_ids: if tool.id.len() > 0 {
                        state.sent_ids.push(tool.id)
                    } else {
                        state.sent_ids
                    },
                    ..started
                },
            ),
            block_start(
                tool.block_index,
                AnthropicResponseContentBlockView::ToolUse {
                    id: tool.id,
                    name: tool.name,
                    input: JsonView::Object(seq![]),
                },
            ),
        )
    }
}

/// A piece of the arguments of the call at position `j`. With `complete`, the arguments are
/// complete with it, which closes the block of a call that has an id and a name.
pub open spec fn on_input(run: Sent, j: int, delta: Seq<char>, complete: bool) -> Sent {
    let opened = open_tool(run, j);
    let tool = opened.state.tools[j];
    let extended = ToolState { arguments: tool.arguments + delta, ..tool };
    let told = send(
        in_state(opened, with_tool(opened.state, j, extended)),
        block_delta(
            tool.block_index,
            AnthropicDeltaView::InputJsonDelta { partial_json: delta },
        ),
    );
    if tool.id.len() > 0 && tool.name.len() > 0 && !tool.stopped && complete {
        send(
            in_state(
                told,
                with_tool(told.state, j, ToolState { stopped: true, ..extended }),
            ),
            block_stop(tool.block_index),
        )
    } else {
        told
    }
}

/// A piece of a tool call. `id` is the id that the call takes if it takes one now, and
/// `complete` says whether the arguments are complete with the piece.
pub open spec fn on_piece(
    run: Sent,
    piece: ChatCompletionMessageToolCallChunk,
    id: Seq<char>,
    complete: bool,
) -> Sent {
    let j = piece.index as int;
    let state = with_piece(run.state, piece, id);
    match delta_arguments(piece.function) {
        Some(delta) if !is_duplicate(state, state.tools[j]) => on_input(
            in_state(run, state),
            j,
            delta@,
            complete,
        ),
        _ => in_state(run, state),
    }
}

/// The arguments of the call of a piece, with the piece.
pub open spec fn arguments_with(
    state: MessageState,
    piece: ChatCompletionMessageToolCallChunk,
) -> Seq<char> {
    let before = if piece.index < state.tools.len() {
        state.tools[piece.index as int].arguments
    } else {
        seq![]
    };
    match delta_arguments(piece.function) {
        Some(delta) => before + delta@,
        None => before,
    }
}

/// The pieces of tool calls from position `from` on. Arguments are complete when they are
/// JSON.
pub open spec fn on_pieces(
    run: Sent,
    pieces: Seq<ChatCompletionMessageToolCallChunk>,
    from: int,
    ids: Seq<Seq<char>>,
) -> Sent
    decreases pieces.len() - from,
{
    if from < 0 || from >= pieces.len() {
        run
    } else {
        on_pieces(
            on_piece(
                run,
                pieces[from],
                ids[from],
                parsed_json(arguments_with(run.state, pieces[from])) is Some,
            ),
            pieces,
            from + 1,
            ids,
        )
    }
}

/// Tool calls close the thinking block and the text block.
pub open spec fn on_tools(
    run: Sent,
    pieces: Option<Vec<ChatCompletionMessageToolCallChunk>>,
    ids: Seq<Seq<char>>,
) -> Sent {
    match pieces {
        Some(all) => on_pieces(close_text(close_thinking(run)), all@, 0, ids),
        None => run,
    }
}

/// Releases the text that waited, unless a call is open.
pub open spec fn flush_if_free(run: Sent) -> Sent {
    if run.state.tool_open() {
        run
    } else {
        flush(run)
    }
}

/// One choice of a chunk.
pub open spec fn on_message_choice(
    run: Sent,
    choice: ChatChoiceStream,
    ids: Seq<Seq<char>>,
) -> Sent {
    let finished = match choice.finish_reason {
        Some(reason) => in_state(
            run,
            MessageState { finish_reason: Some(reason), ..run.state },
        ),
        None => run,
    };
    let thought = on_thinking(finished, choice.delta.reasoning_content);
    let texted = on_message_text(thought, delta_text(choice.delta.content));
    let called = on_tools(texted, choice.delta.tool_calls, ids);
    flush_if_free(called)
}

/// The choices of a chunk from position `from` on.
pub open spec fn on_message_choices(
    run: Sent,
    choices: Seq<ChatChoiceStream>,
    from: int,
    ids: Seq<Seq<Seq<char>>>,
) -> Sent
    decreases choices.len() - from,
{
    if from < 0 || from >= choices.len() {
        run
    } else {
        on_message_choices(
            on_message_choice(run, choices[from], ids[from]),
            choices,
            from + 1,
            ids,
        )
    }
}

/// The state with what a chunk says of the whole message: its token counts and the stop
/// sequence that matched.
pub open spec fn with_chunk_usage(
    state: MessageState,
    chunk: NvCreateChatCompletionStreamResponse,
) -> MessageState {
    match chunk.inner.usage {
        Some(usage) => MessageState { usage: anthropic_usage(usage), ..state },
        None => state,
    }
}

/// The input tokens that the message may start with: those of the chunk, where it reports
/// how many of them were cached.
pub open spec fn initial_tokens(chunk: NvCreateChatCompletionStreamResponse) -> u32 {
    match chunk.inner.usage {
        Some(usage) if usage.cached_tokens() is Some => anthropic_usage(usage).input_tokens,
        _ => 0,
    }
}

/// The state with the stop sequence that a chunk reports to have matched.
pub open spec fn with_chunk_match(
    state: MessageState,
    chunk: NvCreateChatCompletionStreamResponse,
) -> MessageState {
    match matched_stop(chunk.nvext, state.context) {
        Some(text) => MessageState { matched: Some(text), ..state },
        None => state,
    }
}

/// One chunk. The call of piece `k` of choice `c` takes the id `ids[c][k]`, if it takes one.
pub open spec fn after_message_chunk(
    state: MessageState,
    chunk: NvCreateChatCompletionStreamResponse,
    ids: Seq<Seq<Seq<char>>>,
) -> Sent {
    let opened = open_stream(
        Sent { state: with_chunk_usage(state, chunk), events: seq![] },
        initial_tokens(chunk),
    );
    on_message_choices(
        in_state(opened, with_chunk_match(opened.state, chunk)),
        chunk.inner.choices@,
        0,
        ids,
    )
}

/// Closes the blocks of the calls from position `from` on that are open.
pub open spec fn close_tools(run: Sent, from: int) -> Sent
    decreases run.state.tools.len() - from,
{
    if from < 0 || from >= run.state.tools.len() {
        run
    } else {
        let tool = run.state.tools[from];
        let closed = if tool.is_open() {
            send(
                in_state(
                    run,
                    with_tool(run.state, from, ToolState { stopped: true, ..tool }),
                ),
                block_stop(tool.block_index),
            )
        } else {
            run
        };
        close_tools(closed, from + 1)
    }
}

/// Why the message stopped, as the client is told.
pub open spec fn final_reason(state: MessageState) -> Option<AnthropicStopReason> {
    match state.finish_reason {
        Some(FinishReason::Stop) if state.matched is Some => Some(
            AnthropicStopReason::StopSequence,
        ),
        Some(reason) => Some(stop_reason_of(reason)),
        None => None,
    }
}

/// Every block closed and all text released.
pub open spec fn all_closed(run: Sent) -> Sent {
    close_text(flush(close_tools(close_thinking(run), 0)))
}

/// The end of a stream: every block is closed, then the message ends.
pub open spec fn after_message_end(state: MessageState) -> Sent {
    let closed = all_closed(open_stream(Sent { state, events: seq![] }, 0));
    let reason = final_reason(closed.state);
    send(
        send(
            closed,
            AnthropicStreamEventView::MessageDelta {
                delta: AnthropicMessageDeltaBodyView {
                    stop_reason: reason,
                    stop_sequence: if reason == Some(AnthropicStopReason::StopSequence) {
                        closed.state.matched
                    } else {
                        None
                    },
                },
                usage: closed.state.usage,
            },
        ),
        AnthropicStreamEventView::MessageStop,
    )
}

/// The event that ends a stream on a backend error.
pub open spec fn message_error() -> AnthropicStreamEventView {
    AnthropicStreamEventView::Error {
        error: AnthropicErrorBodyView {
            error_type: "api_error"@,
            message: "An internal error occurred during generation."@,
        },
    }
}

/// One more than the largest call index of the pieces.
pub open spec fn piece_bound(pieces: Seq<ChatCompletionMessageToolCallChunk>) -> nat
    decreases pieces.len(),
{
    if pieces.len() == 0 {
        0
    } else {
        let rest = piece_bound(pieces.drop_last());
        if pieces.last().index + 1 > rest {
            (pieces.last().index + 1) as nat
        } else {
            rest
        }
    }
}

/// One more than the largest call index of a choice.
pub open spec fn choice_bound(choice: ChatChoiceStream) -> nat {
    match choice.delta.tool_calls {
        Some(pieces) => piece_bound(pieces@),
        None => 0,
    }
}

/// One more than the largest call index of the choices.
pub open spec fn choices_bound(choices: Seq<ChatChoiceStream>) -> nat
    decreases choices.len(),
{
    if choices.len() == 0 {
        0
    } else {
        let rest = choices_bound(choices.drop_last());
        if choice_bound(choices.last()) > rest {
            choice_bound(choices.last())
        } else {
            rest
        }
    }
}

/// Whether the block counter is sure to fit its machine type after a chunk: a choice can open
/// a thinking block and two text blocks beside the blocks of its calls.
pub open spec fn has_block_room(
    state: MessageState,
    chunk: NvCreateChatCompletionStreamResponse,
) -> bool {
    let choices = chunk.inner.choices@;
    let new_tools = if choices_bound(choices) > state.tools.len() {
        choices_bound(choices) - state.tools.len()
    } else {
        0
    };
    state.next_index + new_tools + 3 * choices.len() <= u32::MAX
}

} // verus!
