//! What the events of a message carry: all of the text and of the reasoning that came, in
//! order, and for each call the arguments that are held for it.

use vstd::prelude::*;

use crate::anthropic::reply::{AnthropicDeltaView, AnthropicStreamEventView};
use crate::anthropic::stream::{
    add_text, add_texts, after_message_chunk, after_message_end, all_closed, arguments_with,
    block_delta, block_stop, close_text, close_thinking, close_tools, flush, flush_if_free,
    has_block_room, in_state, is_duplicate, on_input, on_message_choice, on_message_choices,
    on_message_text, on_piece, on_pieces, on_thinking, on_tools, open_stream, open_tool,
    reserve_tools, send, with_piece, with_tool, MessageState, Sent, ToolState,
};
use crate::anthropic::stream_laws::{
    indices_distinct, lemma_add_texts, lemma_block_room, lemma_choice_reserves, lemma_choice_wf,
    lemma_choices_grow, lemma_close_blocks_wf, lemma_close_tools, lemma_named_wf, lemma_piece_wf,
    lemma_pieces_grow, lemma_pieces_wf, lemma_reserve_tools, lemma_text_wf, lemma_thinking_wf,
};
use crate::anthropic::stream_order::{with_chunk_head, with_finish};
use crate::chat::{
    ChatChoiceStream, ChatCompletionMessageToolCallChunk, NvCreateChatCompletionStreamResponse,
};
use crate::json::parsed_json;
use crate::responses::stream::{delta_arguments, delta_text};

verus! {

/// The text that an event carries.
pub open spec fn text_in(event: AnthropicStreamEventView) -> Seq<char> {
    match event {
        AnthropicStreamEventView::ContentBlockDelta {
            delta: AnthropicDeltaView::TextDelta { text },
            ..
        } => text,
        _ => seq![],
    }
}

/// The reasoning that an event carries.
pub open spec fn thinking_in(event: AnthropicStreamEventView) -> Seq<char> {
    match event {
        AnthropicStreamEventView::ContentBlockDelta {
            delta: AnthropicDeltaView::ThinkingDelta { thinking },
            ..
        } => thinking,
        _ => seq![],
    }
}

/// The arguments that an event carries for the block `index`.
pub open spec fn input_in(event: AnthropicStreamEventView, index: nat) -> Seq<char> {
    match event {
        AnthropicStreamEventView::ContentBlockDelta {
            index: block,
            delta: AnthropicDeltaView::InputJsonDelta { partial_json },
        } if block == index => partial_json,
        _ => seq![],
    }
}

/// The text that events carry.
pub open spec fn sent_text(events: Seq<AnthropicStreamEventView>) -> Seq<char>
    decreases events.len(),
{
    if events.len() == 0 {
        seq![]
    } else {
        sent_text(events.drop_last()) + text_in(events.last())
    }
}

/// The reasoning that events carry.
pub open spec fn sent_thinking(events: Seq<AnthropicStreamEventView>) -> Seq<char>
    decreases events.len(),
{
    if events.len() == 0 {
        seq![]
    } else {
        sent_thinking(events.drop_last()) + thinking_in(events.last())
    }
}

/// The arguments that events carry for the block `index`.
pub open spec fn sent_input(events: Seq<AnthropicStreamEventView>, index: nat) -> Seq<char>
    decreases events.len(),
{
    if events.len() == 0 {
        seq![]
    } else {
        sent_input(events.drop_last(), index) + input_in(events.last(), index)
    }
}

/// The texts from position `from` on, one after the other.
pub open spec fn all_text(texts: Seq<Seq<char>>, from: int) -> Seq<char>
    decreases texts.len() - from,
{
    if from < 0 || from >= texts.len() {
        seq![]
    } else {
        texts[from] + all_text(texts, from + 1)
    }
}

/// The text that the choices from position `from` on bring.
pub open spec fn choices_text(choices: Seq<ChatChoiceStream>, from: int) -> Seq<char>
    decreases choices.len() - from,
{
    if from < 0 || from >= choices.len() {
        seq![]
    } else {
        delta_text(choices[from].delta.content) + choices_text(choices, from + 1)
    }
}

/// The reasoning that a choice brings.
pub open spec fn choice_thinking(choice: ChatChoiceStream) -> Seq<char> {
    match choice.delta.reasoning_content {
        Some(thinking) => thinking@,
        None => seq![],
    }
}

/// The reasoning that the choices from position `from` on bring.
pub open spec fn choices_thinking(choices: Seq<ChatChoiceStream>, from: int) -> Seq<char>
    decreases choices.len() - from,
{
    if from < 0 || from >= choices.len() {
        seq![]
    } else {
        choice_thinking(choices[from]) + choices_thinking(choices, from + 1)
    }
}

/// The arguments that a state holds for the call at position `j`.
pub open spec fn held_input(state: MessageState, j: int) -> Seq<char> {
    if 0 <= j < state.tools.len() {
        state.tools[j].arguments
    } else {
        seq![]
    }
}

pub proof fn lemma_sent_push(events: Seq<AnthropicStreamEventView>, event: AnthropicStreamEventView)
    ensures
        sent_text(events.push(event)) == sent_text(events) + text_in(event),
        sent_thinking(events.push(event)) == sent_thinking(events) + thinking_in(event),
        forall|index: nat| #[trigger]
            sent_input(events.push(event), index) == sent_input(events, index) + input_in(
                event,
                index,
            ),
{
    assert(events.push(event).drop_last() =~= events);
}

proof fn lemma_all_text_push(texts: Seq<Seq<char>>, text: Seq<char>, from: int)
    requires
        0 <= from <= texts.len(),
    ensures
        all_text(texts.push(text), from) == all_text(texts, from) + text,
    decreases texts.len() - from,
{
    reveal_with_fuel(all_text, 2);
    if from < texts.len() {
        lemma_all_text_push(texts, text, from + 1);
        assert(texts.push(text)[from] == texts[from]);
        assert(texts[from] + (all_text(texts, from + 1) + text) =~= (texts[from] + all_text(
            texts,
            from + 1,
        )) + text);
    } else {
        assert(texts.push(text)[from] == text);
        assert(text + Seq::<char>::empty() =~= Seq::<char>::empty() + text);
    }
}

/// Whether a step sends nothing but `text` and `thinking`, and no arguments.
pub open spec fn says(before: Sent, after: Sent, text: Seq<char>, thinking: Seq<char>) -> bool {
    &&& sent_text(after.events) =~= sent_text(before.events) + text
    &&& sent_thinking(after.events) =~= sent_thinking(before.events) + thinking
    &&& forall|index: nat| #[trigger]
        sent_input(after.events, index) =~= sent_input(before.events, index)
}

pub proof fn lemma_thinking_says(run: Sent, text: Option<String>)
    ensures
        says(
            run,
            on_thinking(run, text),
            seq![],
            match text {
                Some(thinking) => thinking@,
                None => seq![],
            },
        ),
{
    if let Some(thinking) = text {
        if thinking@.len() > 0 {
            let after = on_thinking(run, text);
            if !run.state.thinking_started {
                let opened = after.events.drop_last();
                assert(opened == run.events.push(opened.last()));
                lemma_sent_push(run.events, opened.last());
            } else {
                assert(after.events.drop_last() =~= run.events);
            }
            lemma_sent_push(after.events.drop_last(), after.events.last());
            assert(after.events == after.events.drop_last().push(after.events.last()));
        } else {
            assert(thinking@ =~= seq![]);
        }
    }
}

pub proof fn lemma_close_says(run: Sent)
    ensures
        says(run, close_thinking(run), seq![], seq![]),
        says(run, close_text(run), seq![], seq![]),
{
    if run.state.thinking_open() {
        let after = close_thinking(run);
        let told = after.events.drop_last();
        assert(told == run.events.push(told.last()));
        lemma_sent_push(run.events, told.last());
        lemma_sent_push(told, after.events.last());
        assert(after.events == told.push(after.events.last()));
    }
    if run.state.text_open() {
        lemma_sent_push(run.events, close_text(run).events.last());
    }
}

proof fn lemma_add_text_says(run: Sent, text: Seq<char>)
    ensures
        says(run, add_text(run, text), text, seq![]),
{
    let after = add_text(run, text);
    if !run.state.text_open() {
        let opened = after.events.drop_last();
        assert(opened == run.events.push(opened.last()));
        lemma_sent_push(run.events, opened.last());
    } else {
        assert(after.events.drop_last() =~= run.events);
    }
    lemma_sent_push(after.events.drop_last(), after.events.last());
    assert(after.events == after.events.drop_last().push(after.events.last()));
}

pub proof fn lemma_add_texts_says(run: Sent, texts: Seq<Seq<char>>, from: int)
    requires
        0 <= from,
    ensures
        says(run, add_texts(run, texts, from), all_text(texts, from), seq![]),
    decreases texts.len() - from,
{
    if from < texts.len() {
        lemma_add_text_says(run, texts[from]);
        lemma_add_texts_says(add_text(run, texts[from]), texts, from + 1);
    }
}

pub proof fn lemma_text_says(run: Sent, text: Seq<char>)
    requires
        run.state.pending.len() > 0 ==> run.state.tool_open(),
    ensures
        ({
            let after = on_message_text(run, text);
            &&& sent_text(after.events) + all_text(after.state.pending, 0) == sent_text(
                run.events,
            ) + all_text(run.state.pending, 0) + text
            &&& sent_thinking(after.events) == sent_thinking(run.events)
            &&& forall|index: nat| #[trigger]
                sent_input(after.events, index) == sent_input(run.events, index)
        }),
{
    let after = on_message_text(run, text);
    if text.len() > 0 {
        let closed = close_thinking(run);
        lemma_close_says(run);
        assert(closed.state.tools == run.state.tools);
        if closed.state.tool_open() {
            lemma_all_text_push(run.state.pending, text, 0);
        } else {
            assert(!run.state.tool_open());
            lemma_add_text_says(closed, text);
            assert(after.state.pending =~= run.state.pending);
        }
    } else {
        assert(text =~= seq![]);
    }
}

/// Whether a state holds for each call what a state before it held and what was sent since.
spec fn holds_input(start: MessageState, run: Sent) -> bool {
    &&& forall|j: int|
        0 <= j < run.state.tools.len() ==> (#[trigger] run.state.tools[j]).arguments =~= held_input(
            start,
            j,
        ) + sent_input(run.events, run.state.tools[j].block_index)
    &&& forall|index: nat|
        index >= run.state.next_index ==> #[trigger] sent_input(run.events, index) =~= seq![]
    &&& start.tools.len() <= run.state.tools.len()
}

proof fn lemma_opened_input(start: MessageState, run: Sent, j: int)
    requires
        holds_input(start, run),
        0 <= j < run.state.tools.len(),
    ensures
        holds_input(start, open_tool(run, j)),
        sent_text(open_tool(run, j).events) == sent_text(run.events),
        sent_thinking(open_tool(run, j).events) == sent_thinking(run.events),
{
    let after = open_tool(run, j);
    if !run.state.tools[j].started {
        lemma_sent_push(run.events, after.events.last());
    }
}

proof fn lemma_input_held(
    start: MessageState,
    run: Sent,
    j: int,
    delta: Seq<char>,
    complete: bool,
)
    requires
        holds_input(start, run),
        indices_distinct(run.state),
        0 <= j < run.state.tools.len(),
    ensures
        holds_input(start, on_input(run, j, delta, complete)),
        sent_text(on_input(run, j, delta, complete).events) == sent_text(run.events),
        sent_thinking(on_input(run, j, delta, complete).events) == sent_thinking(run.events),
{
    lemma_opened_input(start, run, j);
    let opened = open_tool(run, j);
    let tool = opened.state.tools[j];
    let extended = ToolState { arguments: tool.arguments + delta, ..tool };
    let event = block_delta(
        tool.block_index,
        AnthropicDeltaView::InputJsonDelta { partial_json: delta },
    );
    let told = send(in_state(opened, with_tool(opened.state, j, extended)), event);
    assert(indices_distinct(opened.state));
    lemma_sent_push(opened.events, event);
    assert(holds_input(start, told));
    if tool.id.len() > 0 && tool.name.len() > 0 && !tool.stopped && complete {
        lemma_sent_push(told.events, block_stop(tool.block_index));
    }
}

proof fn lemma_piece_input(
    start: MessageState,
    run: Sent,
    piece: ChatCompletionMessageToolCallChunk,
    id: Seq<char>,
    complete: bool,
)
    requires
        start.tools.len() <= run.state.tools.len(),
        holds_input(start, run),
        indices_distinct(run.state),
        on_piece(run, piece, id, complete).state.fits(),
    ensures
        holds_input(start, on_piece(run, piece, id, complete)),
        sent_text(on_piece(run, piece, id, complete).events) == sent_text(run.events),
        sent_thinking(on_piece(run, piece, id, complete).events) == sent_thinking(run.events),
{
    let named = in_state(run, with_piece(run.state, piece, id));
    let j = piece.index as int;
    let reserved = reserve_tools(run.state, (j + 1) as nat);
    lemma_reserve_tools(run.state, (j + 1) as nat);
    assert forall|k: int| 0 <= k < named.state.tools.len() implies (
    #[trigger] named.state.tools[k]).arguments =~= held_input(start, k) + sent_input(
        run.events,
        named.state.tools[k].block_index,
    ) by {
        assert(named.state.tools[k].arguments == reserved.tools[k].arguments);
        assert(named.state.tools[k].block_index == reserved.tools[k].block_index);
        if k < run.state.tools.len() {
            assert(reserved.tools[k] == run.state.tools[k]);
        } else {
            assert(reserved.tools[k].block_index >= run.state.next_index);
            assert(sent_input(run.events, reserved.tools[k].block_index) =~= seq![]);
        }
    }
    assert(holds_input(start, named));
    lemma_named_wf(run, piece, id);
    if let Some(delta) = delta_arguments(piece.function) {
        if !is_duplicate(named.state, named.state.tools[j]) {
            lemma_input_held(start, named, j, delta@, complete);
        }
    }
}

proof fn lemma_pieces_input(
    start: MessageState,
    run: Sent,
    pieces: Seq<ChatCompletionMessageToolCallChunk>,
    from: int,
    ids: Seq<Seq<char>>,
)
    requires
        0 <= from,
        holds_input(start, run),
        indices_distinct(run.state),
        on_pieces(run, pieces, from, ids).state.fits(),
    ensures
        holds_input(start, on_pieces(run, pieces, from, ids)),
        sent_text(on_pieces(run, pieces, from, ids).events) == sent_text(run.events),
        sent_thinking(on_pieces(run, pieces, from, ids).events) == sent_thinking(run.events),
    decreases pieces.len() - from,
{
    if from < pieces.len() {
        let complete = parsed_json(arguments_with(run.state, pieces[from])) is Some;
        let next = on_piece(run, pieces[from], ids[from], complete);
        lemma_pieces_grow(next, pieces, from + 1, ids);
        lemma_piece_wf(run, pieces[from], ids[from], complete);
        lemma_piece_input(start, run, pieces[from], ids[from], complete);
        lemma_pieces_input(start, next, pieces, from + 1, ids);
    }
}

proof fn lemma_held_input(start: MessageState, before: Sent, after: Sent)
    requires
        holds_input(start, before),
        before.state.tools == after.state.tools,
        before.state.next_index <= after.state.next_index,
        forall|index: nat| #[trigger]
            sent_input(after.events, index) == sent_input(before.events, index),
    ensures
        holds_input(start, after),
{
}

/// Whether a step keeps what is held for calls, sends or lets wait what waited and `text`,
/// and sends `thinking`.
spec fn carries(
    start: MessageState,
    before: Sent,
    after: Sent,
    text: Seq<char>,
    thinking: Seq<char>,
) -> bool {
    &&& holds_input(start, after)
    &&& sent_text(after.events) + all_text(after.state.pending, 0) =~= sent_text(before.events)
        + all_text(before.state.pending, 0) + text
    &&& sent_thinking(after.events) =~= sent_thinking(before.events) + thinking
}

proof fn lemma_carries_both(
    start: MessageState,
    first: Sent,
    second: Sent,
    third: Sent,
    text: Seq<char>,
    thinking: Seq<char>,
    more_text: Seq<char>,
    more_thinking: Seq<char>,
)
    requires
        carries(start, first, second, text, thinking),
        carries(start, second, third, more_text, more_thinking),
    ensures
        carries(start, first, third, text + more_text, thinking + more_thinking),
{
}

proof fn lemma_delta_content(start: MessageState, run: Sent, choice: ChatChoiceStream)
    requires
        run.state.wf(),
        holds_input(start, run),
    ensures
        ({
            let thought = on_thinking(
                with_finish(run, choice),
                choice.delta.reasoning_content,
            );
            carries(
                start,
                run,
                on_message_text(thought, delta_text(choice.delta.content)),
                delta_text(choice.delta.content),
                choice_thinking(choice),
            )
        }),
{
    let finished = with_finish(run, choice);
    let thought = on_thinking(finished, choice.delta.reasoning_content);
    let texted = on_message_text(thought, delta_text(choice.delta.content));
    assert(finished.state.tools == run.state.tools);
    lemma_thinking_says(finished, choice.delta.reasoning_content);
    assert(thought.state.tools == run.state.tools);
    assert(thought.state.tool_open() == run.state.tool_open());
    lemma_held_input(start, run, thought);
    lemma_text_says(thought, delta_text(choice.delta.content));
    assert(texted.state.tools == run.state.tools);
    lemma_held_input(start, thought, texted);
}

proof fn lemma_tools_content(
    start: MessageState,
    run: Sent,
    calls: Option<Vec<ChatCompletionMessageToolCallChunk>>,
    ids: Seq<Seq<char>>,
)
    requires
        indices_distinct(run.state),
        holds_input(start, run),
        on_tools(run, calls, ids).state.fits(),
    ensures
        carries(start, run, on_tools(run, calls, ids), seq![], seq![]),
{
    if let Some(pieces) = calls {
        let closed = close_thinking(run);
        let quiet = close_text(closed);
        lemma_close_blocks_wf(run);
        lemma_close_says(run);
        lemma_close_says(closed);
        lemma_held_input(start, run, quiet);
        lemma_pieces_wf(quiet, pieces@, 0, ids);
        lemma_pieces_input(start, quiet, pieces@, 0, ids);
    }
}

proof fn lemma_flush_content(start: MessageState, run: Sent)
    requires
        holds_input(start, run),
    ensures
        carries(start, run, flush_if_free(run), seq![], seq![]),
{
    if !run.state.tool_open() {
        let emptied = in_state(run, MessageState { pending: seq![], ..run.state });
        lemma_add_texts(emptied, run.state.pending, 0);
        lemma_add_texts_says(emptied, run.state.pending, 0);
        lemma_held_input(start, run, flush(run));
    }
}

proof fn lemma_choice_content(
    start: MessageState,
    run: Sent,
    choice: ChatChoiceStream,
    ids: Seq<Seq<char>>,
)
    requires
        run.state.wf(),
        holds_input(start, run),
        on_message_choice(run, choice, ids).state.fits(),
    ensures
        carries(
            start,
            run,
            on_message_choice(run, choice, ids),
            delta_text(choice.delta.content),
            choice_thinking(choice),
        ),
{
    let finished = with_finish(run, choice);
    let thought = on_thinking(finished, choice.delta.reasoning_content);
    let text = delta_text(choice.delta.content);
    let texted = on_message_text(thought, text);
    let called = on_tools(texted, choice.delta.tool_calls, ids);
    lemma_choice_reserves(run, choice, ids);
    assert(finished.state.tools == run.state.tools);
    lemma_thinking_wf(finished, choice.delta.reasoning_content);
    lemma_text_wf(thought, text);
    lemma_delta_content(start, run, choice);
    lemma_tools_content(start, texted, choice.delta.tool_calls, ids);
    lemma_flush_content(start, called);
    let thinking = choice_thinking(choice);
    lemma_carries_both(start, run, texted, called, text, thinking, seq![], seq![]);
    lemma_carries_both(
        start,
        run,
        called,
        flush_if_free(called),
        text + seq![],
        thinking + seq![],
        seq![],
        seq![],
    );
    assert(text + seq![] + seq![] =~= text);
    assert(thinking + seq![] + seq![] =~= thinking);
}

proof fn lemma_choices_content(
    start: MessageState,
    run: Sent,
    choices: Seq<ChatChoiceStream>,
    from: int,
    ids: Seq<Seq<Seq<char>>>,
)
    requires
        0 <= from <= choices.len(),
        run.state.wf(),
        holds_input(start, run),
        on_message_choices(run, choices, from, ids).state.fits(),
    ensures
        carries(
            start,
            run,
            on_message_choices(run, choices, from, ids),
            choices_text(choices, from),
            choices_thinking(choices, from),
        ),
    decreases choices.len() - from,
{
    if from < choices.len() {
        let next = on_message_choice(run, choices[from], ids[from]);
        lemma_choices_grow(next, choices, from + 1, ids);
        lemma_choice_wf(run, choices[from], ids[from]);
        lemma_choice_content(start, run, choices[from], ids[from]);
        lemma_choices_content(start, next, choices, from + 1, ids);
        lemma_carries_both(
            start,
            run,
            next,
            on_message_choices(next, choices, from + 1, ids),
            delta_text(choices[from].delta.content),
            choice_thinking(choices[from]),
            choices_text(choices, from + 1),
            choices_thinking(choices, from + 1),
        );
    }
}

/// No text and no reasoning is lost, repeated or reordered: what waited and what a chunk
/// brings is what its events carry and what waits after it. And no arguments are: what is
/// held for a call grows by what the events carry for its block.
pub proof fn law_chunks_keep_content(
    state: MessageState,
    chunk: NvCreateChatCompletionStreamResponse,
    ids: Seq<Seq<Seq<char>>>,
)
    requires
        state.wf(),
        has_block_room(state, chunk),
    ensures
        ({
            let sent = after_message_chunk(state, chunk, ids);
            &&& sent_text(sent.events) + all_text(sent.state.pending, 0) == all_text(
                state.pending,
                0,
            ) + choices_text(chunk.inner.choices@, 0)
            &&& sent_thinking(sent.events) == choices_thinking(chunk.inner.choices@, 0)
            &&& forall|j: int|
                0 <= j < sent.state.tools.len() ==> (#[trigger] sent.state.tools[j]).arguments
                    == held_input(state, j) + sent_input(
                    sent.events,
                    sent.state.tools[j].block_index,
                )
        }),
{
    let head = with_chunk_head(state, chunk);
    lemma_block_room(state, chunk, ids);
    assert(head.state.tools == state.tools);
    assert(head.state.tool_open() == state.tool_open());
    let nothing = Sent { state, events: seq![] };
    if !state.start_emitted {
        lemma_sent_push(seq![], head.events.last());
        assert(head.events =~= Seq::<AnthropicStreamEventView>::empty().push(head.events.last()));
    }
    assert(holds_input(state, nothing));
    lemma_held_input(state, nothing, head);
    lemma_choices_content(state, head, chunk.inner.choices@, 0, ids);
}

pub proof fn lemma_tools_close_says(run: Sent, from: int)
    requires
        0 <= from,
    ensures
        says(run, close_tools(run, from), seq![], seq![]),
    decreases run.state.tools.len() - from,
{
    if from < run.state.tools.len() {
        let tool = run.state.tools[from];
        if tool.is_open() {
            let closed = send(
                in_state(run, with_tool(run.state, from, ToolState { stopped: true, ..tool })),
                block_stop(tool.block_index),
            );
            lemma_sent_push(run.events, block_stop(tool.block_index));
            lemma_tools_close_says(closed, from + 1);
        } else {
            lemma_tools_close_says(run, from + 1);
        }
    }
}

/// The end of a stream carries the text that waited, and nothing else of the content.
pub proof fn law_ends_release_the_rest(state: MessageState)
    ensures
        ({
            let sent = after_message_end(state);
            &&& sent_text(sent.events) == all_text(state.pending, 0)
            &&& sent_thinking(sent.events) == Seq::<char>::empty()
            &&& forall|index: nat| #[trigger]
                sent_input(sent.events, index) == Seq::<char>::empty()
        }),
{
    let head = open_stream(Sent { state, events: seq![] }, 0);
    if !state.start_emitted {
        lemma_sent_push(seq![], head.events.last());
        assert(head.events =~= Seq::<AnthropicStreamEventView>::empty().push(head.events.last()));
    }
    let thought = close_thinking(head);
    lemma_close_says(head);
    let tooled = close_tools(thought, 0);
    lemma_tools_close_says(thought, 0);
    lemma_close_tools(thought, 0);
    let emptied = in_state(tooled, MessageState { pending: seq![], ..tooled.state });
    lemma_add_texts_says(emptied, tooled.state.pending, 0);
    let flushed = flush(tooled);
    lemma_close_says(flushed);
    let closed = close_text(flushed);
    assert(closed == all_closed(head));
    let events = after_message_end(state).events;
    let told = events.drop_last();
    assert(told.drop_last() =~= closed.events);
    assert(told == closed.events.push(told.last()));
    lemma_sent_push(closed.events, told.last());
    assert(events == told.push(events.last()));
    lemma_sent_push(told, events.last());
}

} // verus!
