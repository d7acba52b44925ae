//! Whole streams of the usual shape.
//!
//! A model reasons first, then speaks or calls tools. It calls them in order: each call has an
//! id, a name and complete arguments before the next call brings arguments. The laws here say
//! that a client can read every such stream from its start to its end.

use vstd::prelude::*;

use crate::anthropic::reply::AnthropicStreamEventView;
use crate::anthropic::stream::{
    after_message_chunk, after_message_end, all_closed, arguments_with, close_text, close_thinking,
    fresh_message, is_duplicate, on_message_choice, on_message_choices, on_message_text, on_piece,
    on_pieces, on_thinking, on_tools, open_stream, with_piece, MessageState, Sent, ToolState,
};
use crate::anthropic::stream_laws::{lemma_add_texts, lemma_choices_grow, lemma_reserve_tools};
use crate::anthropic::stream_order::{
    in_step, law_streams_end_in_order, law_streams_start_in_step, lemma_chunk_spoken,
    lemma_choices_continue, new_reader,
    orderly, orderly_choice, orderly_choices, orderly_piece, orderly_pieces, read_all,
    with_chunk_head, with_finish, Reader,
};
use crate::chat::{
    ChatChoiceStream, ChatCompletionMessageToolCallChunk, NvCreateChatCompletionStreamResponse,
};
use crate::json::parsed_json;
use crate::responses::stream::{delta_arguments, delta_text};

verus! {

/// A chunk, and the ids that its calls take: the call of piece `k` of choice `c` takes
/// `ids[c][k]`.
pub struct MessageTurn {
    pub chunk: NvCreateChatCompletionStreamResponse,
    pub ids: Seq<Seq<Seq<char>>>,
}

/// How far a stream of the usual shape has come.
#[verifier::ext_equal]
pub struct Shape {
    /// Whether reasoning has come.
    pub reasoned: bool,
    /// Whether text or calls have come.
    pub spoken: bool,
    /// The number of calls that have started.
    pub calls: nat,
    /// Whether the last of them has brought an id, a name that is not empty, and arguments.
    pub known: bool,
    pub named: bool,
    pub brought: bool,
    /// The arguments of the last of them.
    pub arguments: Seq<char>,
    /// Whether the last of them is over: its arguments were complete when some of them came, and
    /// its id and its name were known.
    pub over: bool,
}

impl Shape {
    /// Whether the last call has brought arguments and is not over.
    pub open spec fn is_open(self) -> bool {
        self.brought && !self.over
    }
}

/// The shape of a stream in which nothing has come.
pub open spec fn new_shape() -> Shape {
    Shape {
        reasoned: false,
        spoken: false,
        calls: 0,
        known: false,
        named: false,
        brought: false,
        arguments: seq![],
        over: false,
    }
}

/// The name that a piece of a call brings.
pub open spec fn piece_name(piece: ChatCompletionMessageToolCallChunk) -> Option<String> {
    match piece.function {
        Some(f) => f.name,
        None => None,
    }
}

/// Whether a piece is of the last call, which is not over if it brings arguments, or starts the
/// next call, where no call is open.
pub open spec fn usual_piece(shape: Shape, piece: ChatCompletionMessageToolCallChunk) -> bool {
    if piece.index == shape.calls {
        !shape.is_open()
    } else {
        &&& piece.index + 1 == shape.calls
        &&& delta_arguments(piece.function) is Some ==> !shape.over
    }
}

/// The shape with the call of a piece begun, and with the id and the name that the piece brings.
pub open spec fn with_names(shape: Shape, piece: ChatCompletionMessageToolCallChunk) -> Shape {
    let before = if piece.index == shape.calls {
        Shape {
            calls: shape.calls + 1,
            known: false,
            named: false,
            brought: false,
            arguments: seq![],
            over: false,
            ..shape
        }
    } else {
        shape
    };
    Shape {
        known: before.known || piece.id is Some,
        named: match piece_name(piece) {
            Some(name) => name@.len() > 0,
            None => before.named,
        },
        ..before
    }
}

/// The shape after a piece.
pub open spec fn after_piece(shape: Shape, piece: ChatCompletionMessageToolCallChunk) -> Shape {
    let before = with_names(shape, piece);
    match delta_arguments(piece.function) {
        Some(delta) => Shape {
            brought: true,
            arguments: before.arguments + delta@,
            over: before.known && before.named && parsed_json(
                before.arguments + delta@,
            ) is Some,
            ..before
        },
        None => before,
    }
}

/// Whether the pieces from position `from` on are as usual.
pub open spec fn usual_pieces(
    shape: Shape,
    pieces: Seq<ChatCompletionMessageToolCallChunk>,
    from: int,
) -> bool
    decreases pieces.len() - from,
{
    0 <= from < pieces.len() ==> {
        &&& usual_piece(shape, pieces[from])
        &&& usual_pieces(after_piece(shape, pieces[from]), pieces, from + 1)
    }
}

/// The shape after the pieces from position `from` on.
pub open spec fn after_pieces(
    shape: Shape,
    pieces: Seq<ChatCompletionMessageToolCallChunk>,
    from: int,
) -> Shape
    decreases pieces.len() - from,
{
    if from < 0 || from >= pieces.len() {
        shape
    } else {
        after_pieces(after_piece(shape, pieces[from]), pieces, from + 1)
    }
}

/// Whether a choice brings a list of calls that ends reasoning: any but an empty one before all
/// reasoning.
pub open spec fn calls_end_reasoning(shape: Shape, choice: ChatChoiceStream) -> bool {
    choice.delta.tool_calls matches Some(pieces) && (pieces@.len() > 0 || shape.reasoned)
}

/// The shape with the reasoning and the text of a choice, and with its calls begun.
pub open spec fn after_text(shape: Shape, choice: ChatChoiceStream) -> Shape {
    let thought = Shape {
        reasoned: shape.reasoned || (choice.delta.reasoning_content matches Some(text)
            && text@.len() > 0),
        ..shape
    };
    Shape {
        spoken: shape.spoken || delta_text(choice.delta.content).len() > 0
            || calls_end_reasoning(thought, choice),
        ..thought
    }
}

/// Whether a choice is as usual: reasoning comes before all text and calls.
pub open spec fn usual_choice(shape: Shape, choice: ChatChoiceStream) -> bool {
    &&& choice.delta.reasoning_content matches Some(text) ==> text@.len() == 0 || !shape.spoken
    &&& choice.delta.tool_calls matches Some(pieces) ==> usual_pieces(
        after_text(shape, choice),
        pieces@,
        0,
    )
}

/// The shape after a choice.
pub open spec fn after_choice(shape: Shape, choice: ChatChoiceStream) -> Shape {
    match choice.delta.tool_calls {
        Some(pieces) => after_pieces(after_text(shape, choice), pieces@, 0),
        None => after_text(shape, choice),
    }
}

/// Whether the choices from position `from` on are as usual.
pub open spec fn usual_choices(shape: Shape, choices: Seq<ChatChoiceStream>, from: int) -> bool
    decreases choices.len() - from,
{
    0 <= from < choices.len() ==> {
        &&& usual_choice(shape, choices[from])
        &&& usual_choices(after_choice(shape, choices[from]), choices, from + 1)
    }
}

/// The shape after the choices from position `from` on.
pub open spec fn after_choices(shape: Shape, choices: Seq<ChatChoiceStream>, from: int) -> Shape
    decreases choices.len() - from,
{
    if from < 0 || from >= choices.len() {
        shape
    } else {
        after_choices(after_choice(shape, choices[from]), choices, from + 1)
    }
}

/// The shape of a stream after its chunks.
pub open spec fn shape_of(turns: Seq<MessageTurn>) -> Shape
    decreases turns.len(),
{
    if turns.len() == 0 {
        new_shape()
    } else {
        after_choices(shape_of(turns.drop_last()), turns.last().chunk.inner.choices@, 0)
    }
}

/// Whether every chunk of a stream is as usual after those before it.
pub open spec fn usual(turns: Seq<MessageTurn>) -> bool
    decreases turns.len(),
{
    turns.len() > 0 ==> {
        &&& usual(turns.drop_last())
        &&& usual_choices(
            shape_of(turns.drop_last()),
            turns.last().chunk.inner.choices@,
            0,
        )
    }
}

/// Whether no call of a choice takes an empty id.
pub open spec fn choice_ids_given(choice: ChatChoiceStream, ids: Seq<Seq<char>>) -> bool {
    choice.delta.tool_calls matches Some(pieces) ==> forall|k: int|
        0 <= k < pieces@.len() ==> (#[trigger] ids[k]).len() > 0
}

/// Whether no call of a chunk takes an empty id.
pub open spec fn ids_given(turn: MessageTurn) -> bool {
    forall|c: int|
        0 <= c < turn.chunk.inner.choices@.len() ==> choice_ids_given(
            #[trigger] turn.chunk.inner.choices@[c],
            turn.ids[c],
        )
}

/// The chunks of a stream, one after the other.
pub open spec fn after_chunks(state: MessageState, turns: Seq<MessageTurn>) -> Sent
    decreases turns.len(),
{
    if turns.len() == 0 {
        Sent { state, events: seq![] }
    } else {
        let before = after_chunks(state, turns.drop_last());
        let sent = after_message_chunk(before.state, turns.last().chunk, turns.last().ids);
        Sent { state: sent.state, events: before.events + sent.events }
    }
}

/// A whole stream: its chunks and its end.
pub open spec fn whole_message(state: MessageState, turns: Seq<MessageTurn>) -> Sent {
    let before = after_chunks(state, turns);
    let end = after_message_end(before.state);
    Sent { state: end.state, events: before.events + end.events }
}

/// Whether the last call stands as the shape says. A call whose id was sent before is not
/// started, whatever arguments come for it.
spec fn call_stands(shape: Shape, state: MessageState, tool: ToolState) -> bool {
    &&& (tool.id.len() > 0) == shape.known
    &&& (tool.name.len() > 0) == shape.named
    &&& if tool.started {
        &&& shape.brought
        &&& tool.arguments == shape.arguments
        &&& tool.stopped == shape.over
    } else {
        &&& !tool.stopped
        &&& is_duplicate(state, tool) || {
            &&& !shape.brought
            &&& shape.arguments.len() == 0
            &&& tool.arguments.len() == 0
        }
    }
}

/// Whether a converter stands as the shape of its stream says.
spec fn stands(shape: Shape, state: MessageState) -> bool {
    &&& state.tools.len() == shape.calls
    &&& state.thinking_started ==> shape.reasoned
    &&& !shape.spoken ==> {
        &&& !state.thinking_closed
        &&& !state.text_open()
        &&& state.pending.len() == 0
        &&& shape.calls == 0
    }
    &&& forall|k: int| 0 <= k < shape.calls - 1 ==> !(#[trigger] state.tools[k]).is_open()
    &&& shape.calls > 0 ==> call_stands(shape, state, state.tools[shape.calls - 1])
    &&& shape.over ==> shape.brought
}

proof fn lemma_piece_usual(
    shape: Shape,
    run: Sent,
    piece: ChatCompletionMessageToolCallChunk,
    id: Seq<char>,
    complete: bool,
)
    requires
        shape.spoken,
        stands(shape, run.state),
        usual_piece(shape, piece),
        id.len() > 0,
        complete == (parsed_json(arguments_with(run.state, piece)) is Some),
    ensures
        orderly_piece(run.state, piece, id),
        stands(after_piece(shape, piece), on_piece(run, piece, id, complete).state),
{
    let state = run.state;
    let j = piece.index as int;
    let named = with_piece(state, piece, id);
    let after = on_piece(run, piece, id, complete).state;
    let next = after_piece(shape, piece);
    lemma_reserve_tools(state, (piece.index + 1) as nat);
    assert(named.tools.len() == j + 1);
    assert forall|k: int| 0 <= k < named.tools.len() && k != j implies !(
    #[trigger] named.tools[k]).is_open() by {
        assert(named.tools[k] == state.tools[k]);
    }
    let tool = named.tools[j];
    assert((tool.id.len() > 0) == next.known);
    assert((tool.name.len() > 0) == next.named);
    if let Some(delta) = delta_arguments(piece.function) {
        if !is_duplicate(named, tool) {
            assert(arguments_with(state, piece) =~= tool.arguments + delta@);
            assert(next.arguments =~= tool.arguments + delta@) by {
                if piece.index == shape.calls || !tool.started {
                    assert(tool.arguments =~= seq![]);
                }
            }
            assert(after.tools.len() == j + 1);
            assert(after.tools[j].started);
        }
    }
    assert forall|k: int| 0 <= k < next.calls - 1 implies !(#[trigger] after.tools[k]).is_open() by {
        assert(after.tools[k] == named.tools[k]);
    }
}

proof fn lemma_pieces_usual(
    shape: Shape,
    run: Sent,
    pieces: Seq<ChatCompletionMessageToolCallChunk>,
    from: int,
    ids: Seq<Seq<char>>,
)
    requires
        0 <= from,
        shape.spoken || from >= pieces.len(),
        stands(shape, run.state),
        usual_pieces(shape, pieces, from),
        forall|k: int| 0 <= k < pieces.len() ==> (#[trigger] ids[k]).len() > 0,
    ensures
        orderly_pieces(run, pieces, from, ids),
        stands(after_pieces(shape, pieces, from), on_pieces(run, pieces, from, ids).state),
        after_pieces(shape, pieces, from).spoken == shape.spoken,
    decreases pieces.len() - from,
{
    if from < pieces.len() {
        let complete = parsed_json(arguments_with(run.state, pieces[from])) is Some;
        let next = on_piece(run, pieces[from], ids[from], complete);
        lemma_piece_usual(shape, run, pieces[from], ids[from], complete);
        lemma_pieces_usual(after_piece(shape, pieces[from]), next, pieces, from + 1, ids);
    }
}

proof fn lemma_choice_usual(
    shape: Shape,
    run: Sent,
    choice: ChatChoiceStream,
    ids: Seq<Seq<char>>,
)
    requires
        stands(shape, run.state),
        usual_choice(shape, choice),
        choice_ids_given(choice, ids),
    ensures
        orderly_choice(run, choice, ids),
        stands(after_choice(shape, choice), on_message_choice(run, choice, ids).state),
{
    let finished = with_finish(run, choice);
    let thought = on_thinking(finished, choice.delta.reasoning_content);
    let texted = on_message_text(thought, delta_text(choice.delta.content));
    let called = on_tools(texted, choice.delta.tool_calls, ids);
    let begun = after_text(shape, choice);
    let next = after_choice(shape, choice);
    assert(finished.state.tools == run.state.tools);
    assert(thought.state.tools == run.state.tools);
    assert(thought.state.sent_ids == run.state.sent_ids);
    assert(texted.state.tools == run.state.tools);
    assert(texted.state.sent_ids == run.state.sent_ids);
    if let Some(pieces) = choice.delta.tool_calls {
        let quiet = close_text(close_thinking(texted));
        assert(quiet.state.tools == run.state.tools);
        assert(quiet.state.sent_ids == run.state.sent_ids);
        assert(stands(begun, quiet.state));
        lemma_pieces_usual(begun, quiet, pieces@, 0, ids);
    } else {
        assert(stands(begun, texted.state));
    }
    assert(stands(next, called.state));
    let emptied = Sent {
        state: MessageState { pending: seq![], ..called.state },
        events: called.events,
    };
    lemma_add_texts(emptied, called.state.pending, 0);
    let after = on_message_choice(run, choice, ids).state;
    assert(after.tools == called.state.tools);
    assert(after.sent_ids == called.state.sent_ids);
}

proof fn lemma_choices_usual(
    shape: Shape,
    run: Sent,
    choices: Seq<ChatChoiceStream>,
    from: int,
    ids: Seq<Seq<Seq<char>>>,
)
    requires
        0 <= from,
        stands(shape, run.state),
        usual_choices(shape, choices, from),
        forall|c: int|
            0 <= c < choices.len() ==> choice_ids_given(#[trigger] choices[c], ids[c]),
    ensures
        orderly_choices(run, choices, from, ids),
        stands(
            after_choices(shape, choices, from),
            on_message_choices(run, choices, from, ids).state,
        ),
    decreases choices.len() - from,
{
    if from < choices.len() {
        let next = on_message_choice(run, choices[from], ids[from]);
        lemma_choice_usual(shape, run, choices[from], ids[from]);
        lemma_choices_usual(after_choice(shape, choices[from]), next, choices, from + 1, ids);
    }
}

proof fn lemma_turn_usual(shape: Shape, state: MessageState, turn: MessageTurn)
    requires
        stands(shape, state),
        usual_choices(shape, turn.chunk.inner.choices@, 0),
        ids_given(turn),
    ensures
        orderly(state, turn.chunk, turn.ids),
        stands(
            after_choices(shape, turn.chunk.inner.choices@, 0),
            after_message_chunk(state, turn.chunk, turn.ids).state,
        ),
{
    let head = with_chunk_head(state, turn.chunk);
    assert(head.state.tools == state.tools);
    assert(head.state.sent_ids == state.sent_ids);
    assert(stands(shape, head.state));
    lemma_choices_usual(shape, head, turn.chunk.inner.choices@, 0, turn.ids);
}

proof fn lemma_turns_usual(state: MessageState, turns: Seq<MessageTurn>)
    requires
        is_fresh(state),
        usual(turns),
        forall|t: int| 0 <= t < turns.len() ==> ids_given(#[trigger] turns[t]),
    ensures
        stands(shape_of(turns), after_chunks(state, turns).state),
    decreases turns.len(),
{
    if turns.len() > 0 {
        let rest = turns.drop_last();
        assert forall|t: int| 0 <= t < rest.len() implies ids_given(#[trigger] rest[t]) by {
            assert(rest[t] == turns[t]);
        }
        lemma_turns_usual(state, rest);
        assert(ids_given(turns[turns.len() - 1]));
        lemma_turn_usual(shape_of(rest), after_chunks(state, rest).state, turns.last());
    }
}

/// Whether a converter has seen nothing yet.
pub open spec fn is_fresh(state: MessageState) -> bool {
    state == fresh_message(state.model, state.context, state.message_id)
}

/// In a stream of the usual shape the next chunk is orderly, if it is as usual too.
pub proof fn law_usual_chunks_are_orderly(
    state: MessageState,
    turns: Seq<MessageTurn>,
    next: MessageTurn,
)
    requires
        is_fresh(state),
        usual(turns.push(next)),
        forall|t: int| 0 <= t < turns.len() ==> ids_given(#[trigger] turns[t]),
        ids_given(next),
    ensures
        orderly(after_chunks(state, turns).state, next.chunk, next.ids),
{
    assert(turns.push(next).drop_last() =~= turns);
    lemma_turns_usual(state, turns);
    lemma_turn_usual(shape_of(turns), after_chunks(state, turns).state, next);
}

proof fn lemma_read_on(
    reader: Reader,
    first: Seq<AnthropicStreamEventView>,
    second: Seq<AnthropicStreamEventView>,
)
    requires
        read_all(reader, first) is Some,
    ensures
        read_all(reader, first + second) == read_all(read_all(reader, first)->0, second),
    decreases second.len(),
{
    if second.len() > 0 {
        lemma_read_on(reader, first, second.drop_last());
        assert((first + second).drop_last() =~= first + second.drop_last());
    } else {
        assert(first + second =~= first);
    }
}

proof fn lemma_turns_spoken(state: MessageState, turns: Seq<MessageTurn>)
    requires
        is_fresh(state),
        usual(turns),
        forall|t: int| 0 <= t < turns.len() ==> ids_given(#[trigger] turns[t]),
        after_chunks(state, turns).state.fits(),
    ensures
        ({
            let sent = after_chunks(state, turns);
            &&& sent.state.wf()
            &&& read_all(new_reader(), sent.events) matches Some(reader) && in_step(
                reader,
                sent.state,
            )
        }),
    decreases turns.len(),
{
    if turns.len() > 0 {
        let rest = turns.drop_last();
        let turn = turns.last();
        let before = after_chunks(state, rest);
        let sent = after_message_chunk(before.state, turn.chunk, turn.ids);
        let head = with_chunk_head(before.state, turn.chunk);
        assert forall|t: int| 0 <= t < rest.len() implies ids_given(#[trigger] rest[t]) by {
            assert(rest[t] == turns[t]);
        }
        lemma_choices_grow(head, turn.chunk.inner.choices@, 0, turn.ids);
        lemma_turns_spoken(state, rest);
        assert(ids_given(turns[turns.len() - 1]));
        assert(rest.push(turn) =~= turns);
        law_usual_chunks_are_orderly(state, rest, turn);
        let reader = read_all(new_reader(), before.events)->0;
        lemma_chunk_spoken(reader, before.state, turn.chunk, turn.ids);
        lemma_read_on(new_reader(), before.events, sent.events);
    } else {
        law_streams_start_in_step(state.model, state.context, state.message_id);
    }
}

/// The start of a message comes only to a client that has read none.
proof fn lemma_started_once(reader: Reader, events: Seq<AnthropicStreamEventView>)
    requires
        read_all(reader, events) is Some,
    ensures
        reader.begun ==> read_all(reader, events)->0.begun,
        reader.begun ==> forall|k: int|
            0 <= k < events.len() ==> !((#[trigger] events[k]) is MessageStart),
    decreases events.len(),
{
    if events.len() > 0 {
        lemma_started_once(reader, events.drop_last());
        if reader.begun {
            assert forall|k: int| 0 <= k < events.len() implies !((
            #[trigger] events[k]) is MessageStart) by {
                if k < events.len() - 1 {
                    assert(events[k] == events.drop_last()[k]);
                }
            }
        }
    }
}

/// A client can read a whole stream of the usual shape. `message_start` is its first event and
/// comes once, every block is started once, when no other is open, and stopped, deltas and
/// stops are of the open block, and the last events are `message_delta` and `message_stop`.
pub proof fn law_usual_streams_are_read_to_the_end(state: MessageState, turns: Seq<MessageTurn>)
    requires
        is_fresh(state),
        usual(turns),
        forall|t: int| 0 <= t < turns.len() ==> ids_given(#[trigger] turns[t]),
        after_chunks(state, turns).state.next_index < u32::MAX,
    ensures
        ({
            let all = whole_message(state, turns).events;
            &&& read_all(new_reader(), all) matches Some(reader) && {
                &&& reader.begun
                &&& reader.block is None
                &&& reader.told
                &&& reader.over
            }
            &&& all.len() >= 3
            &&& all[0] is MessageStart
            &&& forall|k: int| 0 < k < all.len() ==> !((#[trigger] all[k]) is MessageStart)
            &&& all[all.len() - 2] is MessageDelta
            &&& all[all.len() - 1] is MessageStop
        }),
{
    let before = after_chunks(state, turns);
    let end = after_message_end(before.state);
    let all = whole_message(state, turns).events;
    lemma_turns_spoken(state, turns);
    let reader = read_all(new_reader(), before.events)->0;
    law_streams_end_in_order(reader, before.state);
    lemma_read_on(new_reader(), before.events, end.events);
    lemma_starts(state, turns);
    assert(all[all.len() - 1] == end.events[end.events.len() - 1]);
    assert(all[all.len() - 2] == end.events[end.events.len() - 2]);
    assert(all[0] is MessageStart);
    let first = all.take(1);
    let rest = all.skip(1);
    assert(all =~= first + rest);
    assert(first.drop_last() =~= seq![]);
    assert(read_all(new_reader(), first.drop_last()) == Some(new_reader()));
    let begun = read_all(new_reader(), first)->0;
    assert(begun.begun);
    lemma_read_on(new_reader(), first, rest);
    lemma_started_once(begun, rest);
    assert forall|k: int| 0 < k < all.len() implies !((#[trigger] all[k]) is MessageStart) by {
        assert(all[k] == rest[k - 1]);
    }
}

/// The first event of the chunks of a stream is the start of its message.
proof fn lemma_chunks_start(state: MessageState, turns: Seq<MessageTurn>)
    requires
        is_fresh(state),
        turns.len() > 0,
    ensures
        after_chunks(state, turns).events.len() > 0,
        after_chunks(state, turns).events[0] is MessageStart,
    decreases turns.len(),
{
    let rest = turns.drop_last();
    let turn = turns.last();
    let before = after_chunks(state, rest);
    let sent = after_message_chunk(before.state, turn.chunk, turn.ids);
    if rest.len() > 0 {
        lemma_chunks_start(state, rest);
        assert(after_chunks(state, turns).events[0] == before.events[0]);
    } else {
        let head = with_chunk_head(state, turn.chunk);
        lemma_choices_continue(head, turn.chunk.inner.choices@, 0, turn.ids);
        assert(sent.events.take(1)[0] == head.events[0]);
        assert(after_chunks(state, turns).events =~= sent.events);
    }
}

/// The first event of a stream is the start of its message.
proof fn lemma_starts(state: MessageState, turns: Seq<MessageTurn>)
    requires
        is_fresh(state),
    ensures
        whole_message(state, turns).events.len() >= 3,
        whole_message(state, turns).events[0] is MessageStart,
{
    let before = after_chunks(state, turns);
    let end = after_message_end(before.state);
    if turns.len() > 0 {
        lemma_chunks_start(state, turns);
        assert(whole_message(state, turns).events[0] == before.events[0]);
    } else {
        let opened = open_stream(Sent { state, events: seq![] }, 0);
        assert(all_closed(opened).events =~= opened.events);
        assert(whole_message(state, turns).events =~= end.events);
        assert(end.events[0] == opened.events[0]);
    }
}

} // verus!
