//! What a stream says, in terms of the chunks that came.
//!
//! A tool use is what the pieces of its call bring: the id of the first piece that brings one,
//! the name that came last, and the arguments, piece by piece. The laws here say which tool uses
//! a stream starts, what it carries for each, and what it says in all.

use vstd::prelude::*;

use crate::anthropic::convert::matched_stop;
use crate::anthropic::convert_laws::{
    counts_as, law_finish_reasons_are_told_as_what_they_mean, law_token_counts_are_kept, means,
};
use crate::anthropic::reply::{
    AnthropicContext, AnthropicDeltaView, AnthropicResponseContentBlockView, AnthropicStopReason,
    AnthropicStreamEventView, AnthropicUsage,
};
use crate::anthropic::stream::{
    add_text, add_texts, after_message_chunk, after_message_end, arguments_with, block_stop,
    close_text, close_thinking, close_tools, flush, flush_if_free, in_state, is_duplicate,
    on_message_choice, on_message_choices, on_message_text, on_piece, on_pieces, on_thinking,
    on_tools, open_stream, reserve_tools, send, with_piece, with_tool, MessageState, Sent,
    ToolState,
};
use crate::anthropic::stream_content::{
    all_text, law_ends_release_the_rest, lemma_add_texts_says, lemma_close_says, lemma_sent_push,
    lemma_text_says, lemma_thinking_says, sent_text, sent_thinking,
};
use crate::anthropic::stream_laws::{lemma_add_texts, lemma_close_tools, lemma_reserve_tools};
use crate::anthropic::stream_order::{lemma_choices_continue, with_chunk_head, with_finish};
use crate::anthropic::stream_run::{after_chunks, is_fresh, whole_message, MessageTurn};
use crate::chat::{
    ChatChoiceStream, ChatCompletionMessageToolCallChunk, CompletionUsage, FinishReason,
    NvCreateChatCompletionStreamResponse,
};
use crate::json::{parsed_json, JsonView};
use crate::responses::stream::delta_text;
use crate::responses::stream_meaning::{arguments_in, name_in, pieces_in, reasoning_in, text_in};

verus! {

/// A piece of a call, and the id that the call takes if it takes one with it.
pub struct Brought {
    pub piece: ChatCompletionMessageToolCallChunk,
    pub id: Seq<char>,
}

/// A choice, and the ids that its calls take.
pub struct Said {
    pub choice: ChatChoiceStream,
    pub ids: Seq<Seq<char>>,
}

/// A tool use that a stream starts.
#[verifier::ext_equal]
pub struct StartedUse {
    pub call: int,
    pub id: Seq<char>,
    pub name: Seq<char>,
}

/// What an event tells of a tool use.
#[verifier::ext_equal]
pub enum ToolTold {
    Start { index: u32, id: Seq<char>, name: Seq<char>, input: JsonView },
    Input { index: u32, text: Seq<char> },
}

/// The last name that the pieces of call `j` brought.
pub open spec fn last_name(pieces: Seq<Brought>, j: int) -> Seq<char>
    decreases pieces.len(),
{
    if pieces.len() == 0 {
        seq![]
    } else if pieces.last().piece.index == j && name_in(pieces.last().piece) is Some {
        name_in(pieces.last().piece)->0
    } else {
        last_name(pieces.drop_last(), j)
    }
}

/// The id that call `j` takes: that of the first of its pieces that brings one.
pub open spec fn first_id(pieces: Seq<Brought>, j: int) -> Seq<char>
    decreases pieces.len(),
{
    if pieces.len() == 0 {
        seq![]
    } else {
        let before = first_id(pieces.drop_last(), j);
        if pieces.last().piece.index == j && pieces.last().piece.id is Some && before.len() == 0 {
            pieces.last().id
        } else {
            before
        }
    }
}

/// One more than the largest index of a call.
pub open spec fn call_count(pieces: Seq<Brought>) -> nat
    decreases pieces.len(),
{
    if pieces.len() == 0 {
        0
    } else if pieces.last().piece.index + 1 > call_count(pieces.drop_last()) {
        (pieces.last().piece.index + 1) as nat
    } else {
        call_count(pieces.drop_last())
    }
}

/// Whether the tool use of call `j` is among those started.
pub open spec fn is_among(uses: Seq<StartedUse>, j: int) -> bool {
    exists|k: int| 0 <= k < uses.len() && (#[trigger] uses[k]).call == j
}

/// Whether a tool use with the given id is among those started.
pub open spec fn is_taken(uses: Seq<StartedUse>, id: Seq<char>) -> bool {
    exists|k: int| 0 <= k < uses.len() && (#[trigger] uses[k]).id == id
}

/// The tool uses that are to be started, in their order: each with the first arguments of its
/// call, unless a tool use with its id has started before.
pub open spec fn started_uses(pieces: Seq<Brought>) -> Seq<StartedUse>
    decreases pieces.len(),
{
    if pieces.len() == 0 {
        seq![]
    } else {
        let before = started_uses(pieces.drop_last());
        let j = pieces.last().piece.index as int;
        let id = first_id(pieces, j);
        if arguments_in(pieces.last().piece) is Some && !is_among(before, j) && !(id.len() > 0
            && is_taken(before, id)) {
            before.push(StartedUse { call: j, id, name: last_name(pieces, j) })
        } else {
            before
        }
    }
}

/// The arguments of call `j` that came once its tool use was started, joined.
pub open spec fn all_input(pieces: Seq<Brought>, j: int) -> Seq<char>
    decreases pieces.len(),
{
    if pieces.len() == 0 {
        seq![]
    } else {
        let before = all_input(pieces.drop_last(), j);
        if pieces.last().piece.index == j && arguments_in(pieces.last().piece) is Some && is_among(
            started_uses(pieces),
            j,
        ) {
            before + arguments_in(pieces.last().piece)->0
        } else {
            before
        }
    }
}

/// What is to be told of the tool uses, where that of call `j` is block `blocks[j]`: each start
/// and, for each piece of its arguments, the piece.
pub open spec fn to_tell(pieces: Seq<Brought>, blocks: Seq<u32>) -> Seq<ToolTold>
    decreases pieces.len(),
{
    if pieces.len() == 0 {
        seq![]
    } else {
        let before = to_tell(pieces.drop_last(), blocks);
        let j = pieces.last().piece.index as int;
        let begun = if is_among(started_uses(pieces), j) && !is_among(
            started_uses(pieces.drop_last()),
            j,
        ) {
            before.push(
                ToolTold::Start {
                    index: blocks[j],
                    id: first_id(pieces, j),
                    name: last_name(pieces, j),
                    input: JsonView::Object(seq![]),
                },
            )
        } else {
            before
        };
        if arguments_in(pieces.last().piece) is Some && is_among(started_uses(pieces), j) {
            begun.push(
                ToolTold::Input { index: blocks[j], text: arguments_in(pieces.last().piece)->0 },
            )
        } else {
            begun
        }
    }
}

/// What events tell of tool uses, in their order.
pub open spec fn tool_log(events: Seq<AnthropicStreamEventView>) -> Seq<ToolTold>
    decreases events.len(),
{
    if events.len() == 0 {
        seq![]
    } else {
        let before = tool_log(events.drop_last());
        match events.last() {
            AnthropicStreamEventView::ContentBlockStart {
                index,
                content_block: AnthropicResponseContentBlockView::ToolUse { id, name, input },
            } => before.push(ToolTold::Start { index, id, name, input }),
            AnthropicStreamEventView::ContentBlockDelta {
                index,
                delta: AnthropicDeltaView::InputJsonDelta { partial_json },
            } => before.push(ToolTold::Input { index, text: partial_json }),
            _ => before,
        }
    }
}

/// The pieces of a choice with their ids.
pub open spec fn brought_by(said: Said) -> Seq<Brought> {
    Seq::new(
        pieces_in(said.choice).len(),
        |k: int| Brought { piece: pieces_in(said.choice)[k], id: said.ids[k] },
    )
}

/// All pieces of choices with their ids.
pub open spec fn all_brought(said: Seq<Said>) -> Seq<Brought>
    decreases said.len(),
{
    if said.len() == 0 {
        seq![]
    } else {
        all_brought(said.drop_last()) + brought_by(said.last())
    }
}

/// All text of choices, joined.
pub open spec fn whole_text(said: Seq<Said>) -> Seq<char>
    decreases said.len(),
{
    if said.len() == 0 {
        seq![]
    } else {
        whole_text(said.drop_last()) + text_in(said.last().choice)
    }
}

/// All reasoning of choices, joined.
pub open spec fn whole_reasoning(said: Seq<Said>) -> Seq<char>
    decreases said.len(),
{
    if said.len() == 0 {
        seq![]
    } else {
        whole_reasoning(said.drop_last()) + reasoning_in(said.last().choice)
    }
}

/// The choices of a chunk with their ids.
pub open spec fn said_by(turn: MessageTurn) -> Seq<Said> {
    Seq::new(
        turn.chunk.inner.choices@.len(),
        |c: int| Said { choice: turn.chunk.inner.choices@[c], ids: turn.ids[c] },
    )
}

/// All choices of chunks with their ids.
pub open spec fn all_said(turns: Seq<MessageTurn>) -> Seq<Said>
    decreases turns.len(),
{
    if turns.len() == 0 {
        seq![]
    } else {
        all_said(turns.drop_last()) + said_by(turns.last())
    }
}

/// The block of each call that a converter has a place for.
pub open spec fn blocks_of(state: MessageState) -> Seq<u32> {
    state.tools.map_values(|tool: ToolState| tool.block_index as u32)
}

/// Whether a call is what its pieces brought.
spec fn tool_stands(tool: ToolState, pieces: Seq<Brought>, j: int) -> bool {
    &&& tool.name == last_name(pieces, j)
    &&& tool.id == first_id(pieces, j)
    &&& tool.arguments == all_input(pieces, j)
    &&& tool.started == is_among(started_uses(pieces), j)
}

/// Whether a converter holds of its calls what their pieces brought.
spec fn tools_stand(state: MessageState, pieces: Seq<Brought>) -> bool {
    &&& state.tools.len() == call_count(pieces)
    &&& forall|j: int|
        0 <= j < state.tools.len() ==> tool_stands(#[trigger] state.tools[j], pieces, j)
    &&& forall|id: Seq<char>|
        id.len() > 0 ==> #[trigger] state.sent_ids.contains(id) == is_taken(
            started_uses(pieces),
            id,
        )
}

proof fn lemma_uses_are_of_calls(pieces: Seq<Brought>)
    ensures
        forall|k: int|
            0 <= k < started_uses(pieces).len() ==> 0 <= (#[trigger] started_uses(pieces)[k]).call
                < call_count(pieces),
    decreases pieces.len(),
{
    if pieces.len() > 0 {
        let before = started_uses(pieces.drop_last());
        let all = started_uses(pieces);
        lemma_uses_are_of_calls(pieces.drop_last());
        assert forall|k: int| 0 <= k < all.len() implies 0 <= (#[trigger] all[k]).call < call_count(
            pieces,
        ) by {
            if k < before.len() {
                assert(all[k] == before[k]);
            }
        }
    }
}

proof fn lemma_absent(pieces: Seq<Brought>, j: int)
    requires
        j >= call_count(pieces),
    ensures
        last_name(pieces, j) == Seq::<char>::empty(),
        first_id(pieces, j) == Seq::<char>::empty(),
        all_input(pieces, j) == Seq::<char>::empty(),
        !is_among(started_uses(pieces), j),
    decreases pieces.len(),
{
    lemma_uses_are_of_calls(pieces);
    if pieces.len() > 0 {
        lemma_absent(pieces.drop_last(), j);
    }
}

proof fn lemma_same_blocks(pieces: Seq<Brought>, first: Seq<u32>, second: Seq<u32>)
    requires
        forall|j: int| 0 <= j < call_count(pieces) ==> first[j] == #[trigger] second[j],
    ensures
        to_tell(pieces, first) == to_tell(pieces, second),
    decreases pieces.len(),
{
    if pieces.len() > 0 {
        lemma_same_blocks(pieces.drop_last(), first, second);
        let j = pieces.last().piece.index as int;
        assert(first[j] == second[j]);
    }
}

proof fn lemma_pushed(uses: Seq<StartedUse>, one: StartedUse)
    ensures
        forall|j: int| #[trigger]
            is_among(uses.push(one), j) == (is_among(uses, j) || j == one.call),
        forall|id: Seq<char>| #[trigger]
            is_taken(uses.push(one), id) == (is_taken(uses, id) || id == one.id),
{
    let all = uses.push(one);
    assert(all[uses.len() as int] == one);
    assert forall|j: int| #[trigger] is_among(all, j) == (is_among(uses, j) || j == one.call) by {
        if is_among(uses, j) {
            let k = choose|k: int| 0 <= k < uses.len() && (#[trigger] uses[k]).call == j;
            assert(all[k] == uses[k]);
        }
        if is_among(all, j) {
            let k = choose|k: int| 0 <= k < all.len() && (#[trigger] all[k]).call == j;
            if k < uses.len() {
                assert(uses[k] == all[k]);
            }
        }
    }
    assert forall|id: Seq<char>| #[trigger]
        is_taken(all, id) == (is_taken(uses, id) || id == one.id) by {
        if is_taken(uses, id) {
            let k = choose|k: int| 0 <= k < uses.len() && (#[trigger] uses[k]).id == id;
            assert(all[k] == uses[k]);
        }
        if is_taken(all, id) {
            let k = choose|k: int| 0 <= k < all.len() && (#[trigger] all[k]).id == id;
            if k < uses.len() {
                assert(uses[k] == all[k]);
            }
        }
    }
}

proof fn lemma_contains_push(ids: Seq<Seq<char>>, one: Seq<char>)
    ensures
        forall|id: Seq<char>| #[trigger]
            ids.push(one).contains(id) == (ids.contains(id) || id == one),
{
    let all = ids.push(one);
    assert(all[ids.len() as int] == one);
    assert forall|id: Seq<char>| #[trigger] all.contains(id) == (ids.contains(id) || id == one) by {
        if ids.contains(id) {
            let k = choose|k: int| 0 <= k < ids.len() && ids[k] == id;
            assert(all[k] == id);
        }
        if all.contains(id) {
            let k = choose|k: int| 0 <= k < all.len() && all[k] == id;
            if k < ids.len() {
                assert(ids[k] == id);
            }
        }
    }
}

/// Every piece is taken to its call.
proof fn lemma_piece_stands(run: Sent, pieces: Seq<Brought>, next: Brought, complete: bool)
    requires
        tools_stand(run.state, pieces),
    ensures
        tools_stand(on_piece(run, next.piece, next.id, complete).state, pieces.push(next)),
{
    let state = run.state;
    let piece = next.piece;
    let all = pieces.push(next);
    let j = piece.index as int;
    let after = on_piece(run, piece, next.id, complete).state;
    let reserved = reserve_tools(state, (piece.index + 1) as nat);
    let named = with_piece(state, piece, next.id);
    let before = started_uses(pieces);
    lemma_reserve_tools(state, (piece.index + 1) as nat);
    assert(all.drop_last() =~= pieces);
    assert(named.sent_ids == state.sent_ids);
    if j < state.tools.len() {
        assert(tool_stands(state.tools[j], pieces, j));
        assert(reserved.tools[j] == state.tools[j]);
    } else {
        lemma_absent(pieces, j);
    }
    let tool = named.tools[j];
    assert(tool.name == last_name(all, j));
    assert(tool.id == first_id(all, j));
    let one = StartedUse { call: j, id: first_id(all, j), name: last_name(all, j) };
    lemma_pushed(before, one);
    lemma_contains_push(state.sent_ids, tool.id);
    assert(after.tools.len() == call_count(all));
    assert forall|k: int| 0 <= k < after.tools.len() implies tool_stands(
        #[trigger] after.tools[k],
        all,
        k,
    ) by {
        if k < state.tools.len() {
            assert(reserved.tools[k] == state.tools[k]);
            assert(tool_stands(state.tools[k], pieces, k));
        } else {
            lemma_absent(pieces, k);
        }
        if k != j {
            assert(after.tools[k] == reserved.tools[k]);
        }
    }
}

/// A piece tells of its call what it brings.
proof fn lemma_piece_told(
    prior: Seq<ToolTold>,
    run: Sent,
    pieces: Seq<Brought>,
    next: Brought,
    complete: bool,
)
    requires
        tools_stand(run.state, pieces),
        prior + tool_log(run.events) == to_tell(pieces, blocks_of(run.state)),
    ensures
        ({
            let after = on_piece(run, next.piece, next.id, complete);
            &&& prior + tool_log(after.events) == to_tell(
                pieces.push(next),
                blocks_of(after.state),
            )
            &&& sent_text(after.events) == sent_text(run.events)
            &&& sent_thinking(after.events) == sent_thinking(run.events)
            &&& after.state.pending == run.state.pending
            &&& after.state.finish_reason == run.state.finish_reason
            &&& after.state.matched == run.state.matched
            &&& after.state.usage == run.state.usage
            &&& after.state.context == run.state.context
            &&& after.state.start_emitted == run.state.start_emitted
        }),
{
    let state = run.state;
    let piece = next.piece;
    let all = pieces.push(next);
    let j = piece.index as int;
    let after = on_piece(run, piece, next.id, complete);
    let reserved = reserve_tools(state, (piece.index + 1) as nat);
    let named = with_piece(state, piece, next.id);
    let blocks = blocks_of(after.state);
    lemma_reserve_tools(state, (piece.index + 1) as nat);
    lemma_piece_stands(run, pieces, next, complete);
    assert(all.drop_last() =~= pieces);
    assert forall|k: int| 0 <= k < call_count(pieces) implies blocks_of(state)[k]
        == #[trigger] blocks[k] by {
        assert(reserved.tools[k] == state.tools[k]);
    }
    lemma_same_blocks(pieces, blocks_of(state), blocks);
    assert(tool_stands(after.state.tools[j], all, j));
    if j < state.tools.len() {
        assert(tool_stands(state.tools[j], pieces, j));
        assert(reserved.tools[j] == state.tools[j]);
    } else {
        lemma_absent(pieces, j);
    }
    let tool = named.tools[j];
    assert(blocks[j] == tool.block_index as u32);
    let one = StartedUse { call: j, id: first_id(all, j), name: last_name(all, j) };
    lemma_pushed(started_uses(pieces), one);
    assert(tool.id.len() > 0 ==> state.sent_ids.contains(tool.id) == is_taken(
        started_uses(pieces),
        tool.id,
    ));
    if arguments_in(piece) is Some && !is_duplicate(named, tool) {
        let start = ToolTold::Start {
            index: blocks[j],
            id: first_id(all, j),
            name: last_name(all, j),
            input: JsonView::Object(seq![]),
        };
        let input = ToolTold::Input { index: blocks[j], text: arguments_in(piece)->0 };
        let n = run.events.len() as int;
        let begun = if tool.started {
            run.events
        } else {
            run.events.push(after.events[n])
        };
        let told = begun.push(after.events[begun.len() as int]);
        lemma_sent_push(run.events, after.events[n]);
        lemma_sent_push(begun, after.events[begun.len() as int]);
        lemma_sent_push(told, after.events.last());
        if !tool.started {
            assert(begun.drop_last() =~= run.events);
            assert(tool_log(begun) == tool_log(run.events).push(start));
        }
        assert(told.drop_last() =~= begun);
        assert(tool_log(told) == tool_log(begun).push(input));
        if after.events.len() == told.len() {
            assert(after.events =~= told);
        } else {
            assert(after.events =~= told.push(after.events.last()));
            assert(after.events.drop_last() =~= told);
        }
        assert(tool_log(after.events) == tool_log(told));
        assert(prior + tool_log(run.events).push(start) =~= (prior + tool_log(run.events)).push(
            start,
        ));
        assert(prior + tool_log(begun).push(input) =~= (prior + tool_log(begun)).push(input));
    } else {
        assert(after.events == run.events);
    }
}

/// The last finish reason that choices brought.
pub open spec fn last_finish(said: Seq<Said>) -> Option<FinishReason>
    decreases said.len(),
{
    if said.len() == 0 {
        None
    } else if said.last().choice.finish_reason is Some {
        said.last().choice.finish_reason
    } else {
        last_finish(said.drop_last())
    }
}

/// Whether an event tells nothing of a tool use.
spec fn is_quiet(event: AnthropicStreamEventView) -> bool {
    match event {
        AnthropicStreamEventView::ContentBlockStart { content_block, .. } => !(content_block
            is ToolUse),
        AnthropicStreamEventView::ContentBlockDelta { delta, .. } => !(delta is InputJsonDelta),
        _ => true,
    }
}

/// Whether events go on with quiet ones.
spec fn adds_quietly(
    before: Seq<AnthropicStreamEventView>,
    after: Seq<AnthropicStreamEventView>,
) -> bool {
    &&& before.len() <= after.len()
    &&& forall|k: int| 0 <= k < before.len() ==> #[trigger] after[k] == before[k]
    &&& forall|k: int| before.len() <= k < after.len() ==> is_quiet(#[trigger] after[k])
}

proof fn lemma_quiet(
    before: Seq<AnthropicStreamEventView>,
    after: Seq<AnthropicStreamEventView>,
)
    requires
        adds_quietly(before, after),
    ensures
        tool_log(after) == tool_log(before),
    decreases after.len(),
{
    if after.len() > before.len() {
        assert(is_quiet(after[after.len() - 1]));
        lemma_quiet(before, after.drop_last());
    } else {
        assert(after =~= before);
    }
}

proof fn lemma_texts_are_quiet(run: Sent, texts: Seq<Seq<char>>, from: int)
    ensures
        adds_quietly(run.events, add_texts(run, texts, from).events),
    decreases texts.len() - from,
{
    if 0 <= from < texts.len() {
        let next = add_text(run, texts[from]);
        assert(adds_quietly(run.events, next.events));
        lemma_texts_are_quiet(next, texts, from + 1);
    }
}

proof fn lemma_tools_close_quietly(run: Sent, from: int)
    ensures
        adds_quietly(run.events, close_tools(run, from).events),
    decreases run.state.tools.len() - from,
{
    if 0 <= from < run.state.tools.len() {
        let tool = run.state.tools[from];
        let closed = if tool.is_open() {
            send(
                in_state(run, with_tool(run.state, from, ToolState { stopped: true, ..tool })),
                block_stop(tool.block_index),
            )
        } else {
            run
        };
        assert(adds_quietly(run.events, closed.events));
        lemma_tools_close_quietly(closed, from + 1);
    }
}

/// What was told before a step.
pub struct Prior {
    pub log: Seq<ToolTold>,
    pub text: Seq<char>,
    pub reasoning: Seq<char>,
}

/// Whether what was told before, what was sent since and what waits is what choices brought.
spec fn speaks(prior: Prior, run: Sent, said: Seq<Said>) -> bool {
    &&& tools_stand(run.state, all_brought(said))
    &&& prior.log + tool_log(run.events) == to_tell(all_brought(said), blocks_of(run.state))
    &&& prior.text + sent_text(run.events) + all_text(run.state.pending, 0) == whole_text(said)
    &&& prior.reasoning + sent_thinking(run.events) == whole_reasoning(said)
    &&& run.state.pending.len() > 0 ==> run.state.tool_open()
    &&& run.state.finish_reason == last_finish(said)
}

/// Whether two states say the same of the whole message.
spec fn same_head(a: MessageState, b: MessageState) -> bool {
    &&& a.model == b.model
    &&& a.message_id == b.message_id
    &&& a.context == b.context
    &&& a.matched == b.matched
    &&& a.usage == b.usage
    &&& a.start_emitted == b.start_emitted
}

proof fn lemma_pieces_told(
    prior: Seq<ToolTold>,
    run: Sent,
    before: Seq<Brought>,
    brought: Seq<Brought>,
    pieces: Seq<ChatCompletionMessageToolCallChunk>,
    from: int,
    ids: Seq<Seq<char>>,
)
    requires
        0 <= from <= pieces.len(),
        brought.len() == pieces.len(),
        forall|k: int|
            0 <= k < pieces.len() ==> (#[trigger] brought[k]) == (Brought {
                piece: pieces[k],
                id: ids[k],
            }),
        tools_stand(run.state, before + brought.take(from)),
        prior + tool_log(run.events) == to_tell(before + brought.take(from), blocks_of(run.state)),
    ensures
        ({
            let after = on_pieces(run, pieces, from, ids);
            &&& tools_stand(after.state, before + brought)
            &&& prior + tool_log(after.events) == to_tell(before + brought, blocks_of(after.state))
            &&& sent_text(after.events) == sent_text(run.events)
            &&& sent_thinking(after.events) == sent_thinking(run.events)
            &&& after.state.pending == run.state.pending
            &&& after.state.finish_reason == run.state.finish_reason
            &&& same_head(after.state, run.state)
        }),
    decreases pieces.len() - from,
{
    if from < pieces.len() {
        let complete = parsed_json(arguments_with(run.state, pieces[from])) is Some;
        let next = on_piece(run, pieces[from], ids[from], complete);
        lemma_piece_told(prior, run, before + brought.take(from), brought[from], complete);
        lemma_piece_stands(run, before + brought.take(from), brought[from], complete);
        lemma_reserve_tools(run.state, (pieces[from].index + 1) as nat);
        assert(same_head(next.state, run.state));
        assert((before + brought.take(from)).push(brought[from]) =~= before + brought.take(
            from + 1,
        ));
        lemma_pieces_told(prior, next, before, brought, pieces, from + 1, ids);
    } else {
        assert(brought.take(from) =~= brought);
    }
}

/// A delta of text and reasoning: what it sends, and what it leaves alone.
proof fn lemma_words(run: Sent, choice: ChatChoiceStream)
    requires
        run.state.pending.len() > 0 ==> run.state.tool_open(),
    ensures
        ({
            let finished = with_finish(run, choice);
            let thought = on_thinking(finished, choice.delta.reasoning_content);
            let texted = on_message_text(thought, delta_text(choice.delta.content));
            &&& sent_text(texted.events) + all_text(texted.state.pending, 0) == sent_text(
                run.events,
            ) + all_text(run.state.pending, 0) + text_in(choice)
            &&& sent_thinking(texted.events) == sent_thinking(run.events) + reasoning_in(choice)
            &&& tool_log(texted.events) == tool_log(run.events)
            &&& texted.state.tools == run.state.tools
            &&& texted.state.sent_ids == run.state.sent_ids
            &&& same_head(texted.state, run.state)
            &&& texted.state.finish_reason == if choice.finish_reason is Some {
                choice.finish_reason
            } else {
                run.state.finish_reason
            }
        }),
{
    let finished = with_finish(run, choice);
    let text = delta_text(choice.delta.content);
    let thought = on_thinking(finished, choice.delta.reasoning_content);
    let texted = on_message_text(thought, text);
    lemma_thinking_says(finished, choice.delta.reasoning_content);
    assert(thought.state.tools == run.state.tools);
    assert(thought.state.tool_open() == run.state.tool_open());
    lemma_text_says(thought, text);
    assert(adds_quietly(run.events, thought.events));
    assert(adds_quietly(thought.events, texted.events));
    lemma_quiet(run.events, thought.events);
    lemma_quiet(thought.events, texted.events);
    assert(sent_text(thought.events) =~= sent_text(run.events));
    assert(thought.state.pending == run.state.pending);
    assert(sent_thinking(texted.events) =~= sent_thinking(run.events) + reasoning_in(choice));
}

/// Releasing the text that waited says it, and nothing else.
proof fn lemma_flushed(run: Sent)
    ensures
        ({
            let after = flush_if_free(run);
            &&& sent_text(after.events) + all_text(after.state.pending, 0) == sent_text(run.events)
                + all_text(run.state.pending, 0)
            &&& sent_thinking(after.events) == sent_thinking(run.events)
            &&& tool_log(after.events) == tool_log(run.events)
            &&& after.state.tools == run.state.tools
            &&& after.state.sent_ids == run.state.sent_ids
            &&& after.state.pending.len() > 0 ==> after.state.tool_open()
            &&& after.state.finish_reason == run.state.finish_reason
            &&& same_head(after.state, run.state)
        }),
{
    if !run.state.tool_open() {
        let emptied = in_state(run, MessageState { pending: seq![], ..run.state });
        let after = flush(run);
        lemma_add_texts(emptied, run.state.pending, 0);
        lemma_add_texts_says(emptied, run.state.pending, 0);
        lemma_texts_are_quiet(emptied, run.state.pending, 0);
        lemma_quiet(run.events, after.events);
        assert(sent_text(after.events) + all_text(after.state.pending, 0) =~= sent_text(
            run.events,
        ) + all_text(run.state.pending, 0));
        assert(sent_thinking(after.events) =~= sent_thinking(run.events));
    }
}

proof fn lemma_tools_told(prior: Seq<ToolTold>, run: Sent, before: Seq<Brought>, next: Said)
    requires
        tools_stand(run.state, before),
        prior + tool_log(run.events) == to_tell(before, blocks_of(run.state)),
    ensures
        ({
            let after = on_tools(run, next.choice.delta.tool_calls, next.ids);
            let all = before + brought_by(next);
            &&& tools_stand(after.state, all)
            &&& prior + tool_log(after.events) == to_tell(all, blocks_of(after.state))
            &&& sent_text(after.events) == sent_text(run.events)
            &&& sent_thinking(after.events) == sent_thinking(run.events)
            &&& after.state.pending == run.state.pending
            &&& after.state.finish_reason == run.state.finish_reason
            &&& same_head(after.state, run.state)
        }),
{
    let choice = next.choice;
    let brought = brought_by(next);
    if choice.delta.tool_calls is Some {
        let closed = close_thinking(run);
        let quiet = close_text(closed);
        lemma_close_says(run);
        lemma_close_says(closed);
        assert(adds_quietly(run.events, closed.events));
        assert(adds_quietly(closed.events, quiet.events));
        lemma_quiet(run.events, closed.events);
        lemma_quiet(closed.events, quiet.events);
        assert(sent_text(quiet.events) =~= sent_text(run.events));
        assert(sent_thinking(quiet.events) =~= sent_thinking(run.events));
        assert(brought.take(0) =~= Seq::empty());
        assert(before + brought.take(0) =~= before);
        assert(quiet.state.tools == run.state.tools);
        assert(tools_stand(quiet.state, before));
        lemma_pieces_told(prior, quiet, before, brought, pieces_in(choice), 0, next.ids);
    } else {
        assert(before + brought =~= before);
    }
}

proof fn lemma_joined(
    prior: Seq<char>,
    before: Seq<char>,
    waiting: Seq<char>,
    text: Seq<char>,
    after: Seq<char>,
    left: Seq<char>,
)
    requires
        after + left == before + waiting + text,
    ensures
        prior + after + left == prior + before + waiting + text,
{
    assert(prior + after + left =~= prior + (after + left));
    assert(prior + (before + waiting + text) =~= prior + before + waiting + text);
}

proof fn lemma_same_tools(state: MessageState, other: MessageState, pieces: Seq<Brought>)
    requires
        tools_stand(state, pieces),
        other.tools == state.tools,
        other.sent_ids == state.sent_ids,
    ensures
        tools_stand(other, pieces),
        blocks_of(other) == blocks_of(state),
{
}

proof fn lemma_choice_told(prior: Prior, run: Sent, said: Seq<Said>, next: Said)
    requires
        speaks(prior, run, said),
    ensures
        ({
            let after = on_message_choice(run, next.choice, next.ids);
            &&& speaks(prior, after, said.push(next))
            &&& same_head(after.state, run.state)
        }),
{
    let all = said.push(next);
    let choice = next.choice;
    let before = all_brought(said);
    assert(all.drop_last() =~= said);
    let thought = on_thinking(with_finish(run, choice), choice.delta.reasoning_content);
    let texted = on_message_text(thought, delta_text(choice.delta.content));
    let called = on_tools(texted, choice.delta.tool_calls, next.ids);
    let after = flush_if_free(called);
    assert(after == on_message_choice(run, choice, next.ids));
    lemma_words(run, choice);
    lemma_same_tools(run.state, texted.state, before);
    lemma_tools_told(prior.log, texted, before, next);
    lemma_flushed(called);
    lemma_same_tools(called.state, after.state, all_brought(all));
    lemma_joined(
        prior.text,
        sent_text(run.events),
        all_text(run.state.pending, 0),
        text_in(choice),
        sent_text(after.events),
        all_text(after.state.pending, 0),
    );
    assert(prior.reasoning + (sent_thinking(run.events) + reasoning_in(choice)) =~= (prior.reasoning
        + sent_thinking(run.events)) + reasoning_in(choice));
}

proof fn lemma_choices_told(
    prior: Prior,
    run: Sent,
    before: Seq<Said>,
    said: Seq<Said>,
    choices: Seq<ChatChoiceStream>,
    from: int,
    ids: Seq<Seq<Seq<char>>>,
)
    requires
        0 <= from <= choices.len(),
        said.len() == choices.len(),
        forall|c: int|
            0 <= c < choices.len() ==> (#[trigger] said[c]) == (Said {
                choice: choices[c],
                ids: ids[c],
            }),
        speaks(prior, run, before + said.take(from)),
    ensures
        ({
            let after = on_message_choices(run, choices, from, ids);
            &&& speaks(prior, after, before + said)
            &&& same_head(after.state, run.state)
        }),
    decreases choices.len() - from,
{
    if from < choices.len() {
        let next = on_message_choice(run, choices[from], ids[from]);
        assert(said[from] == Said { choice: choices[from], ids: ids[from] });
        lemma_choice_told(prior, run, before + said.take(from), said[from]);
        assert((before + said.take(from)).push(said[from]) =~= before + said.take(from + 1));
        lemma_choices_told(prior, next, before, said, choices, from + 1, ids);
    } else {
        assert(said.take(from) =~= said);
    }
}

/// The last stop sequence of the request that chunks reported to have matched.
pub open spec fn last_match(
    turns: Seq<MessageTurn>,
    context: Option<AnthropicContext>,
) -> Option<Seq<char>>
    decreases turns.len(),
{
    if turns.len() == 0 {
        None
    } else if matched_stop(turns.last().chunk.nvext, context) is Some {
        matched_stop(turns.last().chunk.nvext, context)
    } else {
        last_match(turns.drop_last(), context)
    }
}

/// The last token counts that chunks brought.
pub open spec fn last_counts(turns: Seq<MessageTurn>) -> Option<CompletionUsage>
    decreases turns.len(),
{
    if turns.len() == 0 {
        None
    } else if turns.last().chunk.inner.usage is Some {
        turns.last().chunk.inner.usage
    } else {
        last_counts(turns.drop_last())
    }
}

/// Whether the token counts of a message are those that came.
pub open spec fn counts_match(came: Option<CompletionUsage>, told: AnthropicUsage) -> bool {
    match came {
        Some(usage) => counts_as(usage, told),
        None => {
            &&& told.input_tokens == 0
            &&& told.output_tokens == 0
            &&& told.cache_creation_input_tokens == Some(0u32)
            &&& told.cache_read_input_tokens == Some(0u32)
        },
    }
}

/// Whether a converter holds what chunks said of the whole message.
spec fn head_stands(state: MessageState, start: MessageState, turns: Seq<MessageTurn>) -> bool {
    &&& state.model == start.model
    &&& state.message_id == start.message_id
    &&& state.context == start.context
    &&& state.matched == last_match(turns, start.context)
    &&& counts_match(last_counts(turns), state.usage)
    &&& state.start_emitted == (turns.len() > 0)
}

/// Nothing was told before a stream.
spec fn nothing() -> Prior {
    Prior { log: seq![], text: seq![], reasoning: seq![] }
}

proof fn lemma_said_on(
    first: Seq<AnthropicStreamEventView>,
    second: Seq<AnthropicStreamEventView>,
)
    ensures
        tool_log(first + second) == tool_log(first) + tool_log(second),
        sent_text(first + second) == sent_text(first) + sent_text(second),
        sent_thinking(first + second) == sent_thinking(first) + sent_thinking(second),
    decreases second.len(),
{
    if second.len() > 0 {
        lemma_said_on(first, second.drop_last());
        assert((first + second).drop_last() =~= first + second.drop_last());
        assert((first + second).last() == second.last());
        assert(sent_text(first + second) =~= sent_text(first) + sent_text(second));
        assert(sent_thinking(first + second) =~= sent_thinking(first) + sent_thinking(second));
    } else {
        assert(first + second =~= first);
    }
}

proof fn lemma_chunk_told(prior: Prior, state: MessageState, said: Seq<Said>, turn: MessageTurn)
    requires
        speaks(prior, Sent { state, events: seq![] }, said),
    ensures
        ({
            let after = after_message_chunk(state, turn.chunk, turn.ids);
            &&& speaks(prior, after, said + said_by(turn))
            &&& same_head(after.state, with_chunk_head(state, turn.chunk).state)
        }),
{
    let head = with_chunk_head(state, turn.chunk);
    let now = said_by(turn);
    let empty = Seq::<AnthropicStreamEventView>::empty();
    assert(adds_quietly(empty, head.events));
    lemma_quiet(empty, head.events);
    if !state.start_emitted {
        lemma_sent_push(empty, head.events.last());
        assert(head.events =~= empty.push(head.events.last()));
    }
    assert(sent_text(head.events) =~= seq![]);
    assert(sent_thinking(head.events) =~= seq![]);
    assert(head.state.tool_open() == state.tool_open());
    lemma_same_tools(state, head.state, all_brought(said));
    assert(now.take(0) =~= Seq::empty());
    assert(said + now.take(0) =~= said);
    assert(speaks(prior, head, said));
    lemma_choices_told(prior, head, said, now, turn.chunk.inner.choices@, 0, turn.ids);
}

proof fn lemma_stream_told(state: MessageState, turns: Seq<MessageTurn>)
    requires
        is_fresh(state),
    ensures
        speaks(nothing(), after_chunks(state, turns), all_said(turns)),
        head_stands(after_chunks(state, turns).state, state, turns),
    decreases turns.len(),
{
    let sent = after_chunks(state, turns);
    if turns.len() > 0 {
        let rest = turns.drop_last();
        let turn = turns.last();
        let before = after_chunks(state, rest);
        let chunk = after_message_chunk(before.state, turn.chunk, turn.ids);
        lemma_stream_told(state, rest);
        let prior = Prior {
            log: tool_log(before.events),
            text: sent_text(before.events),
            reasoning: sent_thinking(before.events),
        };
        let run = Sent { state: before.state, events: seq![] };
        let said = all_said(rest);
        assert(nothing().log + prior.log =~= prior.log + tool_log(run.events));
        assert(nothing().text + prior.text =~= prior.text + sent_text(run.events));
        assert(nothing().reasoning + prior.reasoning =~= prior.reasoning + sent_thinking(
            run.events,
        ));
        assert(speaks(prior, run, said));
        lemma_chunk_told(prior, before.state, said, turn);
        lemma_said_on(before.events, chunk.events);
        assert(nothing().log + tool_log(sent.events) =~= tool_log(sent.events));
        assert(nothing().text + sent_text(sent.events) =~= sent_text(sent.events));
        assert(nothing().reasoning + sent_thinking(sent.events) =~= sent_thinking(sent.events));
        if turn.chunk.inner.usage is Some {
            law_token_counts_are_kept(turn.chunk.inner.usage->0);
        }
    } else {
        assert(nothing().text + sent_text(sent.events) + all_text(sent.state.pending, 0) =~= seq![]);
        assert(nothing().reasoning + sent_thinking(sent.events) =~= seq![]);
        assert(nothing().log + tool_log(sent.events) =~= seq![]);
        assert(tools_stand(sent.state, seq![]));
    }
}

/// The tool uses of a stream are the calls that the chunks brought. Each starts with the first
/// arguments that come for its index, unless a tool use with its id has started: under the id
/// that the index took and with the last name that came for it by then. Then its block carries
/// the arguments that come for the index, piece by piece, and nothing else.
pub proof fn law_tool_uses_are_told_as_they_came(state: MessageState, turns: Seq<MessageTurn>)
    requires
        is_fresh(state),
    ensures
        ({
            let sent = after_chunks(state, turns);
            tool_log(sent.events) == to_tell(
                all_brought(all_said(turns)),
                blocks_of(sent.state),
            )
        }),
{
    let sent = after_chunks(state, turns);
    lemma_stream_told(state, turns);
    assert(nothing().log + tool_log(sent.events) =~= tool_log(sent.events));
}

/// A whole stream says what its chunks brought: all text and all reasoning, in order, and the
/// tool uses. It tells why the message stopped by the last finish reason that came, or by the
/// stop sequence that was reported to have matched, and the last token counts that came.
pub proof fn law_whole_messages_say_what_came(state: MessageState, turns: Seq<MessageTurn>)
    requires
        is_fresh(state),
    ensures
        ({
            let whole = whole_message(state, turns);
            let said = all_said(turns);
            let matched = last_match(turns, state.context);
            &&& sent_text(whole.events) == whole_text(said)
            &&& sent_thinking(whole.events) == whole_reasoning(said)
            &&& tool_log(whole.events) == to_tell(all_brought(said), blocks_of(whole.state))
            &&& whole.events.len() >= 2
            &&& whole.events[whole.events.len() - 2] matches AnthropicStreamEventView::MessageDelta {
                delta,
                usage,
            } && {
                &&& counts_match(last_counts(turns), usage)
                &&& match last_finish(said) {
                    Some(reason) => if reason is Stop && matched is Some {
                        &&& delta.stop_reason == Some(AnthropicStopReason::StopSequence)
                        &&& delta.stop_sequence == matched
                    } else {
                        &&& delta.stop_reason matches Some(stop) && means(reason, stop)
                        &&& delta.stop_sequence is None
                    },
                    None => delta.stop_reason is None && delta.stop_sequence is None,
                }
            }
        }),
{
    let sent = after_chunks(state, turns);
    let end = after_message_end(sent.state);
    let whole = whole_message(state, turns);
    lemma_stream_told(state, turns);
    lemma_end_told(sent.state);
    lemma_said_on(sent.events, end.events);
    law_ends_release_the_rest(sent.state);
    assert(nothing().log + tool_log(sent.events) =~= tool_log(sent.events));
    assert(tool_log(sent.events) + tool_log(end.events) =~= tool_log(sent.events));
    assert(nothing().text + sent_text(sent.events) =~= sent_text(sent.events));
    assert(nothing().reasoning + sent_thinking(sent.events) =~= sent_thinking(sent.events));
    assert(sent_thinking(sent.events) + sent_thinking(end.events) =~= sent_thinking(sent.events));
    assert(whole.events[whole.events.len() - 2] == end.events[end.events.len() - 2]);
    if sent.state.finish_reason is Some {
        law_finish_reasons_are_told_as_what_they_mean(sent.state.finish_reason->0);
    }
}

/// The end of a stream tells nothing of tool uses, and leaves alone what the whole message says.
proof fn lemma_end_told(state: MessageState)
    ensures
        ({
            let end = after_message_end(state);
            &&& tool_log(end.events) == Seq::<ToolTold>::empty()
            &&& blocks_of(end.state) == blocks_of(state)
            &&& end.state.matched == state.matched
            &&& end.state.usage == state.usage
            &&& end.state.finish_reason == state.finish_reason
        }),
{
    let empty = Seq::<AnthropicStreamEventView>::empty();
    let head = open_stream(Sent { state, events: empty }, 0);
    let thought = close_thinking(head);
    let tooled = close_tools(thought, 0);
    let emptied = in_state(tooled, MessageState { pending: seq![], ..tooled.state });
    let flushed = flush(tooled);
    let closed = close_text(flushed);
    let end = after_message_end(state);
    assert(adds_quietly(empty, head.events));
    assert(adds_quietly(head.events, thought.events));
    lemma_quiet(empty, head.events);
    lemma_quiet(head.events, thought.events);
    lemma_tools_close_quietly(thought, 0);
    lemma_quiet(thought.events, tooled.events);
    lemma_close_tools(thought, 0);
    lemma_texts_are_quiet(emptied, tooled.state.pending, 0);
    lemma_quiet(tooled.events, flushed.events);
    lemma_add_texts(emptied, tooled.state.pending, 0);
    assert(adds_quietly(flushed.events, closed.events));
    lemma_quiet(flushed.events, closed.events);
    assert(adds_quietly(closed.events, end.events));
    lemma_quiet(closed.events, end.events);
    assert(blocks_of(end.state) =~= blocks_of(state));
}

/// The first event of a message says which it is: its id, and the model that was asked for. It
/// has no content and has not stopped. The input tokens are told where the first chunk reports
/// how many of them were cached, and are zero otherwise.
pub proof fn law_messages_start_as_what_they_are(
    state: MessageState,
    chunk: NvCreateChatCompletionStreamResponse,
    ids: Seq<Seq<Seq<char>>>,
)
    requires
        is_fresh(state),
    ensures
        after_message_chunk(state, chunk, ids).events.len() > 0,
        after_message_chunk(state, chunk, ids).events[0] matches AnthropicStreamEventView::MessageStart {
            message,
        } && {
            &&& message.id == state.message_id
            &&& message.model == state.model
            &&& message.object_type == "message"@
            &&& message.role == "assistant"@
            &&& message.content.len() == 0
            &&& message.stop_reason is None
            &&& message.stop_sequence is None
            &&& match chunk.inner.usage {
                Some(usage) => {
                    &&& message.usage.output_tokens == usage.completion_tokens
                    &&& match usage.prompt_tokens_details {
                        Some(details) => if details.cached_tokens is Some {
                            counts_as(usage, message.usage)
                        } else {
                            message.usage.input_tokens == 0
                        },
                        None => message.usage.input_tokens == 0,
                    }
                },
                None => message.usage.input_tokens == 0 && message.usage.output_tokens == 0,
            }
        },
{
    let head = with_chunk_head(state, chunk);
    let sent = after_message_chunk(state, chunk, ids);
    lemma_choices_continue(head, chunk.inner.choices@, 0, ids);
    assert(sent.events.take(1)[0] == head.events[0]);
}

} // verus!
