//! How the blocks of a stream begin, and how thinking ends.

use vstd::prelude::*;

use crate::anthropic::reply::{
    AnthropicDeltaView, AnthropicResponseContentBlockView, AnthropicStreamEventView,
};
use crate::anthropic::stream::{
    add_text, add_texts, after_message_chunk, after_message_end, arguments_with, block_stop,
    close_text, close_thinking, close_tools, flush, in_state, on_message_choice, on_message_choices,
    on_message_text, on_piece, on_pieces, on_thinking, on_tools, open_stream, send, with_tool,
    MessageState, Sent, ToolState,
};
use crate::anthropic::stream_laws::{lemma_add_texts, lemma_close_tools, lemma_reserve_tools};
use crate::anthropic::stream_meaning::{all_said, said_by, whole_reasoning, Said};
use crate::anthropic::stream_order::{with_chunk_head, with_finish};
use crate::anthropic::stream_run::{after_chunks, is_fresh, whole_message, MessageTurn};
use crate::chat::{ChatChoiceStream, ChatCompletionMessageToolCallChunk};
use crate::json::{parsed_json, JsonView};
use crate::responses::stream::delta_text;
use crate::responses::stream_meaning::reasoning_in;

verus! {

/// What an event tells of the thinking as a whole.
#[verifier::ext_equal]
pub enum ThinkingTold {
    Begins { thinking: Seq<char>, signature: Seq<char> },
    Signed { signature: Seq<char> },
}

/// What an event tells of the thinking as a whole, if anything.
pub open spec fn told_in(event: AnthropicStreamEventView) -> Seq<ThinkingTold> {
    match event {
        AnthropicStreamEventView::ContentBlockStart {
            content_block: AnthropicResponseContentBlockView::Thinking { thinking, signature },
            ..
        } => seq![ThinkingTold::Begins { thinking, signature }],
        AnthropicStreamEventView::ContentBlockDelta {
            delta: AnthropicDeltaView::SignatureDelta { signature },
            ..
        } => seq![ThinkingTold::Signed { signature }],
        _ => seq![],
    }
}

/// What events tell of the thinking as a whole, in their order.
pub open spec fn thinking_log(events: Seq<AnthropicStreamEventView>) -> Seq<ThinkingTold>
    decreases events.len(),
{
    if events.len() == 0 {
        seq![]
    } else {
        thinking_log(events.drop_last()) + told_in(events.last())
    }
}

/// Whether a block that an event starts, if it starts one, is a text, thinking or a tool use and
/// holds nothing yet.
pub open spec fn starts_empty(event: AnthropicStreamEventView) -> bool {
    event matches AnthropicStreamEventView::ContentBlockStart { content_block, .. }
        ==> match content_block {
        AnthropicResponseContentBlockView::Text { text, citations } => text.len() == 0
            && citations is None,
        AnthropicResponseContentBlockView::Thinking { thinking, signature } => thinking.len() == 0
            && signature.len() == 0,
        AnthropicResponseContentBlockView::ToolUse { input, .. } => input == JsonView::Object(
            seq![],
        ),
        _ => false,
    }
}

/// Whether every block that events start holds nothing yet.
pub open spec fn all_start_empty(events: Seq<AnthropicStreamEventView>) -> bool {
    forall|k: int| 0 <= k < events.len() ==> starts_empty(#[trigger] events[k])
}

/// Whether events go on with some that tell nothing of the thinking and start only empty blocks.
spec fn adds_quietly(
    before: Seq<AnthropicStreamEventView>,
    after: Seq<AnthropicStreamEventView>,
) -> bool {
    &&& before.len() <= after.len()
    &&& forall|k: int| 0 <= k < before.len() ==> #[trigger] after[k] == before[k]
    &&& forall|k: int|
        before.len() <= k < after.len() ==> told_in(#[trigger] after[k]).len() == 0
            && starts_empty(after[k])
}

proof fn lemma_quiet(
    before: Seq<AnthropicStreamEventView>,
    after: Seq<AnthropicStreamEventView>,
)
    requires
        adds_quietly(before, after),
    ensures
        thinking_log(after) == thinking_log(before),
        all_start_empty(before) ==> all_start_empty(after),
    decreases after.len(),
{
    if after.len() > before.len() {
        assert(told_in(after[after.len() - 1]).len() == 0);
        lemma_quiet(before, after.drop_last());
        assert(thinking_log(after) =~= thinking_log(before));
        if all_start_empty(before) {
            assert forall|k: int| 0 <= k < after.len() implies starts_empty(#[trigger] after[k]) by {
                if k < before.len() {
                    assert(after[k] == before[k]);
                }
            }
        }
    } else {
        assert(after =~= before);
    }
}

/// What a converter has told of the thinking.
spec fn told_of(state: MessageState) -> Seq<ThinkingTold> {
    let begins: Seq<ThinkingTold> = if state.thinking_started {
        seq![ThinkingTold::Begins { thinking: seq![], signature: seq![] }]
    } else {
        seq![]
    };
    let ends: Seq<ThinkingTold> = if state.thinking_closed {
        seq![ThinkingTold::Signed { signature: "erased"@ }]
    } else {
        seq![]
    };
    begins + ends
}

/// Whether what was told before and since is what a converter has told of the thinking, and it
/// has begun if any came.
spec fn thinks(prior: Seq<ThinkingTold>, run: Sent, reasoned: bool) -> bool {
    &&& prior + thinking_log(run.events) == told_of(run.state)
    &&& all_start_empty(run.events)
    &&& run.state.thinking_started == reasoned
    &&& run.state.thinking_closed ==> run.state.thinking_started
}

/// A step that says nothing of the thinking.
proof fn lemma_step(prior: Seq<ThinkingTold>, run: Sent, after: Sent, reasoned: bool)
    requires
        thinks(prior, run, reasoned),
        adds_quietly(run.events, after.events),
        after.state.thinking_started == run.state.thinking_started,
        after.state.thinking_closed == run.state.thinking_closed,
    ensures
        thinks(prior, after, reasoned),
{
    lemma_quiet(run.events, after.events);
}

proof fn lemma_thinking(prior: Seq<ThinkingTold>, run: Sent, text: Option<String>, reasoned: bool)
    requires
        thinks(prior, run, reasoned),
    ensures
        thinks(
            prior,
            on_thinking(run, text),
            reasoned || (text matches Some(thinking) && thinking@.len() > 0),
        ),
{
    let after = on_thinking(run, text);
    if text is Some && text->0@.len() > 0 && !run.state.thinking_started {
        let first = run.events.push(after.events[run.events.len() as int]);
        let begins = ThinkingTold::Begins { thinking: seq![], signature: seq![] };
        assert(first.drop_last() =~= run.events);
        assert(thinking_log(first) =~= thinking_log(run.events).push(begins));
        assert forall|k: int| 0 <= k < first.len() implies starts_empty(#[trigger] first[k]) by {
            if k < run.events.len() {
                assert(first[k] == run.events[k]);
            }
        }
        assert(adds_quietly(first, after.events));
        lemma_quiet(first, after.events);
        assert(told_of(run.state) =~= seq![]);
        assert(prior + thinking_log(run.events).push(begins) =~= (prior + thinking_log(
            run.events,
        )).push(begins));
        assert(told_of(after.state) =~= seq![begins]);
    } else {
        assert(adds_quietly(run.events, after.events));
        lemma_step(prior, run, after, reasoned);
    }
}

proof fn lemma_closed(prior: Seq<ThinkingTold>, run: Sent, reasoned: bool)
    requires
        thinks(prior, run, reasoned),
    ensures
        thinks(prior, close_thinking(run), reasoned),
        close_thinking(run).state.thinking_closed == reasoned,
{
    let after = close_thinking(run);
    if run.state.thinking_started && !run.state.thinking_closed {
        let signed = ThinkingTold::Signed { signature: "erased"@ };
        let first = after.events.drop_last();
        assert(first.drop_last() =~= run.events);
        assert(thinking_log(first) =~= thinking_log(run.events).push(signed));
        assert(thinking_log(after.events) =~= thinking_log(first));
        assert forall|k: int| 0 <= k < after.events.len() implies starts_empty(
            #[trigger] after.events[k],
        ) by {
            if k < run.events.len() {
                assert(after.events[k] == run.events[k]);
            }
        }
        assert(prior + thinking_log(run.events).push(signed) =~= (prior + thinking_log(
            run.events,
        )).push(signed));
        assert(told_of(after.state) =~= told_of(run.state).push(signed));
    }
}

proof fn lemma_texts_are_quiet(run: Sent, texts: Seq<Seq<char>>, from: int)
    ensures
        adds_quietly(run.events, add_texts(run, texts, from).events),
    decreases texts.len() - from,
{
    if 0 <= from < texts.len() {
        let next = add_text(run, texts[from]);
        assert(adds_quietly(run.events, next.events));
        lemma_texts_are_quiet(next, texts, from + 1);
    }
}

proof fn lemma_flushed(prior: Seq<ThinkingTold>, run: Sent, reasoned: bool)
    requires
        thinks(prior, run, reasoned),
    ensures
        thinks(prior, flush(run), reasoned),
{
    let emptied = in_state(run, MessageState { pending: seq![], ..run.state });
    lemma_add_texts(emptied, run.state.pending, 0);
    lemma_texts_are_quiet(emptied, run.state.pending, 0);
    lemma_step(prior, run, flush(run), reasoned);
}

proof fn lemma_pieces(
    prior: Seq<ThinkingTold>,
    run: Sent,
    pieces: Seq<ChatCompletionMessageToolCallChunk>,
    from: int,
    ids: Seq<Seq<char>>,
    reasoned: bool,
)
    requires
        thinks(prior, run, reasoned),
    ensures
        thinks(prior, on_pieces(run, pieces, from, ids), reasoned),
    decreases pieces.len() - from,
{
    if 0 <= from < pieces.len() {
        let complete = parsed_json(arguments_with(run.state, pieces[from])) is Some;
        let next = on_piece(run, pieces[from], ids[from], complete);
        lemma_reserve_tools(run.state, (pieces[from].index + 1) as nat);
        assert(adds_quietly(run.events, next.events));
        lemma_step(prior, run, next, reasoned);
        lemma_pieces(prior, next, pieces, from + 1, ids, reasoned);
    }
}

proof fn lemma_choice(
    prior: Seq<ThinkingTold>,
    run: Sent,
    choice: ChatChoiceStream,
    ids: Seq<Seq<char>>,
    reasoned: bool,
)
    requires
        thinks(prior, run, reasoned),
    ensures
        thinks(
            prior,
            on_message_choice(run, choice, ids),
            reasoned || reasoning_in(choice).len() > 0,
        ),
{
    let now = reasoned || reasoning_in(choice).len() > 0;
    let finished = with_finish(run, choice);
    let text = delta_text(choice.delta.content);
    let thought = on_thinking(finished, choice.delta.reasoning_content);
    let texted = on_message_text(thought, text);
    let called = on_tools(texted, choice.delta.tool_calls, ids);
    assert(adds_quietly(run.events, finished.events));
    lemma_step(prior, run, finished, reasoned);
    lemma_thinking(prior, finished, choice.delta.reasoning_content, reasoned);
    if text.len() > 0 {
        let closed = close_thinking(thought);
        lemma_closed(prior, thought, now);
        assert(adds_quietly(closed.events, texted.events));
        lemma_step(prior, closed, texted, now);
    }
    if let Some(pieces) = choice.delta.tool_calls {
        let closed = close_thinking(texted);
        let quiet = close_text(closed);
        lemma_closed(prior, texted, now);
        assert(adds_quietly(closed.events, quiet.events));
        lemma_step(prior, closed, quiet, now);
        lemma_pieces(prior, quiet, pieces@, 0, ids, now);
    }
    lemma_flushed(prior, called, now);
}

proof fn lemma_choices(
    prior: Seq<ThinkingTold>,
    run: Sent,
    before: Seq<Said>,
    said: Seq<Said>,
    choices: Seq<ChatChoiceStream>,
    from: int,
    ids: Seq<Seq<Seq<char>>>,
)
    requires
        0 <= from <= choices.len(),
        said.len() == choices.len(),
        forall|c: int|
            0 <= c < choices.len() ==> (#[trigger] said[c]) == (Said {
                choice: choices[c],
                ids: ids[c],
            }),
        thinks(prior, run, whole_reasoning(before + said.take(from)).len() > 0),
    ensures
        thinks(
            prior,
            on_message_choices(run, choices, from, ids),
            whole_reasoning(before + said).len() > 0,
        ),
    decreases choices.len() - from,
{
    if from < choices.len() {
        let next = on_message_choice(run, choices[from], ids[from]);
        let sofar = before + said.take(from);
        let all = before + said.take(from + 1);
        assert(said[from] == Said { choice: choices[from], ids: ids[from] });
        assert(all.drop_last() =~= sofar);
        assert(all.last() == said[from]);
        lemma_choice(
            prior,
            run,
            choices[from],
            ids[from],
            whole_reasoning(sofar).len() > 0,
        );
        lemma_choices(prior, next, before, said, choices, from + 1, ids);
    } else {
        assert(said.take(from) =~= said);
    }
}

proof fn lemma_told_on(
    first: Seq<AnthropicStreamEventView>,
    second: Seq<AnthropicStreamEventView>,
)
    ensures
        thinking_log(first + second) == thinking_log(first) + thinking_log(second),
        all_start_empty(first) && all_start_empty(second) ==> all_start_empty(first + second),
    decreases second.len(),
{
    if second.len() > 0 {
        lemma_told_on(first, second.drop_last());
        assert((first + second).drop_last() =~= first + second.drop_last());
        assert((first + second).last() == second.last());
        assert(thinking_log(first + second) =~= thinking_log(first) + thinking_log(second));
    } else {
        assert(first + second =~= first);
        assert(thinking_log(first) + thinking_log(second) =~= thinking_log(first));
    }
    if all_start_empty(first) && all_start_empty(second) {
        assert forall|k: int| 0 <= k < (first + second).len() implies starts_empty(
            #[trigger] (first + second)[k],
        ) by {
            if k < first.len() {
                assert((first + second)[k] == first[k]);
            } else {
                assert((first + second)[k] == second[k - first.len()]);
            }
        }
    }
}

proof fn lemma_chunks(state: MessageState, turns: Seq<MessageTurn>)
    requires
        is_fresh(state),
    ensures
        thinks(
            seq![],
            after_chunks(state, turns),
            whole_reasoning(all_said(turns)).len() > 0,
        ),
    decreases turns.len(),
{
    let none = Seq::<ThinkingTold>::empty();
    let sent = after_chunks(state, turns);
    if turns.len() > 0 {
        let rest = turns.drop_last();
        let turn = turns.last();
        let before = after_chunks(state, rest);
        let chunk = after_message_chunk(before.state, turn.chunk, turn.ids);
        let head = with_chunk_head(before.state, turn.chunk);
        let now = said_by(turn);
        let prior = thinking_log(before.events);
        let reasoned = whole_reasoning(all_said(rest)).len() > 0;
        lemma_chunks(state, rest);
        assert(none + prior =~= prior + thinking_log(Seq::empty()));
        assert(thinks(prior, Sent { state: before.state, events: seq![] }, reasoned));
        assert(adds_quietly(Seq::empty(), head.events));
        lemma_step(prior, Sent { state: before.state, events: seq![] }, head, reasoned);
        assert(now.take(0) =~= Seq::empty());
        assert(all_said(rest) + now.take(0) =~= all_said(rest));
        lemma_choices(prior, head, all_said(rest), now, turn.chunk.inner.choices@, 0, turn.ids);
        lemma_told_on(before.events, chunk.events);
        assert(none + thinking_log(sent.events) =~= thinking_log(sent.events));
    } else {
        assert(none + thinking_log(sent.events) =~= none);
        assert(told_of(sent.state) =~= none);
    }
}

proof fn lemma_tools_close_quietly(run: Sent, from: int)
    ensures
        adds_quietly(run.events, close_tools(run, from).events),
    decreases run.state.tools.len() - from,
{
    if 0 <= from < run.state.tools.len() {
        let tool = run.state.tools[from];
        let closed = if tool.is_open() {
            send(
                in_state(run, with_tool(run.state, from, ToolState { stopped: true, ..tool })),
                block_stop(tool.block_index),
            )
        } else {
            run
        };
        assert(adds_quietly(run.events, closed.events));
        lemma_tools_close_quietly(closed, from + 1);
    }
}

/// Every block of a stream starts empty. There is one thinking block if any reasoning came, and
/// it is signed once, with a placeholder; there is none otherwise.
pub proof fn law_thinking_is_signed_once(state: MessageState, turns: Seq<MessageTurn>)
    requires
        is_fresh(state),
    ensures
        ({
            let whole = whole_message(state, turns);
            &&& all_start_empty(whole.events)
            &&& thinking_log(whole.events) == if whole_reasoning(all_said(turns)).len() > 0 {
                seq![
                    ThinkingTold::Begins { thinking: seq![], signature: seq![] },
                    ThinkingTold::Signed { signature: "erased"@ },
                ]
            } else {
                seq![]
            }
        }),
{
    let before = after_chunks(state, turns);
    let reasoned = whole_reasoning(all_said(turns)).len() > 0;
    let none = Seq::<ThinkingTold>::empty();
    let prior = thinking_log(before.events);
    let run = Sent { state: before.state, events: seq![] };
    let head = open_stream(run, 0);
    let thought = close_thinking(head);
    let tooled = close_tools(thought, 0);
    let flushed = flush(tooled);
    let closed = close_text(flushed);
    let end = after_message_end(before.state);
    lemma_chunks(state, turns);
    assert(none + prior =~= prior + thinking_log(run.events));
    assert(thinks(prior, run, reasoned));
    assert(adds_quietly(run.events, head.events));
    lemma_step(prior, run, head, reasoned);
    lemma_closed(prior, head, reasoned);
    lemma_tools_close_quietly(thought, 0);
    lemma_close_tools(thought, 0);
    lemma_step(prior, thought, tooled, reasoned);
    lemma_flushed(prior, tooled, reasoned);
    let emptied = in_state(tooled, MessageState { pending: seq![], ..tooled.state });
    lemma_add_texts(emptied, tooled.state.pending, 0);
    assert(adds_quietly(flushed.events, closed.events));
    lemma_step(prior, flushed, closed, reasoned);
    assert(adds_quietly(closed.events, end.events));
    lemma_step(prior, closed, end, reasoned);
    lemma_told_on(before.events, end.events);
    assert(end.state.thinking_closed == reasoned);
    assert(told_of(end.state) =~= if reasoned {
        seq![
            ThinkingTold::Begins { thinking: seq![], signature: seq![] },
            ThinkingTold::Signed { signature: "erased"@ },
        ]
    } else {
        seq![]
    });
}

} // verus!
