//! What a stream tells of its calls as it goes on, in terms of the chunks that came.
//!
//! A call is announced with its first arguments and told as done when a choice finishes, or at
//! the end of the stream. Each time it is told as what its pieces have brought by then.

use vstd::prelude::*;

use crate::chat::{ChatChoiceStream, ChatCompletionMessageToolCallChunk};
use crate::responses::stream::{
    after_chunk, after_end, close_call, close_calls, close_message, close_reasoning, delta_text,
    on_choice, on_choices, on_reasoning, on_text, on_tool_call, on_tool_calls, on_tool_delta,
    reserve_calls, Emitted, StreamState,
};
use crate::responses::stream_laws::lemma_reserve_calls;
use crate::responses::stream_meaning::{
    all_arguments, all_pieces, arguments_in, brings, call_count, call_stands, calls_stand,
    choices_of, lemma_absent, lemma_choice_stands, lemma_piece_stands, lemma_pieces_keep_words,
    lemma_pieces_stand, lemma_stream_stands, pieces_in, same_words, status_after, to_tell, told_by,
    words_stand, CallTold,
};
use crate::responses::stream_order::{with_counts, with_limit};
use crate::responses::stream_run::{is_fresh, stream_so_far, whole_stream, Turn};
use crate::responses::types::{
    OutputItemView, OutputStatus, ResponseEventPayloadView, ResponseStreamEventView, ToolView,
};

verus! {

/// The calls that events announce, in their order.
pub open spec fn announced(events: Seq<ResponseStreamEventView>) -> Seq<CallTold>
    decreases events.len(),
{
    if events.len() == 0 {
        seq![]
    } else {
        match events.last().payload {
            ResponseEventPayloadView::ResponseOutputItemAdded {
                item: OutputItemView::FunctionCall(call),
                ..
            } => announced(events.drop_last()).push(told_by(call)),
            _ => announced(events.drop_last()),
        }
    }
}

/// The calls that are to be announced: each with its first arguments, by the id and the name
/// that its pieces have brought by then.
pub open spec fn to_announce(
    tools: Option<Seq<ToolView>>,
    pieces: Seq<ChatCompletionMessageToolCallChunk>,
) -> Seq<CallTold>
    decreases pieces.len(),
{
    if pieces.len() == 0 {
        seq![]
    } else {
        let before = to_announce(tools, pieces.drop_last());
        let j = pieces.last().index as int;
        if arguments_in(pieces.last()) is Some && !brings(pieces.drop_last(), j) {
            before.push(to_tell(tools, pieces, j, seq![], OutputStatus::InProgress))
        } else {
            before
        }
    }
}

/// The calls that events tell as done, in their order.
pub open spec fn done_calls(events: Seq<ResponseStreamEventView>) -> Seq<CallTold>
    decreases events.len(),
{
    if events.len() == 0 {
        seq![]
    } else {
        match events.last().payload {
            ResponseEventPayloadView::ResponseOutputItemDone {
                item: OutputItemView::FunctionCall(call),
                ..
            } => done_calls(events.drop_last()).push(told_by(call)),
            _ => done_calls(events.drop_last()),
        }
    }
}

/// The names and the arguments of the calls whose arguments events tell as done.
pub open spec fn done_arguments(events: Seq<ResponseStreamEventView>) -> Seq<
    (Option<Seq<char>>, Seq<char>),
>
    decreases events.len(),
{
    if events.len() == 0 {
        seq![]
    } else {
        match events.last().payload {
            ResponseEventPayloadView::ResponseFunctionCallArgumentsDone {
                name,
                arguments,
                ..
            } => done_arguments(events.drop_last()).push((name, arguments)),
            _ => done_arguments(events.drop_last()),
        }
    }
}

/// The names and the arguments of calls.
pub open spec fn names_and_arguments(calls: Seq<CallTold>) -> Seq<
    (Option<Seq<char>>, Seq<char>),
> {
    calls.map_values(|call: CallTold| (Some(call.name), call.arguments))
}

/// Whether call `j` had brought arguments when some choice finished.
pub open spec fn was_done(choices: Seq<ChatChoiceStream>, j: int) -> bool
    decreases choices.len(),
{
    choices.len() > 0 && (was_done(choices.drop_last(), j) || (choices.last().finish_reason is Some
        && brings(all_pieces(choices), j)))
}

/// The calls below `count` that have brought arguments, but had not when a choice of `before`
/// finished.
pub open spec fn closing(
    tools: Option<Seq<ToolView>>,
    before: Seq<ChatChoiceStream>,
    pieces: Seq<ChatCompletionMessageToolCallChunk>,
    count: nat,
    status: OutputStatus,
) -> Seq<CallTold>
    decreases count,
{
    if count == 0 {
        seq![]
    } else {
        let j = count - 1;
        let rest = closing(tools, before, pieces, j as nat, status);
        if brings(pieces, j) && !was_done(before, j) {
            rest.push(to_tell(tools, pieces, j, all_arguments(pieces, j), status))
        } else {
            rest
        }
    }
}

/// The calls that are to be told as done: whenever a choice finishes, those that are open.
pub open spec fn to_close(
    tools: Option<Seq<ToolView>>,
    choices: Seq<ChatChoiceStream>,
) -> Seq<CallTold>
    decreases choices.len(),
{
    if choices.len() == 0 {
        seq![]
    } else {
        let before = to_close(tools, choices.drop_last());
        let pieces = all_pieces(choices);
        if choices.last().finish_reason is Some {
            before + closing(
                tools,
                choices.drop_last(),
                pieces,
                call_count(pieces),
                status_after(choices),
            )
        } else {
            before
        }
    }
}

/// Whether an event announces no call and tells none as done.
spec fn is_quiet(payload: ResponseEventPayloadView) -> bool {
    match payload {
        ResponseEventPayloadView::ResponseOutputItemAdded { item, .. } => !(item is FunctionCall),
        ResponseEventPayloadView::ResponseOutputItemDone { item, .. } => !(item is FunctionCall),
        ResponseEventPayloadView::ResponseFunctionCallArgumentsDone { .. } => false,
        _ => true,
    }
}

/// Whether events go on with quiet ones.
spec fn adds_quietly(
    before: Seq<ResponseStreamEventView>,
    after: Seq<ResponseStreamEventView>,
) -> bool {
    &&& before.len() <= after.len()
    &&& forall|k: int| 0 <= k < before.len() ==> #[trigger] after[k] == before[k]
    &&& forall|k: int|
        before.len() <= k < after.len() ==> is_quiet((#[trigger] after[k]).payload)
}

proof fn lemma_quiet(
    before: Seq<ResponseStreamEventView>,
    after: Seq<ResponseStreamEventView>,
)
    requires
        adds_quietly(before, after),
    ensures
        announced(after) == announced(before),
        done_calls(after) == done_calls(before),
        done_arguments(after) == done_arguments(before),
    decreases after.len(),
{
    if after.len() > before.len() {
        assert(is_quiet(after[after.len() - 1].payload));
        lemma_quiet(before, after.drop_last());
    } else {
        assert(after =~= before);
    }
}

proof fn lemma_ends_are_quiet(run: Emitted, status: OutputStatus)
    ensures
        adds_quietly(run.events, close_reasoning(run, status).events),
        adds_quietly(run.events, close_message(run).events),
{
}

proof fn lemma_words_are_quiet(run: Emitted, choice: ChatChoiceStream)
    ensures
        ({
            let limited = with_limit(run, choice);
            let reasoned = on_reasoning(limited, choice.delta.reasoning_content);
            let texted = on_text(reasoned, delta_text(choice.delta.content));
            &&& adds_quietly(run.events, reasoned.events)
            &&& adds_quietly(reasoned.events, texted.events)
        }),
{
    let reasoned = on_reasoning(with_limit(run, choice), choice.delta.reasoning_content);
    let closed = close_reasoning(reasoned, OutputStatus::Completed);
    lemma_ends_are_quiet(reasoned, OutputStatus::Completed);
    assert(adds_quietly(reasoned.events, closed.events));
}

/// A piece announces its call if it brings the first arguments.
proof fn lemma_piece_told(
    prior: Seq<CallTold>,
    run: Emitted,
    pieces: Seq<ChatCompletionMessageToolCallChunk>,
    piece: ChatCompletionMessageToolCallChunk,
    ids: Seq<Seq<char>>,
    base: nat,
)
    requires
        calls_stand(run.state, pieces),
        prior + announced(run.events) == to_announce(run.state.params.tools.deep_view(), pieces),
    ensures
        ({
            let after = on_tool_call(run, piece, ids, base);
            &&& prior + announced(after.events) == to_announce(
                run.state.params.tools.deep_view(),
                pieces.push(piece),
            )
            &&& done_calls(after.events) == done_calls(run.events)
            &&& done_arguments(after.events) == done_arguments(run.events)
        }),
{
    let tools = run.state.params.tools.deep_view();
    let all = pieces.push(piece);
    let j = piece.index as int;
    let after = on_tool_call(run, piece, ids, base);
    lemma_piece_stands(run, pieces, piece, ids, base);
    lemma_reserve_calls(run.state, (piece.index + 1) as nat, ids, base);
    assert(call_stands(after.state.calls[j], all, j));
    assert(all.drop_last() =~= pieces);
    let reserved = reserve_calls(run.state, (piece.index + 1) as nat, ids, base);
    if j < run.state.calls.len() {
        assert(call_stands(run.state.calls[j], pieces, j));
        assert(reserved.calls[j] == run.state.calls[j]);
    } else {
        lemma_absent(pieces, j);
    }
    if arguments_in(piece) is Some {
        let told = after.events.drop_last();
        if brings(pieces, j) {
            assert(told =~= run.events);
        } else {
            assert(told.drop_last() =~= run.events);
            let call = to_tell(tools, all, j, seq![], OutputStatus::InProgress);
            assert(announced(told) == announced(run.events).push(call));
            assert(prior + announced(told) =~= (prior + announced(run.events)).push(call));
        }
        assert(done_calls(told) == done_calls(run.events));
        assert(done_arguments(told) == done_arguments(run.events));
        assert(announced(after.events) == announced(told));
        assert(done_calls(after.events) == done_calls(told));
    } else {
        assert(after.events == run.events);
    }
}

proof fn lemma_pieces_told(
    prior: Seq<CallTold>,
    run: Emitted,
    pieces: Seq<ChatCompletionMessageToolCallChunk>,
    chunks: Seq<ChatCompletionMessageToolCallChunk>,
    from: int,
    ids: Seq<Seq<char>>,
    base: nat,
)
    requires
        0 <= from <= chunks.len(),
        calls_stand(run.state, pieces + chunks.take(from)),
        prior + announced(run.events) == to_announce(
            run.state.params.tools.deep_view(),
            pieces + chunks.take(from),
        ),
    ensures
        ({
            let after = on_tool_calls(run, chunks, from, ids, base);
            &&& prior + announced(after.events) == to_announce(
                run.state.params.tools.deep_view(),
                pieces + chunks,
            )
            &&& done_calls(after.events) == done_calls(run.events)
            &&& done_arguments(after.events) == done_arguments(run.events)
        }),
    decreases chunks.len() - from,
{
    if from < chunks.len() {
        let next = on_tool_call(run, chunks[from], ids, base);
        lemma_piece_told(prior, run, pieces + chunks.take(from), chunks[from], ids, base);
        lemma_piece_stands(run, pieces + chunks.take(from), chunks[from], ids, base);
        lemma_reserve_calls(run.state, (chunks[from].index + 1) as nat, ids, base);
        assert(next.state.params == run.state.params);
        assert((pieces + chunks.take(from)).push(chunks[from]) =~= pieces + chunks.take(from + 1));
        lemma_pieces_told(prior, next, pieces, chunks, from + 1, ids, base);
    } else {
        assert(chunks.take(from) =~= chunks);
    }
}

/// Whether the calls of a converter have been told as done where a choice finished after they
/// had brought arguments.
spec fn dones_stand(state: StreamState, choices: Seq<ChatChoiceStream>) -> bool {
    forall|j: int|
        0 <= j < state.calls.len() ==> (#[trigger] state.calls[j]).done == was_done(choices, j)
}

proof fn lemma_brings_more(
    pieces: Seq<ChatCompletionMessageToolCallChunk>,
    more: Seq<ChatCompletionMessageToolCallChunk>,
    j: int,
)
    requires
        brings(pieces, j),
    ensures
        brings(pieces + more, j),
{
    let k = choose|k: int|
        0 <= k < pieces.len() && (#[trigger] pieces[k]).index == j && arguments_in(pieces[k])
            is Some;
    assert((pieces + more)[k] == pieces[k]);
}

proof fn lemma_done_brings(choices: Seq<ChatChoiceStream>, j: int)
    requires
        was_done(choices, j),
    ensures
        brings(all_pieces(choices), j),
    decreases choices.len(),
{
    if was_done(choices.drop_last(), j) {
        lemma_done_brings(choices.drop_last(), j);
        lemma_brings_more(all_pieces(choices.drop_last()), pieces_in(choices.last()), j);
    }
}

proof fn lemma_pieces_keep_dones(
    run: Emitted,
    choices: Seq<ChatChoiceStream>,
    chunks: Seq<ChatCompletionMessageToolCallChunk>,
    from: int,
    ids: Seq<Seq<char>>,
    base: nat,
)
    requires
        dones_stand(run.state, choices),
        run.state.calls.len() >= call_count(all_pieces(choices)),
    ensures
        dones_stand(on_tool_calls(run, chunks, from, ids, base).state, choices),
    decreases chunks.len() - from,
{
    if 0 <= from < chunks.len() {
        let count = (chunks[from].index + 1) as nat;
        let next = on_tool_call(run, chunks[from], ids, base);
        let reserved = reserve_calls(run.state, count, ids, base);
        lemma_reserve_calls(run.state, count, ids, base);
        assert forall|j: int| 0 <= j < next.state.calls.len() implies (
        #[trigger] next.state.calls[j]).done == was_done(choices, j) by {
            assert(next.state.calls[j].done == reserved.calls[j].done);
            if j < run.state.calls.len() {
                assert(reserved.calls[j] == run.state.calls[j]);
            } else {
                lemma_absent(all_pieces(choices), j);
                if was_done(choices, j) {
                    lemma_done_brings(choices, j);
                }
            }
        }
        lemma_pieces_keep_dones(next, choices, chunks, from + 1, ids, base);
    }
}

/// What holds while the calls are closed one after the other.
spec fn closed_below(
    prior: Seq<CallTold>,
    run: Emitted,
    before: Seq<ChatChoiceStream>,
    pieces: Seq<ChatCompletionMessageToolCallChunk>,
    from: int,
) -> bool {
    &&& calls_stand(run.state, pieces)
    &&& forall|j: int|
        0 <= j < run.state.calls.len() ==> (#[trigger] run.state.calls[j]).done == (was_done(
            before,
            j,
        ) || (j < from && brings(pieces, j)))
    &&& done_calls(run.events) == prior + closing(
        run.state.params.tools.deep_view(),
        before,
        pieces,
        from as nat,
        run.state.output_status(),
    )
    &&& done_arguments(run.events) == names_and_arguments(done_calls(run.events))
}

proof fn lemma_call_closed(
    prior: Seq<CallTold>,
    run: Emitted,
    before: Seq<ChatChoiceStream>,
    pieces: Seq<ChatCompletionMessageToolCallChunk>,
    from: int,
)
    requires
        0 <= from < run.state.calls.len(),
        closed_below(prior, run, before, pieces, from),
    ensures
        closed_below(prior, close_call(run, from), before, pieces, from + 1),
        announced(close_call(run, from).events) == announced(run.events),
        same_words(run.state, close_call(run, from).state),
{
    let next = close_call(run, from);
    let call = run.state.calls[from];
    let tools = run.state.params.tools.deep_view();
    let status = run.state.output_status();
    assert(call_stands(call, pieces, from));
    assert forall|j: int| 0 <= j < next.state.calls.len() implies call_stands(
        #[trigger] next.state.calls[j],
        pieces,
        j,
    ) by {
        assert(call_stands(run.state.calls[j], pieces, j));
    }
    if call.started && !call.done {
        let told = to_tell(tools, pieces, from, all_arguments(pieces, from), status);
        let arguments_done = next.events.drop_last();
        assert(arguments_done.drop_last() =~= run.events);
        assert(done_calls(arguments_done) == done_calls(run.events));
        assert(announced(arguments_done) == announced(run.events));
        assert(done_arguments(arguments_done) == done_arguments(run.events).push(
            (Some(told.name), told.arguments),
        ));
        assert(done_calls(next.events) == done_calls(run.events).push(told));
        assert(done_arguments(next.events) == done_arguments(arguments_done));
        let sofar = closing(tools, before, pieces, from as nat, status);
        assert(prior + sofar.push(told) =~= (prior + sofar).push(told));
        assert(names_and_arguments(done_calls(run.events).push(told)) =~= names_and_arguments(
            done_calls(run.events),
        ).push((Some(told.name), told.arguments)));
    }
}

proof fn lemma_calls_closed(
    prior: Seq<CallTold>,
    run: Emitted,
    before: Seq<ChatChoiceStream>,
    pieces: Seq<ChatCompletionMessageToolCallChunk>,
    from: int,
)
    requires
        0 <= from <= run.state.calls.len(),
        closed_below(prior, run, before, pieces, from),
    ensures
        ({
            let after = close_calls(run, from);
            &&& closed_below(prior, after, before, pieces, after.state.calls.len() as int)
            &&& announced(after.events) == announced(run.events)
            &&& same_words(run.state, after.state)
        }),
    decreases run.state.calls.len() - from,
{
    if from < run.state.calls.len() {
        lemma_call_closed(prior, run, before, pieces, from);
        lemma_calls_closed(prior, close_call(run, from), before, pieces, from + 1);
    }
}

/// Whether what was told before and what a converter has emitted is what was to be told.
spec fn told_so_far(
    announcements: Seq<CallTold>,
    endings: Seq<CallTold>,
    run: Emitted,
    choices: Seq<ChatChoiceStream>,
) -> bool {
    let tools = run.state.params.tools.deep_view();
    &&& calls_stand(run.state, all_pieces(choices))
    &&& words_stand(run.state, choices)
    &&& dones_stand(run.state, choices)
    &&& announcements + announced(run.events) == to_announce(tools, all_pieces(choices))
    &&& endings + done_calls(run.events) == to_close(tools, choices)
    &&& done_arguments(run.events) == names_and_arguments(done_calls(run.events))
}

proof fn lemma_choice_told(
    announcements: Seq<CallTold>,
    endings: Seq<CallTold>,
    run: Emitted,
    choices: Seq<ChatChoiceStream>,
    choice: ChatChoiceStream,
    ids: Seq<Seq<char>>,
    base: nat,
)
    requires
        told_so_far(announcements, endings, run, choices),
    ensures
        told_so_far(
            announcements,
            endings,
            on_choice(run, choice, ids, base),
            choices.push(choice),
        ),
        on_choice(run, choice, ids, base).state.params == run.state.params,
{
    let all = choices.push(choice);
    let pieces = all_pieces(choices);
    let more = pieces_in(choice);
    assert(all.drop_last() =~= choices);
    let limited = with_limit(run, choice);
    let reasoned = on_reasoning(limited, choice.delta.reasoning_content);
    let texted = on_text(reasoned, delta_text(choice.delta.content));
    let called = on_tool_delta(texted, choice.delta.tool_calls, ids, base);
    let after = on_choice(run, choice, ids, base);
    lemma_choice_stands(run, choices, choice, ids, base);
    lemma_words_are_quiet(run, choice);
    lemma_quiet(run.events, reasoned.events);
    lemma_quiet(reasoned.events, texted.events);
    assert(texted.state.calls == run.state.calls);
    assert(texted.state.params == run.state.params);
    if more.len() > 0 {
        let closed = close_reasoning(texted, OutputStatus::Completed);
        lemma_ends_are_quiet(texted, OutputStatus::Completed);
        lemma_quiet(texted.events, closed.events);
        assert(more.take(0) =~= Seq::empty());
        assert(pieces + more.take(0) =~= pieces);
        assert(dones_stand(closed.state, choices));
        lemma_pieces_told(announcements, closed, pieces, more, 0, ids, base);
        lemma_pieces_stand(closed, pieces, more, 0, ids, base);
        lemma_pieces_keep_dones(closed, choices, more, 0, ids, base);
        lemma_pieces_keep_words(closed, more, 0, ids, base);
        assert(called == on_tool_calls(closed, more, 0, ids, base));
    } else {
        assert(pieces + more =~= pieces);
        assert(called == texted);
    }
    assert(all_pieces(all) == pieces + more);
    assert(called.state.params == run.state.params);
    assert(dones_stand(called.state, choices));
    assert(done_calls(called.events) == done_calls(run.events));
    if choice.finish_reason is Some {
        let prior = done_calls(called.events);
        let tools = run.state.params.tools.deep_view();
        let status = called.state.output_status();
        assert(prior + closing(tools, choices, all_pieces(all), 0, status) =~= prior);
        assert(calls_stand(called.state, all_pieces(all)));
        lemma_calls_closed(prior, called, choices, all_pieces(all), 0);
        assert(status == status_after(all));
        let now = closing(
            tools,
            choices,
            all_pieces(all),
            call_count(all_pieces(all)),
            status,
        );
        assert(done_calls(after.events) == prior + now);
        assert(endings + (prior + now) =~= (endings + prior) + now);
        assert(dones_stand(after.state, all));
    } else {
        assert(dones_stand(after.state, all));
    }
}

proof fn lemma_choices_told(
    announcements: Seq<CallTold>,
    endings: Seq<CallTold>,
    run: Emitted,
    before: Seq<ChatChoiceStream>,
    choices: Seq<ChatChoiceStream>,
    from: int,
    ids: Seq<Seq<char>>,
    base: nat,
)
    requires
        0 <= from <= choices.len(),
        told_so_far(announcements, endings, run, before + choices.take(from)),
    ensures
        told_so_far(
            announcements,
            endings,
            on_choices(run, choices, from, ids, base),
            before + choices,
        ),
        on_choices(run, choices, from, ids, base).state.params == run.state.params,
    decreases choices.len() - from,
{
    if from < choices.len() {
        let next = on_choice(run, choices[from], ids, base);
        lemma_choice_told(
            announcements,
            endings,
            run,
            before + choices.take(from),
            choices[from],
            ids,
            base,
        );
        assert((before + choices.take(from)).push(choices[from]) =~= before + choices.take(
            from + 1,
        ));
        lemma_choices_told(announcements, endings, next, before, choices, from + 1, ids, base);
    } else {
        assert(choices.take(from) =~= choices);
    }
}

proof fn lemma_told_on(
    first: Seq<ResponseStreamEventView>,
    second: Seq<ResponseStreamEventView>,
)
    ensures
        announced(first + second) == announced(first) + announced(second),
        done_calls(first + second) == done_calls(first) + done_calls(second),
        done_arguments(first + second) == done_arguments(first) + done_arguments(second),
    decreases second.len(),
{
    if second.len() > 0 {
        lemma_told_on(first, second.drop_last());
        assert((first + second).drop_last() =~= first + second.drop_last());
        assert((first + second).last() == second.last());
    } else {
        assert(first + second =~= first);
    }
}

proof fn lemma_stream_told(state: StreamState, turns: Seq<Turn>, started: u64)
    requires
        is_fresh(state),
    ensures
        told_so_far(
            seq![],
            seq![],
            stream_so_far(state, turns, started),
            choices_of(turns),
        ),
        stream_so_far(state, turns, started).state.params == state.params,
    decreases turns.len(),
{
    let sent = stream_so_far(state, turns, started);
    if turns.len() > 0 {
        let rest = turns.drop_last();
        let turn = turns.last();
        let before = stream_so_far(state, rest, started);
        let choices = turn.chunk.inner.choices@;
        lemma_stream_told(state, rest, started);
        let announcements = announced(before.events);
        let endings = done_calls(before.events);
        let run = Emitted { state: with_counts(before.state, turn.chunk), events: seq![] };
        let chunk = after_chunk(before.state, turn.chunk, turn.ids);
        assert(Seq::<CallTold>::empty() + announcements =~= announcements);
        assert(Seq::<CallTold>::empty() + endings =~= endings);
        assert(announcements + announced(run.events) =~= announcements);
        assert(endings + done_calls(run.events) =~= endings);
        assert(names_and_arguments(done_calls(run.events)) =~= done_arguments(run.events));
        assert(choices.take(0) =~= Seq::empty());
        assert(choices_of(rest) + choices.take(0) =~= choices_of(rest));
        lemma_choices_told(
            announcements,
            endings,
            run,
            choices_of(rest),
            choices,
            0,
            turn.ids,
            before.state.calls.len(),
        );
        lemma_told_on(before.events, chunk.events);
        assert(Seq::<CallTold>::empty() + announced(sent.events) =~= announced(sent.events));
        assert(Seq::<CallTold>::empty() + done_calls(sent.events) =~= done_calls(sent.events));
        assert(names_and_arguments(endings + done_calls(chunk.events)) =~= names_and_arguments(
            endings,
        ) + names_and_arguments(done_calls(chunk.events)));
    } else {
        assert(adds_quietly(seq![], sent.events));
        lemma_quiet(seq![], sent.events);
        assert(names_and_arguments(done_calls(sent.events)) =~= done_arguments(sent.events));
        lemma_stream_stands(state, turns, started);
    }
}

/// A stream announces each call once, with the first arguments that come for its index: under
/// the last id and as the tool of the last name that came with the index by then. When a choice
/// finishes, each call that has arguments by then and was not told as done is told as done, with
/// what came for its index: the last id, the tool of the last name and all arguments joined.
/// Nothing else is announced or told as done.
pub proof fn law_calls_are_told_as_they_came(state: StreamState, turns: Seq<Turn>, started: u64)
    requires
        is_fresh(state),
    ensures
        ({
            let events = stream_so_far(state, turns, started).events;
            let tools = state.params.tools.deep_view();
            let choices = choices_of(turns);
            &&& announced(events) == to_announce(tools, all_pieces(choices))
            &&& done_calls(events) == to_close(tools, choices)
            &&& done_arguments(events) == names_and_arguments(done_calls(events))
        }),
{
    let events = stream_so_far(state, turns, started).events;
    lemma_stream_told(state, turns, started);
    assert(Seq::<CallTold>::empty() + announced(events) =~= announced(events));
    assert(Seq::<CallTold>::empty() + done_calls(events) =~= done_calls(events));
}

/// The end of a stream announces no call, and tells the calls that are open as done, with what
/// came for their indices.
pub proof fn law_ends_tell_calls_as_they_came(
    state: StreamState,
    turns: Seq<Turn>,
    started: u64,
    ended: u64,
)
    requires
        is_fresh(state),
    ensures
        ({
            let events = whole_stream(state, turns, started, ended).events;
            let tools = state.params.tools.deep_view();
            let choices = choices_of(turns);
            let pieces = all_pieces(choices);
            &&& announced(events) == to_announce(tools, pieces)
            &&& done_calls(events) == to_close(tools, choices) + closing(
                tools,
                choices,
                pieces,
                call_count(pieces),
                status_after(choices),
            )
            &&& done_arguments(events) == names_and_arguments(done_calls(events))
        }),
{
    let sent = stream_so_far(state, turns, started);
    let tools = state.params.tools.deep_view();
    let choices = choices_of(turns);
    let pieces = all_pieces(choices);
    let status = sent.state.output_status();
    let run = Emitted { state: sent.state, events: seq![] };
    let reasoned = close_reasoning(run, status);
    let messaged = close_message(reasoned);
    let closed = close_calls(messaged, 0);
    let end = after_end(sent.state, ended);
    law_calls_are_told_as_they_came(state, turns, started);
    lemma_stream_told(state, turns, started);
    lemma_ends_are_quiet(run, status);
    lemma_ends_are_quiet(reasoned, status);
    lemma_quiet(run.events, reasoned.events);
    lemma_quiet(reasoned.events, messaged.events);
    assert(messaged.state.calls == sent.state.calls);
    assert(calls_stand(messaged.state, pieces));
    let none = Seq::<CallTold>::empty();
    assert(none + closing(tools, choices, pieces, 0, status) =~= none);
    assert(names_and_arguments(none) =~= done_arguments(messaged.events));
    lemma_calls_closed(none, messaged, choices, pieces, 0);
    assert(adds_quietly(closed.events, end.events));
    lemma_quiet(closed.events, end.events);
    lemma_told_on(sent.events, end.events);
    let now = closing(tools, choices, pieces, call_count(pieces), status);
    assert(none + now =~= now);
    assert(announced(sent.events) + none =~= announced(sent.events));
    assert(names_and_arguments(done_calls(sent.events) + now) =~= names_and_arguments(
        done_calls(sent.events),
    ) + names_and_arguments(now));
}

} // verus!
