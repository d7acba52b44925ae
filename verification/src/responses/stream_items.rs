//! The output that a response has at any time.
//!
//! A listener takes note of every item that is announced and of every delta, and of nothing
//! else. The laws here say that it can follow every stream, and that the output of the
//! converter is at any time what the listener has noted.

use vstd::prelude::*;

use crate::chat::{
    ChatChoiceStream, ChatCompletionMessageToolCallChunk, NvCreateChatCompletionStreamResponse,
};
use crate::responses::stream::{
    after_chunk, after_start, close_call, close_calls, close_reasoning, delta_arguments, delta_text,
    emit, named_call, on_arguments, on_choice, on_choices, on_reasoning, on_text, on_tool_call,
    on_tool_calls, on_tool_delta, open_message, open_reasoning, reserve_calls, summary_delta,
    with_call, with_state, CallState, Emitted, StreamState,
};
use crate::responses::stream_laws::{
    law_chunks_keep_indices_distinct, lemma_choice_wf, lemma_choices_grow, lemma_close_calls_grow,
    lemma_reserve_calls, lemma_tool_call_wf, lemma_tool_calls_grow, lemma_tool_delta_grows,
};
use crate::responses::stream_order::{has_started, item_id_of, with_counts, with_limit};
use crate::responses::stream_output::{entries_of, entry_of, Entry};
use crate::responses::stream_run::{is_fresh, stream_so_far, with_chunks, Turn};
use crate::responses::types::{
    OutputItemView, OutputStatus, ResponseEventPayloadView, ResponseStreamEventView,
};

verus! {

/// The items with more text in one of them, or `None` where there is no such item.
pub open spec fn noted_delta(
    items: Map<u32, Entry>,
    index: u32,
    id: Seq<char>,
    delta: Seq<char>,
) -> Option<Map<u32, Entry>> {
    if items.dom().contains(index) && items[index].id == id {
        Some(items.insert(index, Entry { id, text: items[index].text + delta }))
    } else {
        None
    }
}

/// The items after one more event, or `None` where an item is announced under an index that
/// another has, or a delta is of no item that was announced.
pub open spec fn noted(
    items: Map<u32, Entry>,
    payload: ResponseEventPayloadView,
) -> Option<Map<u32, Entry>> {
    match payload {
        ResponseEventPayloadView::ResponseOutputItemAdded { output_index, item } => {
            if items.dom().contains(output_index) {
                None
            } else {
                Some(items.insert(output_index, Entry { id: item_id_of(item), text: seq![] }))
            }
        },
        ResponseEventPayloadView::ResponseReasoningSummaryTextDelta {
            item_id,
            output_index,
            delta,
            ..
        } => noted_delta(items, output_index, item_id, delta),
        ResponseEventPayloadView::ResponseOutputTextDelta { item_id, output_index, delta, .. } =>
        noted_delta(items, output_index, item_id, delta),
        ResponseEventPayloadView::ResponseFunctionCallArgumentsDelta {
            item_id,
            output_index,
            delta,
        } => noted_delta(items, output_index, item_id, delta),
        _ => Some(items),
    }
}

/// The items after the events.
pub open spec fn noted_all(
    items: Map<u32, Entry>,
    events: Seq<ResponseStreamEventView>,
) -> Option<Map<u32, Entry>>
    decreases events.len(),
{
    if events.len() == 0 {
        Some(items)
    } else {
        match noted_all(items, events.drop_last()) {
            Some(before) => noted(before, events.last().payload),
            None => None,
        }
    }
}

/// The items below an index, in the order of their indices.
pub open spec fn noted_below(items: Map<u32, Entry>, end: nat) -> Seq<Entry>
    decreases end,
{
    if end == 0 {
        seq![]
    } else {
        let before = noted_below(items, (end - 1) as nat);
        let index = (end - 1) as u32;
        if items.dom().contains(index) {
            before.push(items[index])
        } else {
            before
        }
    }
}

/// Whether the items hold one of the given content at `index`.
pub open spec fn holds_entry(
    items: Map<u32, Entry>,
    index: nat,
    id: Seq<char>,
    text: Seq<char>,
) -> bool {
    items.dom().contains(index as u32) && items[index as u32] == (Entry { id, text })
}

/// Whether the items hold a call as a converter does.
pub open spec fn holds_call(items: Map<u32, Entry>, call: CallState) -> bool {
    if call.started {
        holds_entry(items, call.output_index, call.item_id, call.arguments)
    } else {
        &&& !items.dom().contains(call.output_index as u32)
        &&& call.arguments.len() == 0
    }
}

/// Whether the items are those that a converter holds.
pub open spec fn holds_items(items: Map<u32, Entry>, state: StreamState) -> bool {
    &&& forall|index: u32| #[trigger]
        items.dom().contains(index) ==> index < state.next_output_index && has_started(
            state,
            index as nat,
        )
    &&& state.reasoning_started ==> holds_entry(
        items,
        state.reasoning_output_index,
        state.reasoning_item_id,
        state.reasoning,
    )
    &&& state.message_started ==> holds_entry(
        items,
        state.message_output_index,
        state.message_item_id,
        state.text,
    )
    &&& !state.message_started ==> state.text.len() == 0
    &&& !state.reasoning_started ==> state.reasoning.len() == 0
    &&& forall|j: int|
        0 <= j < state.calls.len() ==> (#[trigger] holds_call(items, state.calls[j]))
}

/// Whether a listener that starts with `items` can follow what was emitted, and then has noted
/// what the converter holds.
spec fn followed(items: Map<u32, Entry>, run: Emitted) -> bool {
    noted_all(items, run.events) matches Some(after) && holds_items(after, run.state)
}

/// What such a listener has noted.
spec fn heard(items: Map<u32, Entry>, run: Emitted) -> Map<u32, Entry> {
    noted_all(items, run.events)->0
}

proof fn lemma_emit(items: Map<u32, Entry>, run: Emitted, payload: ResponseEventPayloadView)
    requires
        noted_all(items, run.events) is Some,
    ensures
        noted_all(items, emit(run, payload).events) == noted(heard(items, run), payload),
{
    assert(emit(run, payload).events.drop_last() =~= run.events);
}

/// The same items stand for a state that differs in nothing that a listener notes.
proof fn lemma_same_items(items: Map<u32, Entry>, before: StreamState, after: StreamState)
    requires
        holds_items(items, before),
        before.next_output_index <= after.next_output_index,
        before.reasoning_started == after.reasoning_started,
        before.reasoning_output_index == after.reasoning_output_index,
        before.reasoning_item_id == after.reasoning_item_id,
        before.reasoning == after.reasoning,
        before.message_started == after.message_started,
        before.message_output_index == after.message_output_index,
        before.message_item_id == after.message_item_id,
        before.text == after.text,
        before.calls.len() <= after.calls.len(),
        forall|j: int|
            0 <= j < before.calls.len() ==> {
                &&& (#[trigger] after.calls[j]).started == before.calls[j].started
                &&& after.calls[j].output_index == before.calls[j].output_index
                &&& after.calls[j].item_id == before.calls[j].item_id
                &&& after.calls[j].arguments == before.calls[j].arguments
            },
        forall|j: int|
            before.calls.len() <= j < after.calls.len() ==> holds_call(
                items,
                #[trigger] after.calls[j],
            ),
    ensures
        holds_items(items, after),
{
    lemma_started(before, after);
    assert forall|j: int| 0 <= j < after.calls.len() implies (#[trigger] holds_call(
        items,
        after.calls[j],
    )) by {
        if j < before.calls.len() {
            assert(holds_call(items, before.calls[j]));
        }
    }
}

/// What has started stays started.
proof fn lemma_started(before: StreamState, after: StreamState)
    requires
        before.reasoning_started ==> after.reasoning_started && after.reasoning_output_index
            == before.reasoning_output_index,
        before.message_started ==> after.message_started && after.message_output_index
            == before.message_output_index,
        before.calls.len() <= after.calls.len(),
        forall|j: int|
            0 <= j < before.calls.len() && before.calls[j].started ==> {
                &&& (#[trigger] after.calls[j]).started
                &&& after.calls[j].output_index == before.calls[j].output_index
            },
    ensures
        forall|index: nat| #[trigger] has_started(before, index) ==> has_started(after, index),
{
    assert forall|index: nat| #[trigger] has_started(before, index) implies has_started(
        after,
        index,
    ) by {
        if exists|j: int| before.is_started_call(j, index) {
            let j = choose|j: int| before.is_started_call(j, index);
            assert(after.calls[j].started);
            assert(after.is_started_call(j, index));
        }
    }
}

/// The calls are untouched by an entry under an index that none of them has.
proof fn lemma_calls_kept(
    before: Map<u32, Entry>,
    after: Map<u32, Entry>,
    state: StreamState,
    index: nat,
)
    requires
        state.fits(),
        index <= u32::MAX,
        after.dom() == before.dom().insert(index as u32),
        forall|k: u32|
            k != index as u32 && before.dom().contains(k) ==> #[trigger] after[k] == before[k],
        forall|j: int|
            0 <= j < state.calls.len() ==> {
                &&& (#[trigger] state.calls[j]).output_index < state.next_output_index
                &&& state.calls[j].output_index != index
            },
        forall|j: int|
            0 <= j < state.calls.len() ==> (#[trigger] holds_call(before, state.calls[j])),
    ensures
        forall|j: int|
            0 <= j < state.calls.len() ==> (#[trigger] holds_call(after, state.calls[j])),
{
    assert forall|j: int| 0 <= j < state.calls.len() implies (#[trigger] holds_call(
        after,
        state.calls[j],
    )) by {
        assert(holds_call(before, state.calls[j]));
        let k = state.calls[j].output_index as u32;
        if state.calls[j].started {
            assert(after[k] == before[k]);
        }
    }
}

proof fn lemma_open_reasoning(items: Map<u32, Entry>, run: Emitted)
    requires
        followed(items, run),
        run.state.wf(),
        open_reasoning(run).state.fits(),
    ensures
        followed(items, open_reasoning(run)),
{
    let state = run.state;
    if !state.reasoning_started {
        let index = state.next_output_index;
        let opened = with_state(
            run,
            StreamState {
                reasoning_started: true,
                reasoning_output_index: index,
                next_output_index: index + 1,
                ..state
            },
        );
        let after = open_reasoning(run);
        let added = Emitted {
            state: StreamState { sequence_number: state.sequence_number + 1, ..opened.state },
            events: after.events.drop_last(),
        };
        assert(added.events =~= run.events.push(added.events.last()));
        lemma_emit(items, opened, added.events.last().payload);
        assert(added == emit(opened, added.events.last().payload));
        lemma_emit(items, added, after.events.last().payload);
        assert(after == emit(added, after.events.last().payload));
        lemma_started(state, after.state);
        assert(state.reasoning =~= seq![]);
        lemma_calls_kept(heard(items, run), heard(items, after), after.state, index);
    }
}

proof fn lemma_summary_delta(items: Map<u32, Entry>, run: Emitted, delta: Seq<char>)
    requires
        followed(items, run),
        run.state.wf(),
        run.state.reasoning_started,
        summary_delta(run, delta).state.fits(),
    ensures
        followed(items, summary_delta(run, delta)),
{
    let after = summary_delta(run, delta);
    let told = with_state(
        run,
        StreamState { reasoning: run.state.reasoning + delta, ..run.state },
    );
    lemma_emit(items, told, after.events.last().payload);
    lemma_started(run.state, after.state);
    lemma_calls_kept(
        heard(items, run),
        heard(items, after),
        after.state,
        run.state.reasoning_output_index,
    );
}

proof fn lemma_reasoning(items: Map<u32, Entry>, run: Emitted, text: Option<String>)
    requires
        followed(items, run),
        run.state.wf(),
        on_reasoning(run, text).state.fits(),
    ensures
        followed(items, on_reasoning(run, text)),
        on_reasoning(run, text).state.wf(),
{
    if let Some(delta) = text {
        if delta@.len() > 0 && !run.state.reasoning_done && run.state.params.wants_summary() {
            let opened = open_reasoning(run);
            lemma_open_reasoning(items, run);
            assert(opened.state.wf());
            lemma_summary_delta(items, opened, delta@);
        }
    }
}

proof fn lemma_reasoning_closed(items: Map<u32, Entry>, run: Emitted, status: OutputStatus)
    requires
        followed(items, run),
        run.state.wf(),
        close_reasoning(run, status).state.fits(),
    ensures
        followed(items, close_reasoning(run, status)),
        close_reasoning(run, status).state.wf(),
{
    let state = run.state;
    let after = close_reasoning(run, status);
    if state.reasoning_started && !state.reasoning_done {
        let closed = with_state(
            run,
            StreamState { reasoning_done: true, reasoning_status: Some(status), ..state },
        );
        let longer = status == OutputStatus::Incomplete && state.reasoning.len() > 0;
        let ended = if longer {
            summary_delta(closed, "..."@)
        } else {
            closed
        };
        lemma_same_items(heard(items, run), state, closed.state);
        assert(closed.state.wf());
        if longer {
            lemma_summary_delta(items, closed, "..."@);
        }
        assert(followed(items, ended));
        let part_done = Emitted { state: ended.state, events: after.events.drop_last() };
        let text_done = Emitted { state: ended.state, events: part_done.events.drop_last() };
        assert(text_done.events.drop_last() =~= ended.events);
        assert(noted_all(items, text_done.events) == Some(heard(items, ended)));
        assert(noted_all(items, part_done.events) == Some(heard(items, ended)));
        assert(noted_all(items, after.events) == Some(heard(items, ended)));
        lemma_same_items(heard(items, ended), ended.state, after.state);
    } else {
        lemma_same_items(heard(items, run), state, after.state);
    }
}

proof fn lemma_open_message(items: Map<u32, Entry>, run: Emitted)
    requires
        followed(items, run),
        run.state.wf(),
        open_message(run).state.fits(),
    ensures
        followed(items, open_message(run)),
{
    let state = run.state;
    if !state.message_started {
        let index = state.next_output_index;
        let opened = with_state(
            run,
            StreamState {
                message_started: true,
                message_output_index: index,
                next_output_index: index + 1,
                ..state
            },
        );
        let after = open_message(run);
        let added = Emitted {
            state: StreamState { sequence_number: state.sequence_number + 1, ..opened.state },
            events: after.events.drop_last(),
        };
        assert(added.events =~= run.events.push(added.events.last()));
        lemma_emit(items, opened, added.events.last().payload);
        assert(added == emit(opened, added.events.last().payload));
        lemma_emit(items, added, after.events.last().payload);
        assert(after == emit(added, after.events.last().payload));
        lemma_started(state, after.state);
        assert(state.text =~= seq![]);
        lemma_calls_kept(heard(items, run), heard(items, after), after.state, index);
    }
}

proof fn lemma_text(items: Map<u32, Entry>, run: Emitted, delta: Seq<char>)
    requires
        followed(items, run),
        run.state.wf(),
        on_text(run, delta).state.fits(),
    ensures
        followed(items, on_text(run, delta)),
        on_text(run, delta).state.wf(),
{
    if delta.len() > 0 {
        let closed = close_reasoning(run, OutputStatus::Completed);
        let opened = open_message(closed);
        let after = on_text(run, delta);
        let told = with_state(
            opened,
            StreamState { text: opened.state.text + delta, ..opened.state },
        );
        lemma_reasoning_closed(items, run, OutputStatus::Completed);
        lemma_open_message(items, closed);
        assert(opened.state.wf());
        lemma_emit(items, told, after.events.last().payload);
        lemma_started(opened.state, after.state);
        lemma_calls_kept(
            heard(items, opened),
            heard(items, after),
            after.state,
            opened.state.message_output_index,
        );
    }
}

/// One call changes, and with it the entry under its index.
proof fn lemma_call_changed(
    before: Map<u32, Entry>,
    after: Map<u32, Entry>,
    state: StreamState,
    j: int,
    call: CallState,
)
    requires
        state.wf(),
        holds_items(before, state),
        0 <= j < state.calls.len(),
        call.started,
        call.output_index == state.calls[j].output_index,
        after == before.insert(
            call.output_index as u32,
            Entry { id: call.item_id, text: call.arguments },
        ),
    ensures
        holds_items(after, with_call(state, j, call)),
{
    let changed = with_call(state, j, call);
    lemma_started(state, changed);
    assert(changed.is_started_call(j, call.output_index));
    assert forall|k: int| 0 <= k < changed.calls.len() implies (#[trigger] holds_call(
        after,
        changed.calls[k],
    )) by {
        assert(holds_call(before, state.calls[k]));
    }
}

proof fn lemma_arguments(items: Map<u32, Entry>, run: Emitted, j: int, delta: Seq<char>)
    requires
        followed(items, run),
        run.state.wf(),
        0 <= j < run.state.calls.len(),
        on_arguments(run, j, delta).state.fits(),
    ensures
        followed(items, on_arguments(run, j, delta)),
{
    let state = run.state;
    let call = state.calls[j];
    let begun = CallState { started: true, ..call };
    let announced = if call.started {
        run
    } else {
        emit(
            with_state(run, with_call(state, j, begun)),
            ResponseEventPayloadView::ResponseOutputItemAdded {
                output_index: call.output_index as u32,
                item: with_call(state, j, begun).call_item(call, seq![], OutputStatus::InProgress),
            },
        )
    };
    assert(holds_call(heard(items, run), call));
    if !call.started {
        lemma_emit(
            items,
            with_state(run, with_call(state, j, begun)),
            announced.events.last().payload,
        );
        assert(call.arguments =~= seq![]);
        lemma_call_changed(heard(items, run), heard(items, announced), state, j, begun);
        lemma_same_items(
            heard(items, announced),
            with_call(state, j, begun),
            announced.state,
        );
    }
    assert(followed(items, announced));
    assert(announced.state.wf());
    let open = announced.state.calls[j];
    assert(holds_call(heard(items, announced), open));
    let longer = CallState { arguments: open.arguments + delta, ..open };
    let told = with_state(announced, with_call(announced.state, j, longer));
    let after = on_arguments(run, j, delta);
    lemma_emit(items, told, after.events.last().payload);
    lemma_call_changed(
        heard(items, announced),
        heard(items, after),
        announced.state,
        j,
        longer,
    );
    lemma_same_items(heard(items, after), told.state, after.state);
}

proof fn lemma_tool_call(
    items: Map<u32, Entry>,
    run: Emitted,
    chunk: ChatCompletionMessageToolCallChunk,
    ids: Seq<Seq<char>>,
    base: nat,
)
    requires
        followed(items, run),
        run.state.wf(),
        on_tool_call(run, chunk, ids, base).state.fits(),
    ensures
        followed(items, on_tool_call(run, chunk, ids, base)),
{
    let state = run.state;
    let j = chunk.index as int;
    let reserved = reserve_calls(state, (chunk.index + 1) as nat, ids, base);
    lemma_reserve_calls(state, (chunk.index + 1) as nat, ids, base);
    let named = with_call(reserved, j, named_call(reserved.calls[j], chunk.id, chunk.function));
    let known = heard(items, run);
    assert forall|k: int| state.calls.len() <= k < named.calls.len() implies holds_call(
        known,
        #[trigger] named.calls[k],
    ) by {
        assert(reserved.calls[k].output_index >= state.next_output_index);
    }
    assert forall|k: int| 0 <= k < state.calls.len() implies {
        &&& (#[trigger] named.calls[k]).started == state.calls[k].started
        &&& named.calls[k].output_index == state.calls[k].output_index
        &&& named.calls[k].item_id == state.calls[k].item_id
        &&& named.calls[k].arguments == state.calls[k].arguments
    } by {
        assert(reserved.calls[k] == state.calls[k]);
    }
    lemma_same_items(known, state, named);
    assert(named.wf());
    if let Some(delta) = delta_arguments(chunk.function) {
        lemma_arguments(items, with_state(run, named), j, delta@);
    }
}

proof fn lemma_tool_calls(
    items: Map<u32, Entry>,
    run: Emitted,
    chunks: Seq<ChatCompletionMessageToolCallChunk>,
    from: int,
    ids: Seq<Seq<char>>,
    base: nat,
)
    requires
        0 <= from,
        followed(items, run),
        run.state.wf(),
        on_tool_calls(run, chunks, from, ids, base).state.fits(),
    ensures
        followed(items, on_tool_calls(run, chunks, from, ids, base)),
    decreases chunks.len() - from,
{
    if from < chunks.len() {
        let next = on_tool_call(run, chunks[from], ids, base);
        lemma_tool_calls_grow(next, chunks, from + 1, ids, base);
        lemma_tool_call_wf(run, chunks[from], ids, base);
        lemma_tool_call(items, run, chunks[from], ids, base);
        lemma_tool_calls(items, next, chunks, from + 1, ids, base);
    }
}

proof fn lemma_calls_closed(items: Map<u32, Entry>, run: Emitted, from: int)
    requires
        0 <= from,
        followed(items, run),
    ensures
        followed(items, close_calls(run, from)),
    decreases run.state.calls.len() - from,
{
    if from < run.state.calls.len() {
        let call = run.state.calls[from];
        let next = close_call(run, from);
        if call.started && !call.done {
            let spelled = Emitted { state: run.state, events: next.events.drop_last() };
            assert(spelled.events.drop_last() =~= run.events);
            assert(noted_all(items, spelled.events) == Some(heard(items, run)));
            assert(noted_all(items, next.events) == Some(heard(items, run)));
            lemma_same_items(heard(items, run), run.state, next.state);
        }
        lemma_calls_closed(items, next, from + 1);
    }
}

proof fn lemma_choice(
    items: Map<u32, Entry>,
    run: Emitted,
    choice: ChatChoiceStream,
    ids: Seq<Seq<char>>,
    base: nat,
)
    requires
        followed(items, run),
        run.state.wf(),
        on_choice(run, choice, ids, base).state.fits(),
    ensures
        followed(items, on_choice(run, choice, ids, base)),
{
    let limited = with_limit(run, choice);
    let reasoned = on_reasoning(limited, choice.delta.reasoning_content);
    let texted = on_text(reasoned, delta_text(choice.delta.content));
    let called = on_tool_delta(texted, choice.delta.tool_calls, ids, base);
    lemma_tool_delta_grows(texted, choice.delta.tool_calls, ids, base);
    lemma_close_calls_grow(called, 0);
    lemma_same_items(heard(items, run), run.state, limited.state);
    assert(limited.state.wf());
    lemma_reasoning(items, limited, choice.delta.reasoning_content);
    lemma_text(items, reasoned, delta_text(choice.delta.content));
    if let Some(all) = choice.delta.tool_calls {
        if all@.len() > 0 {
            let closed = close_reasoning(texted, OutputStatus::Completed);
            lemma_tool_calls_grow(closed, all@, 0, ids, base);
            lemma_reasoning_closed(items, texted, OutputStatus::Completed);
            lemma_tool_calls(items, closed, all@, 0, ids, base);
        }
    }
    if choice.finish_reason is Some {
        lemma_calls_closed(items, called, 0);
    }
}

proof fn lemma_choices(
    items: Map<u32, Entry>,
    run: Emitted,
    choices: Seq<ChatChoiceStream>,
    from: int,
    ids: Seq<Seq<char>>,
    base: nat,
)
    requires
        0 <= from,
        followed(items, run),
        run.state.wf(),
        on_choices(run, choices, from, ids, base).state.fits(),
    ensures
        followed(items, on_choices(run, choices, from, ids, base)),
    decreases choices.len() - from,
{
    if from < choices.len() {
        let next = on_choice(run, choices[from], ids, base);
        lemma_choices_grow(next, choices, from + 1, ids, base);
        lemma_choice_wf(run, choices[from], ids, base);
        lemma_choice(items, run, choices[from], ids, base);
        lemma_choices(items, next, choices, from + 1, ids, base);
    }
}

/// A listener that has noted what a converter holds can follow every chunk, and has then noted
/// what the converter holds.
pub proof fn law_chunks_can_be_followed(
    items: Map<u32, Entry>,
    state: StreamState,
    chunk: NvCreateChatCompletionStreamResponse,
    ids: Seq<Seq<char>>,
)
    requires
        state.wf(),
        holds_items(items, state),
        after_chunk(state, chunk, ids).state.fits(),
    ensures
        ({
            let sent = after_chunk(state, chunk, ids);
            noted_all(items, sent.events) matches Some(after) && holds_items(after, sent.state)
        }),
{
    let run = Emitted { state: with_counts(state, chunk), events: seq![] };
    lemma_same_items(items, state, run.state);
    assert(run.state.wf());
    lemma_choices(items, run, chunk.inner.choices@, 0, ids, state.calls.len());
}

proof fn lemma_noted_on(
    items: Map<u32, Entry>,
    first: Seq<ResponseStreamEventView>,
    second: Seq<ResponseStreamEventView>,
)
    requires
        noted_all(items, first) is Some,
    ensures
        noted_all(items, first + second) == noted_all(noted_all(items, first)->0, second),
    decreases second.len(),
{
    if second.len() > 0 {
        lemma_noted_on(items, first, second.drop_last());
        assert((first + second).drop_last() =~= first + second.drop_last());
    } else {
        assert(first + second =~= first);
    }
}

proof fn lemma_output_is_noted(
    items: Map<u32, Entry>,
    state: StreamState,
    end: nat,
    status: OutputStatus,
)
    requires
        state.wf(),
        holds_items(items, state),
        end <= state.next_output_index,
    ensures
        entries_of(state.output_below(end, status)) == noted_below(items, end),
        forall|i: int|
            0 <= i < state.output_below(end, status).len() ==> has_status(
                #[trigger] state.output_below(end, status)[i],
                status,
            ),
    decreases end,
{
    if end > 0 {
        let last = (end - 1) as nat;
        lemma_output_is_noted(items, state, last, status);
        let before = state.output_below(last, status);
        match state.item_at(last, status) {
            Some(item) => {
                assert(has_started(state, last));
                if exists|j: int| state.is_started_call(j, last) {
                    let j = choose|j: int| state.is_started_call(j, last);
                    assert(holds_call(items, state.calls[j]));
                }
                assert(entries_of(before.push(item)) =~= entries_of(before).push(entry_of(item)));
            },
            None => {
                if items.dom().contains(last as u32) {
                    assert(has_started(state, last));
                }
            },
        }
    }
}

/// Whether a message or a call has the given status.
pub open spec fn has_status(item: OutputItemView, status: OutputStatus) -> bool {
    match item {
        OutputItemView::Message(message) => message.status == status,
        OutputItemView::FunctionCall(call) => call.status == Some(status),
        OutputItemView::Reasoning(_) => true,
    }
}

proof fn lemma_chunks_followed(items: Map<u32, Entry>, run: Emitted, turns: Seq<Turn>)
    requires
        followed(items, run),
        run.state.wf(),
        with_chunks(run, turns).state.fits(),
    ensures
        followed(items, with_chunks(run, turns)),
        with_chunks(run, turns).state.wf(),
    decreases turns.len(),
{
    if turns.len() > 0 {
        let before = with_chunks(run, turns.drop_last());
        let turn = turns.last();
        let sent = after_chunk(before.state, turn.chunk, turn.ids);
        lemma_choices_grow(
            Emitted { state: with_counts(before.state, turn.chunk), events: seq![] },
            turn.chunk.inner.choices@,
            0,
            turn.ids,
            before.state.calls.len(),
        );
        lemma_chunks_followed(items, run, turns.drop_last());
        law_chunks_can_be_followed(heard(items, before), before.state, turn.chunk, turn.ids);
        law_chunks_keep_indices_distinct(before.state, turn.chunk, turn.ids);
        lemma_noted_on(items, before.events, sent.events);
    }
}

/// At any time of a stream the output has one item for each that was announced, in the order
/// of the indices: under its id, and with all of its deltas joined. No two were announced under
/// one index. Messages and calls have the status that is asked for.
pub proof fn law_output_is_what_was_sent(
    state: StreamState,
    turns: Seq<Turn>,
    started: u64,
    status: OutputStatus,
)
    requires
        is_fresh(state),
        stream_so_far(state, turns, started).state.fits(),
    ensures
        ({
            let sent = stream_so_far(state, turns, started);
            let output = sent.state.output(status);
            &&& noted_all(Map::empty(), sent.events) matches Some(items) && {
                &&& entries_of(output) == noted_below(items, sent.state.next_output_index)
                &&& forall|index: u32| #[trigger]
                    items.dom().contains(index) ==> index < sent.state.next_output_index
            }
            &&& forall|i: int|
                0 <= i < output.len() ==> has_status(#[trigger] output[i], status)
        }),
{
    let none = Map::<u32, Entry>::empty();
    let begun = after_start(state, started);
    let created = begun.events.drop_last();
    assert(created.drop_last() =~= seq![]);
    assert(noted_all(none, created.drop_last()) == Some(none));
    assert(noted_all(none, created) == Some(none));
    assert(noted_all(none, begun.events) == Some(none));
    lemma_chunks_followed(none, begun, turns);
    let sent = stream_so_far(state, turns, started);
    lemma_output_is_noted(
        heard(none, sent),
        sent.state,
        sent.state.next_output_index,
        status,
    );
}

} // verus!
