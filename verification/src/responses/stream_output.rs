//! The output that the terminal event of a response carries.
//!
//! A client that has read the stream needs nothing of the terminal event: the output of the
//! response in it lists the items that the client has put together, in the order of their
//! indices, each with its id and its text.

use vstd::prelude::*;

use crate::responses::stream::{
    after_end, after_error, close_calls, close_message, close_reasoning, is_truncation_error,
    BackendError, Emitted, StreamState,
};
use crate::responses::stream_laws::{lemma_close_calls_grow, lemma_close_calls_wf};
use crate::responses::stream_order::{
    call_in_step, has_items, has_started, in_step, item_id_of, law_errors_end_in_order,
    law_streams_end_in_order, lemma_items_kept, read_all, Item, Reader,
};
use crate::responses::types::{
    OutputItemView, OutputMessageContentView, OutputStatus, ResponseEventPayloadView,
    ResponseView, SummaryPartView,
};

verus! {

/// The id and the text, the summary or the arguments of an item.
#[verifier::ext_equal]
pub struct Entry {
    pub id: Seq<char>,
    pub text: Seq<char>,
}

/// What an output item says.
pub open spec fn entry_of(item: OutputItemView) -> Entry {
    Entry {
        id: item_id_of(item),
        text: match item {
            OutputItemView::Message(message) => match message.content[0] {
                OutputMessageContentView::OutputText(content) => content.text,
                OutputMessageContentView::Refusal(refusal) => refusal,
            },
            OutputItemView::Reasoning(reasoning) => match reasoning.summary[0] {
                SummaryPartView::SummaryText(content) => content.text,
            },
            OutputItemView::FunctionCall(call) => call.arguments,
        },
    }
}

/// What the items of an output say.
pub open spec fn entries_of(output: Seq<OutputItemView>) -> Seq<Entry> {
    output.map_values(|item: OutputItemView| entry_of(item))
}

/// What a client has put together of the items below an index, in the order of the indices.
pub open spec fn read_entries(items: Map<u32, Item>, end: nat) -> Seq<Entry>
    decreases end,
{
    if end == 0 {
        seq![]
    } else {
        let before = read_entries(items, (end - 1) as nat);
        let index = (end - 1) as u32;
        if items.dom().contains(index) {
            before.push(Entry { id: items[index].id, text: items[index].text })
        } else {
            before
        }
    }
}

/// The response that a terminal event carries.
pub open spec fn carried(payload: ResponseEventPayloadView) -> Option<ResponseView> {
    match payload {
        ResponseEventPayloadView::ResponseCompleted { response } => Some(response),
        ResponseEventPayloadView::ResponseIncomplete { response } => Some(response),
        ResponseEventPayloadView::ResponseFailed { response } => Some(response),
        _ => None,
    }
}

proof fn lemma_output_is_read(
    items: Map<u32, Item>,
    state: StreamState,
    told: bool,
    end: nat,
    status: OutputStatus,
)
    requires
        state.wf(),
        has_items(items, state, told),
        end <= state.next_output_index,
    ensures
        entries_of(state.output_below(end, status)) == read_entries(items, end),
    decreases end,
{
    if end > 0 {
        let last = (end - 1) as nat;
        lemma_output_is_read(items, state, told, last, status);
        let before = state.output_below(last, status);
        match state.item_at(last, status) {
            Some(item) => {
                assert(has_started(state, last));
                if exists|j: int| state.is_started_call(j, last) {
                    let j = choose|j: int| state.is_started_call(j, last);
                    assert(call_in_step(items, state.calls[j]));
                }
                assert(entries_of(before.push(item)) =~= entries_of(before).push(entry_of(item)));
            },
            None => {
                if items.dom().contains(last as u32) {
                    assert(has_started(state, last));
                }
            },
        }
    }
}

/// The response at the end of a stream lists exactly the items that a client has read, in
/// order and with their text.
pub proof fn law_final_output_is_what_was_read(reader: Reader, state: StreamState, now: u64)
    requires
        state.wf(),
        in_step(reader, state),
        after_end(state, now).state.fits(),
    ensures
        read_all(reader, after_end(state, now).events) matches Some(after) && (carried(
            after_end(state, now).events.last().payload,
        ) matches Some(response) && {
            &&& entries_of(response.output) == read_entries(
                after.items,
                state.next_output_index,
            )
            &&& forall|index: u32| #[trigger]
                after.items.dom().contains(index) ==> index < state.next_output_index
        }),
{
    law_streams_end_in_order(reader, state, now);
    let sent = after_end(state, now);
    let after = read_all(reader, sent.events)->0;
    let run = Emitted { state, events: seq![] };
    let messaged = close_message(close_reasoning(run, state.output_status()));
    let closed = close_calls(messaged, 0).state;
    lemma_close_calls_grow(messaged, 0);
    lemma_close_calls_wf(messaged, 0);
    lemma_items_kept(after.items, sent.state, closed, true);
    lemma_output_is_read(
        after.items,
        closed,
        true,
        closed.next_output_index,
        closed.output_status(),
    );
}

/// The response of a stream that failed lists exactly the items that a client has read, in
/// order and with their text so far.
pub proof fn law_partial_output_is_what_was_read(
    reader: Reader,
    state: StreamState,
    error: Option<BackendError>,
    now: u64,
)
    requires
        state.wf(),
        in_step(reader, state),
        after_error(state, error, now).state.fits(),
    ensures
        read_all(reader, after_error(state, error, now).events) matches Some(after) && (carried(
            after_error(state, error, now).events.last().payload,
        ) matches Some(response) && entries_of(response.output) == read_entries(
            after.items,
            state.next_output_index,
        )),
{
    law_errors_end_in_order(reader, state, error, now);
    if is_truncation_error(error) {
        let cut = StreamState { output_limit_reached: true, ..state };
        lemma_items_kept(reader.items, state, cut, false);
        law_final_output_is_what_was_read(reader, cut, now);
    } else {
        let sent = after_error(state, error, now);
        let after = read_all(reader, sent.events)->0;
        lemma_items_kept(after.items, sent.state, state, false);
        lemma_output_is_read(
            after.items,
            state,
            false,
            state.next_output_index,
            OutputStatus::Incomplete,
        );
    }
}

} // verus!
