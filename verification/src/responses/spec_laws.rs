//! What a completed response object says, name by name, and what a failed one tells.

use vstd::prelude::*;

use crate::json::{member, JsonView};
use crate::responses::spec_fields::{
    law_one_member_is_set, lemma_nulls, patched, with_cache_writes, with_default, with_member,
    with_nulls, with_usage_details,
};
use crate::responses::stream::{
    after_end, after_error, close_call, close_calls, close_message, close_reasoning,
    is_truncation_error, reports_overflow, reports_truncation, BackendError, Emitted, StreamState,
};
use crate::responses::stream_output::carried;
use crate::responses::types::{event_type_name, OutputStatus, ResponseEventPayload, Status};
use crate::text::{ascii_lowercase, occurs, occurs_at};
use crate::text_laws::law_lowering_changes_capitals_only;

verus! {

/// Whether a name is one that is always set anew.
pub open spec fn is_set_anew(name: Seq<char>) -> bool {
    ||| name == "presence_penalty"@
    ||| name == "frequency_penalty"@
    ||| name == "store"@
    ||| name == "usage"@
    ||| name == "nvext"@
}

proof fn lemma_names_differ()
    ensures
        "presence_penalty"@.len() == 16,
        "frequency_penalty"@.len() == 17,
        "store"@.len() == 5,
        "usage"@.len() == 5,
        "nvext"@.len() == 5,
        "store"@ != "usage"@,
        "store"@ != "nvext"@,
        "usage"@ != "nvext"@,
{
    reveal_strlit("presence_penalty");
    reveal_strlit("frequency_penalty");
    reveal_strlit("store");
    reveal_strlit("usage");
    reveal_strlit("nvext");
    assert("store"@[0] != "usage"@[0]);
    assert("store"@[0] != "nvext"@[0]);
    assert("usage"@[0] != "nvext"@[0]);
}

/// A completed object says under every name what it said, null where it has to have the name
/// and had not, and nothing under any other name. The penalties and whether the response is
/// stored are those given, and so is the extra data.
pub proof fn law_completed_objects_say_what_they_said(
    members: Seq<(Seq<char>, JsonView)>,
    nullable: Seq<Seq<char>>,
    presence_penalty: JsonView,
    frequency_penalty: JsonView,
    store: bool,
    nvext: Option<JsonView>,
    name: Seq<char>,
)
    ensures
        ({
            let after = patched(
                members,
                nullable,
                presence_penalty,
                frequency_penalty,
                store,
                nvext,
            );
            &&& !is_set_anew(name) ==> member(after, name) == match member(members, name) {
                Some(value) => Some(value),
                None => if nullable.contains(name) {
                    Some(JsonView::Null)
                } else {
                    None
                },
            }
            &&& member(after, "presence_penalty"@) == Some(presence_penalty)
            &&& member(after, "frequency_penalty"@) == Some(frequency_penalty)
            &&& member(after, "store"@) == Some(JsonView::Bool(store))
            &&& nvext is Some ==> member(after, "nvext"@) == nvext
            &&& nvext is None && !nullable.contains("nvext"@) ==> member(after, "nvext"@) == member(
                members,
                "nvext"@,
            )
            &&& match member(members, "usage"@) {
                Some(usage) => member(after, "usage"@) == Some(with_usage_details(usage)),
                None => if nullable.contains("usage"@) {
                    member(after, "usage"@) == Some(JsonView::Null)
                } else {
                    member(after, "usage"@) is None
                },
            }
        }),
{
    lemma_names_differ();
    lemma_patched(members, nullable, presence_penalty, frequency_penalty, store, nvext, name);
    lemma_patched(
        members,
        nullable,
        presence_penalty,
        frequency_penalty,
        store,
        nvext,
        "presence_penalty"@,
    );
    lemma_patched(
        members,
        nullable,
        presence_penalty,
        frequency_penalty,
        store,
        nvext,
        "frequency_penalty"@,
    );
    lemma_patched(members, nullable, presence_penalty, frequency_penalty, store, nvext, "store"@);
    lemma_patched(members, nullable, presence_penalty, frequency_penalty, store, nvext, "usage"@);
    lemma_patched(members, nullable, presence_penalty, frequency_penalty, store, nvext, "nvext"@);
}

proof fn lemma_patched(
    members: Seq<(Seq<char>, JsonView)>,
    nullable: Seq<Seq<char>>,
    presence_penalty: JsonView,
    frequency_penalty: JsonView,
    store: bool,
    nvext: Option<JsonView>,
    name: Seq<char>,
)
    ensures
        ({
            let after = patched(
                members,
                nullable,
                presence_penalty,
                frequency_penalty,
                store,
                nvext,
            );
            let before = if member(members, name) is Some {
                member(members, name)
            } else if nullable.contains(name) {
                Some(JsonView::Null)
            } else {
                None
            };
            member(after, name) == if name == "nvext"@ && nvext is Some {
                nvext
            } else if name == "usage"@ {
                match before {
                    Some(usage) => Some(with_usage_details(usage)),
                    None => None,
                }
            } else if name == "store"@ {
                Some(JsonView::Bool(store))
            } else if name == "frequency_penalty"@ {
                Some(frequency_penalty)
            } else if name == "presence_penalty"@ {
                Some(presence_penalty)
            } else {
                before
            }
        }),
{
    lemma_names_differ();
    assert(nullable.take(nullable.len() as int) =~= nullable);
    let nulled = with_nulls(members, nullable, nullable.len());
    lemma_nulls(members, nullable, nullable.len(), name);
    lemma_nulls(members, nullable, nullable.len(), "usage"@);
    let first = with_member(nulled, "presence_penalty"@, presence_penalty);
    let second = with_member(first, "frequency_penalty"@, frequency_penalty);
    let third = with_member(second, "store"@, JsonView::Bool(store));
    law_one_member_is_set(nulled, "presence_penalty"@, presence_penalty, name);
    law_one_member_is_set(first, "frequency_penalty"@, frequency_penalty, name);
    law_one_member_is_set(second, "store"@, JsonView::Bool(store), name);
    law_one_member_is_set(nulled, "presence_penalty"@, presence_penalty, "usage"@);
    law_one_member_is_set(first, "frequency_penalty"@, frequency_penalty, "usage"@);
    law_one_member_is_set(second, "store"@, JsonView::Bool(store), "usage"@);
    let counted = match member(third, "usage"@) {
        Some(usage) => with_member(third, "usage"@, with_usage_details(usage)),
        None => third,
    };
    if let Some(usage) = member(third, "usage"@) {
        law_one_member_is_set(third, "usage"@, with_usage_details(usage), name);
    }
    if let Some(value) = nvext {
        law_one_member_is_set(counted, "nvext"@, value, name);
    }
}

/// Token counts whose details tell nothing of cache writes tell of none; what they tell is kept,
/// and so is everything else of them. What are no token counts is kept as it is.
pub proof fn law_token_details_tell_of_cache_writes(
    usage: Seq<(Seq<char>, JsonView)>,
    details: Seq<(Seq<char>, JsonView)>,
    other: JsonView,
    name: Seq<char>,
)
    ensures
        member(usage, "input_tokens_details"@) == Some(JsonView::Object(details)) ==> (
        with_usage_details(JsonView::Object(usage)) matches JsonView::Object(after) && {
            &&& name != "input_tokens_details"@ ==> member(after, name) == member(usage, name)
            &&& member(after, "input_tokens_details"@) matches Some(JsonView::Object(told)) && {
                &&& name != "cache_write_tokens"@ ==> member(told, name) == member(details, name)
                &&& member(told, "cache_write_tokens"@) == match member(
                    details,
                    "cache_write_tokens"@,
                ) {
                    Some(count) => Some(count),
                    None => Some(JsonView::Number("0"@)),
                }
            }
        }),
        member(usage, "input_tokens_details"@) is None ==> with_usage_details(
            JsonView::Object(usage),
        ) == JsonView::Object(usage),
        !(other is Object) ==> with_usage_details(other) == other,
{
    if member(usage, "input_tokens_details"@) == Some(JsonView::Object(details)) {
        let told = with_default(details, "cache_write_tokens"@, JsonView::Number("0"@));
        let value = with_cache_writes(JsonView::Object(details));
        law_one_member_is_set(
            details,
            "cache_write_tokens"@,
            JsonView::Number("0"@),
            "cache_write_tokens"@,
        );
        law_one_member_is_set(details, "cache_write_tokens"@, JsonView::Number("0"@), name);
        law_one_member_is_set(usage, "input_tokens_details"@, value, name);
        law_one_member_is_set(usage, "input_tokens_details"@, value, "input_tokens_details"@);
        assert(value == JsonView::Object(told));
    }
}

/// Whether a text stands in a message in whatever case its letters are: the letters of the text
/// are small, and where one stands the message has it or its capital.
pub open spec fn reads(message: Seq<char>, text: Seq<char>, at: int) -> bool {
    &&& 0 <= at
    &&& at + text.len() <= message.len()
    &&& forall|i: int|
        0 <= i < text.len() ==> {
            let c = #[trigger] message[at + i];
            c == text[i] && !('A' <= c <= 'Z') || ('A' <= c <= 'Z' && c as int + 32
                == text[i] as int)
        }
}

/// An error of a backend is a truncation, or a prompt that is too long, exactly if its message
/// says so, in whatever case.
pub proof fn law_errors_are_known_by_their_messages(message: Seq<char>)
    ensures
        reports_truncation(message) <==> exists|at: int|
            #[trigger] reads(message, "cutoff by max_tokens"@, at),
        reports_overflow(message) <==> (exists|at: int|
            #[trigger] reads(message, "exceeds the maximum allowed input length"@, at)) || (exists|
            at: int,
        |
            #[trigger] reads(message, "maximum context length"@, at)),
{
    lemma_reads(message, "cutoff by max_tokens"@);
    lemma_reads(message, "exceeds the maximum allowed input length"@);
    lemma_reads(message, "maximum context length"@);
}

proof fn lemma_reads(message: Seq<char>, text: Seq<char>)
    ensures
        occurs(ascii_lowercase(message), text) <==> exists|at: int|
            #[trigger] reads(message, text, at),
{
    let lower = ascii_lowercase(message);
    law_lowering_changes_capitals_only(message);
    assert forall|at: int| occurs_at(lower, text, at) implies #[trigger] reads(
        message,
        text,
        at,
    ) by {
        assert forall|i: int| 0 <= i < text.len() implies {
            let c = #[trigger] message[at + i];
            c == text[i] && !('A' <= c <= 'Z') || ('A' <= c <= 'Z' && c as int + 32
                == text[i] as int)
        } by {
            assert(lower.subrange(at, at + text.len())[i] == text[i]);
            assert(lower[at + i] == text[i]);
        }
    }
    assert forall|at: int| #[trigger] reads(message, text, at) implies occurs_at(
        lower,
        text,
        at,
    ) by {
        assert forall|i: int| 0 <= i < text.len() implies lower.subrange(at, at + text.len())[i]
            == text[i] by {
            let c = message[at + i];
            let d = text[i];
            assert(lower[at + i] as int == d as int);
        }
        assert(lower.subrange(at, at + text.len()) =~= text);
    }
    if occurs(lower, text) {
        let at = choose|at: int| occurs_at(lower, text, at);
        assert(reads(message, text, at));
    }
}

/// A backend error fails the response in one event, unless it is a truncation. The response has
/// the output so far and tells the error: its message, and whether it was the rate of requests,
/// the length of the prompt, or anything else. Without an error there is a message all the same.
pub proof fn law_failed_responses_tell_their_errors(
    state: StreamState,
    error: Option<BackendError>,
    now: u64,
)
    requires
        !is_truncation_error(error),
    ensures
        ({
            let events = after_error(state, error, now).events;
            &&& events.len() == 1
            &&& events[0].payload is ResponseFailed
            &&& carried(events[0].payload) matches Some(response) && {
                &&& response.status == Status::Failed
                &&& response.id == state.response_id
                &&& response.model == state.model
                &&& response.completed_at is None
                &&& response.incomplete_details is None
                &&& response.output == state.output(OutputStatus::Incomplete)
                &&& response.usage == state.usage
                &&& response.error matches Some(told) && match error {
                    Some(e) => {
                        &&& told.message == e.message@
                        &&& e.http_status == 429 ==> told.code == "rate_limit_exceeded"@
                        &&& e.http_status != 429 && reports_overflow(e.message@) ==> told.code
                            == "context_length_exceeded"@
                        &&& e.http_status != 429 && !reports_overflow(e.message@) ==> told.code
                            == "server_error"@
                    },
                    None => {
                        &&& told.code == "server_error"@
                        &&& told.message
                            == "The model backend returned an error before the response completed."@
                    },
                }
            }
        }),
{
}

/// A backend error that is a truncation ends the response as the token limit does: as one that
/// is incomplete, without an error.
pub proof fn law_truncations_end_incomplete(
    state: StreamState,
    error: BackendError,
    now: u64,
)
    requires
        reports_truncation(error.message@),
    ensures
        ({
            let events = after_error(state, Some(error), now).events;
            &&& events.len() > 0
            &&& events.last().payload is ResponseIncomplete
            &&& carried(events.last().payload) matches Some(response) && {
                &&& response.status == Status::Incomplete
                &&& response.error is None
                &&& response.completed_at is None
                &&& response.incomplete_details matches Some(details) && details.reason
                    == "max_output_tokens"@
            }
        }),
{
    let cut = StreamState { output_limit_reached: true, ..state };
    let run = Emitted { state: cut, events: seq![] };
    let messaged = close_message(close_reasoning(run, cut.output_status()));
    lemma_close_calls_keep_limit(messaged, 0);
    assert(after_error(state, Some(error), now) == after_end(cut, now));
}

proof fn lemma_close_calls_keep_limit(run: Emitted, from: int)
    ensures
        close_calls(run, from).state.output_limit_reached == run.state.output_limit_reached,
    decreases run.state.calls.len() - from,
{
    if 0 <= from < run.state.calls.len() {
        lemma_close_calls_keep_limit(close_call(run, from), from + 1);
    }
}

/// The events of a stream are sent under the names of what they tell: of the response, of an
/// item, of a part or of a text, and that it was added, goes on or is done.
pub proof fn law_events_are_named_for_what_they_tell(payload: ResponseEventPayload)
    ensures
        payload is ResponseCreated ==> event_type_name(payload) == "response.created"@,
        payload is ResponseInProgress ==> event_type_name(payload) == "response.in_progress"@,
        payload is ResponseCompleted ==> event_type_name(payload) == "response.completed"@,
        payload is ResponseFailed ==> event_type_name(payload) == "response.failed"@,
        payload is ResponseIncomplete ==> event_type_name(payload) == "response.incomplete"@,
        payload is ResponseOutputItemAdded ==> event_type_name(payload)
            == "response.output_item.added"@,
        payload is ResponseOutputItemDone ==> event_type_name(payload)
            == "response.output_item.done"@,
        payload is ResponseContentPartAdded ==> event_type_name(payload)
            == "response.content_part.added"@,
        payload is ResponseContentPartDone ==> event_type_name(payload)
            == "response.content_part.done"@,
        payload is ResponseOutputTextDelta ==> event_type_name(payload)
            == "response.output_text.delta"@,
        payload is ResponseOutputTextDone ==> event_type_name(payload)
            == "response.output_text.done"@,
        payload is ResponseFunctionCallArgumentsDelta ==> event_type_name(payload)
            == "response.function_call_arguments.delta"@,
        payload is ResponseFunctionCallArgumentsDone ==> event_type_name(payload)
            == "response.function_call_arguments.done"@,
        payload is ResponseReasoningSummaryPartAdded ==> event_type_name(payload)
            == "response.reasoning_summary_part.added"@,
        payload is ResponseReasoningSummaryPartDone ==> event_type_name(payload)
            == "response.reasoning_summary_part.done"@,
        payload is ResponseReasoningSummaryTextDelta ==> event_type_name(payload)
            == "response.reasoning_summary_text.delta"@,
        payload is ResponseReasoningSummaryTextDone ==> event_type_name(payload)
            == "response.reasoning_summary_text.done"@,
{
}

} // verus!
