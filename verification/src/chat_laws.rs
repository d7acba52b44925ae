//! How values of a chat request are read: arguments, stops, reasoning and flags.

use vstd::prelude::*;

use crate::chat::{arguments_view, is_stop, nonempty_segments, says_stop, token_id, Stop};
use crate::extensions::named_session;
use crate::json::{printed_json, JsonView};
use crate::number::parsed_u64;
use crate::request_flags::flag_of;
use crate::responses::request::{asked_annotations, NvExt};
use crate::text::decimal;
use crate::text_laws::law_written_numbers_are_read_back;

verus! {

/// The arguments of a function are a text as it stands or an object as JSON, and nothing else
/// is taken for arguments.
pub proof fn law_arguments_are_texts_or_objects(value: JsonView)
    ensures
        value matches JsonView::Str(text) ==> arguments_view(value) == Some(text),
        value is Object ==> arguments_view(value) == Some(printed_json(value)),
        arguments_view(value) is Some ==> value is Str || value is Object,
{
}

/// The segments of reasoning that hold any text are kept, in their order, and no others: what is
/// kept of two runs is what is kept of each.
pub proof fn law_segments_with_text_are_kept(first: Seq<String>, second: Seq<String>)
    ensures
        nonempty_segments(first + second) == nonempty_segments(first) + nonempty_segments(second),
        first.len() == 1 && first[0]@.len() > 0 ==> nonempty_segments(first) == seq![first[0]@],
        first.len() == 1 && first[0]@.len() == 0 ==> nonempty_segments(first).len() == 0,
        first.len() == 0 ==> nonempty_segments(first).len() == 0,
    decreases second.len(),
{
    reveal_with_fuel(nonempty_segments, 2);
    let all = first + second;
    if second.len() > 0 {
        law_segments_with_text_are_kept(first, second.drop_last());
        assert(all.drop_last() =~= first + second.drop_last());
        assert(all.last() == second.last());
        assert(nonempty_segments(all) =~= nonempty_segments(first) + nonempty_segments(second));
    } else {
        assert(all =~= first);
        assert(nonempty_segments(first) + nonempty_segments(second) =~= nonempty_segments(first));
    }
}

/// A token id is a number that its machine type holds, however it is written; no text and no
/// other value is one.
pub proof fn law_token_ids_are_small_numbers(value: JsonView, n: u64)
    ensures
        n <= u32::MAX ==> token_id(JsonView::Number(decimal(n as nat))) == Some(n as u32),
        n > u32::MAX ==> token_id(JsonView::Number(decimal(n as nat))) is None,
        token_id(value) matches Some(id) ==> (value matches JsonView::Number(text) && parsed_u64(
            text,
        ) == Some(id as u64)),
{
    law_written_numbers_are_read_back(n, seq![]);
}

/// Stops that were read are those that the value lists: one text, or every text or every token
/// id of an array in its place. An array is refused if it holds both or anything else, and so is
/// every other value.
pub proof fn law_stops_are_those_listed(stop: Stop, value: JsonView)
    ensures
        says_stop(stop, value) ==> match stop {
            Stop::String(text) => value == JsonView::Str(text@),
            Stop::StringArray(texts) => value matches JsonView::Array(items) && items.len()
                == texts@.len() && forall|i: int|
                0 <= i < items.len() ==> #[trigger] items[i] == JsonView::Str(texts@[i]@),
            Stop::TokenIdArray(ids) => value matches JsonView::Array(items) && items.len()
                == ids@.len() && items.len() > 0 && forall|i: int|
                0 <= i < items.len() ==> ((#[trigger] items[i]) matches JsonView::Number(text)
                    && parsed_u64(text) == Some(ids@[i] as u64)),
        },
        value is Str ==> is_stop(value),
        value matches JsonView::Array(items) ==> (is_stop(value) <==> (forall|i: int|
            0 <= i < items.len() ==> (#[trigger] items[i]) is Str) || (forall|i: int|
            0 <= i < items.len() ==> token_id(#[trigger] items[i]) is Some)),
        !(value is Str) && !(value is Array) ==> !is_stop(value),
{
    if says_stop(stop, value) {
        if let Stop::StringArray(texts) = stop {
            if let JsonView::Array(items) = value {
                assert forall|i: int| 0 <= i < items.len() implies #[trigger] items[i]
                    == JsonView::Str(texts@[i]@) by {}
            }
        }
        if let Stop::TokenIdArray(ids) = stop {
            if let JsonView::Array(items) = value {
                assert forall|i: int| 0 <= i < items.len() implies ((
                #[trigger] items[i]) matches JsonView::Number(text) && parsed_u64(text) == Some(
                    ids@[i] as u64,
                )) by {
                    assert(token_id(items[i]) == Some(ids@[i]));
                }
            }
        }
    }
}

/// A flag of a body counts where it is a boolean; anything else says nothing.
pub proof fn law_flags_are_booleans(body: JsonView, name: Seq<char>, flag: bool)
    ensures
        flag_of(body, name) == Some(flag) <==> body.get(name) == Some(JsonView::Bool(flag)),
{
}

/// A value names a session exactly if there is one that is not empty; the session is called so.
pub proof fn law_sessions_are_called_as_they_are_named(value: Option<Seq<char>>, name: Seq<char>)
    ensures
        named_session(value) == Some(name) <==> value == Some(name) && name.len() > 0,
{
}

/// The annotations that a request asks for are those that its extensions list, in their order.
pub proof fn law_annotations_are_those_listed(nvext: Option<NvExt>)
    ensures
        match nvext {
            Some(ext) => match ext.annotations {
                Some(listed) => asked_annotations(nvext) matches Some(all) && all.len()
                    == listed@.len() && forall|i: int|
                    0 <= i < all.len() ==> #[trigger] all[i] == listed@[i]@,
                None => asked_annotations(nvext) is None,
            },
            None => asked_annotations(nvext) is None,
        },
{
}

} // verus!
