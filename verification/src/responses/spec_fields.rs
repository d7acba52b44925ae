//! The members that every response object has on the wire, whether or not there is anything
//! to say.

use vstd::prelude::*;

use crate::json::{
    json_view, lemma_member_views, member, member_views, Json, JsonView,
};
use crate::text::same_text;

verus! {

/// The position of the first member called `name`, or the number of members.
pub open spec fn position(members: Seq<(Seq<char>, JsonView)>, name: Seq<char>) -> int
    decreases members.len(),
{
    if members.len() == 0 {
        0
    } else if members[0].0 == name {
        0
    } else {
        1 + position(members.drop_first(), name)
    }
}

/// The members with the one called `name` set to a value.
pub open spec fn with_member(
    members: Seq<(Seq<char>, JsonView)>,
    name: Seq<char>,
    value: JsonView,
) -> Seq<(Seq<char>, JsonView)> {
    let at = position(members, name);
    if 0 <= at < members.len() {
        members.update(at, (name, value))
    } else {
        members.push((name, value))
    }
}

/// The members with the one called `name` set to a value where there is none.
pub open spec fn with_default(
    members: Seq<(Seq<char>, JsonView)>,
    name: Seq<char>,
    value: JsonView,
) -> Seq<(Seq<char>, JsonView)> {
    if member(members, name) is Some {
        members
    } else {
        with_member(members, name, value)
    }
}

/// The members with those of the given names set to null that are not there.
pub open spec fn with_nulls(
    members: Seq<(Seq<char>, JsonView)>,
    names: Seq<Seq<char>>,
    upto: nat,
) -> Seq<(Seq<char>, JsonView)>
    decreases upto,
{
    if upto == 0 {
        members
    } else {
        with_default(
            with_nulls(members, names, (upto - 1) as nat),
            names[upto - 1],
            JsonView::Null,
        )
    }
}

/// Token details that tell of no cache writes unless they tell of some.
pub open spec fn with_cache_writes(details: JsonView) -> JsonView {
    match details {
        JsonView::Object(members) => JsonView::Object(
            with_default(members, "cache_write_tokens"@, JsonView::Number("0"@)),
        ),
        other => other,
    }
}

/// Token counts whose details tell of cache writes.
pub open spec fn with_usage_details(usage: JsonView) -> JsonView {
    match usage {
        JsonView::Object(members) => match member(members, "input_tokens_details"@) {
            Some(details) => JsonView::Object(
                with_member(members, "input_tokens_details"@, with_cache_writes(details)),
            ),
            None => usage,
        },
        other => other,
    }
}

/// A response object with the members that it has to have.
pub open spec fn patched(
    members: Seq<(Seq<char>, JsonView)>,
    nullable: Seq<Seq<char>>,
    presence_penalty: JsonView,
    frequency_penalty: JsonView,
    store: bool,
    nvext: Option<JsonView>,
) -> Seq<(Seq<char>, JsonView)> {
    let nulled = with_nulls(members, nullable, nullable.len());
    let stored = with_member(
        with_member(
            with_member(nulled, "presence_penalty"@, presence_penalty),
            "frequency_penalty"@,
            frequency_penalty,
        ),
        "store"@,
        JsonView::Bool(store),
    );
    let counted = match member(stored, "usage"@) {
        Some(usage) => with_member(stored, "usage"@, with_usage_details(usage)),
        None => stored,
    };
    match nvext {
        Some(value) => with_member(counted, "nvext"@, value),
        None => counted,
    }
}

proof fn lemma_position(members: Seq<(Seq<char>, JsonView)>, name: Seq<char>)
    ensures
        0 <= position(members, name) <= members.len(),
        forall|i: int| 0 <= i < position(members, name) ==> (#[trigger] members[i]).0 != name,
        position(members, name) < members.len() ==> {
            &&& members[position(members, name)].0 == name
            &&& member(members, name) == Some(members[position(members, name)].1)
        },
        position(members, name) == members.len() ==> member(members, name) is None,
    decreases members.len(),
{
    if members.len() > 0 && members[0].0 != name {
        let rest = members.drop_first();
        lemma_position(rest, name);
        assert forall|i: int| 0 <= i < position(members, name) implies (
        #[trigger] members[i]).0 != name by {
            if i > 0 {
                assert(rest[i - 1] == members[i]);
            }
        }
    }
}

proof fn lemma_position_is(members: Seq<(Seq<char>, JsonView)>, name: Seq<char>, at: int)
    requires
        0 <= at <= members.len(),
        forall|i: int| 0 <= i < at ==> (#[trigger] members[i]).0 != name,
        at < members.len() ==> members[at].0 == name,
    ensures
        position(members, name) == at,
{
    lemma_position(members, name);
    let found = position(members, name);
    if found < at {
        assert(members[found].0 != name);
    } else if at < found {
        assert(members[at].0 != name);
    }
}

/// Setting a member sets it, and no other.
pub proof fn law_one_member_is_set(
    members: Seq<(Seq<char>, JsonView)>,
    name: Seq<char>,
    value: JsonView,
    other: Seq<char>,
)
    ensures
        member(with_member(members, name, value), other) == if other == name {
            Some(value)
        } else {
            member(members, other)
        },
{
    lemma_position(members, name);
    lemma_position(members, other);
    let at = position(members, name);
    let after = with_member(members, name, value);
    if other == name {
        lemma_position_is(after, name, at);
        lemma_position(after, name);
    } else {
        let found = position(members, other);
        if found < members.len() {
            lemma_position_is(after, other, found);
        } else {
            assert forall|i: int| 0 <= i < after.len() implies (#[trigger] after[i]).0 != other by {
                if i < members.len() {
                    assert(members[i].0 != other);
                }
            }
            lemma_position_is(after, other, after.len() as int);
        }
        lemma_position(after, other);
    }
}

/// Setting a member where there is none.
fn set_default(members: &mut Vec<(String, Json)>, name: &str, value: Json)
    ensures
        member_views(final(members)@) == with_default(member_views(old(members)@), name@, value@),
{
    proof {
        lemma_member_views(members@);
        lemma_position(member_views(members@), name@);
    }
    let at: usize = find_member(members, name);
    if at == members.len() {
        set_member(members, name, value);
    }
}

/// The position of the first member called `name`, or the number of members.
fn find_member(members: &Vec<(String, Json)>, name: &str) -> (at: usize)
    ensures
        at == position(member_views(members@), name@),
        at <= members@.len(),
{
    let ghost views = member_views(members@);
    proof {
        lemma_member_views(members@);
    }
    for i in 0..members.len()
        invariant
            views == member_views(members@),
            views.len() == members@.len(),
            forall|k: int|
                0 <= k < members@.len() ==> #[trigger] views[k] == (
                    members@[k].0@,
                    json_view(members@[k].1),
                ),
            forall|k: int| 0 <= k < i ==> (#[trigger] views[k]).0 != name@,
    {
        if same_text(members[i].0.as_str(), name) {
            proof {
                lemma_position_is(views, name@, i as int);
            }
            return i;
        }
    }
    proof {
        lemma_position_is(views, name@, views.len() as int);
    }
    members.len()
}

/// Sets a member.
fn set_member(members: &mut Vec<(String, Json)>, name: &str, value: Json)
    ensures
        member_views(final(members)@) == with_member(member_views(old(members)@), name@, value@),
{
    let at: usize = find_member(members, name);
    proof {
        lemma_member_views(members@);
        lemma_position(member_views(members@), name@);
    }
    let ghost before = members@;
    if at < members.len() {
        members.set(at, (name.to_owned(), value));
    } else {
        members.push((name.to_owned(), value));
    }
    proof {
        lemma_member_views(members@);
        assert(member_views(members@) =~= with_member(member_views(before), name@, value@));
    }
}

/// The token counts with details that tell of cache writes.
fn complete_usage(usage: &Json) -> (complete: Json)
    ensures
        complete@ == with_usage_details(usage@),
{
    let copy = usage.clone();
    match copy {
        Json::Object(mut members) => {
            let details = match usage.get("input_tokens_details") {
                Some(details) => details.clone(),
                None => {
                    return usage.clone();
                },
            };
            let complete = match details {
                Json::Object(mut inner) => {
                    set_default(&mut inner, "cache_write_tokens", Json::Number("0".to_owned()));
                    Json::Object(inner)
                },
                other => other,
            };
            set_member(&mut members, "input_tokens_details", complete);
            Json::Object(members)
        },
        other => other,
    }
}

/// Completes a response object: the members of the given names are null where there are none,
/// the penalties and whether the response is stored are told, token details tell of cache
/// writes, and extra data is added.
pub fn patch_response_for_spec(
    members: &mut Vec<(String, Json)>,
    nullable: &Vec<String>,
    presence_penalty: Json,
    frequency_penalty: Json,
    store: bool,
    nvext: &Option<Json>,
)
    ensures
        member_views(final(members)@) == patched(
            member_views(old(members)@),
            nullable.deep_view(),
            presence_penalty@,
            frequency_penalty@,
            store,
            nvext.deep_view(),
        ),
{
    let ghost names = nullable.deep_view();
    let ghost start = member_views(members@);
    for i in 0..nullable.len()
        invariant
            names == nullable.deep_view(),
            member_views(members@) == with_nulls(start, names, i as nat),
    {
        assert(names[i as int] == nullable@[i as int]@);
        set_default(members, nullable[i].as_str(), Json::Null);
    }
    set_member(members, "presence_penalty", presence_penalty);
    set_member(members, "frequency_penalty", frequency_penalty);
    set_member(members, "store", Json::Bool(store));
    proof {
        lemma_member_views(members@);
        lemma_position(member_views(members@), "usage"@);
    }
    let at: usize = find_member(members, "usage");
    if at < members.len() {
        let usage = complete_usage(&members[at].1);
        set_member(members, "usage", usage);
    }
    if let Some(value) = nvext {
        set_member(members, "nvext", value.clone());
    }
}

pub proof fn lemma_nulls(
    members: Seq<(Seq<char>, JsonView)>,
    names: Seq<Seq<char>>,
    upto: nat,
    name: Seq<char>,
)
    requires
        upto <= names.len(),
    ensures
        member(members, name) is Some ==> member(with_nulls(members, names, upto), name) == member(
            members,
            name,
        ),
        member(members, name) is None && names.take(upto as int).contains(name) ==> member(
            with_nulls(members, names, upto),
            name,
        ) == Some(JsonView::Null),
        member(members, name) is None && !names.take(upto as int).contains(name) ==> member(
            with_nulls(members, names, upto),
            name,
        ) is None,
    decreases upto,
{
    if upto > 0 {
        let before = with_nulls(members, names, (upto - 1) as nat);
        lemma_nulls(members, names, (upto - 1) as nat, name);
        law_one_member_is_set(before, names[upto - 1], JsonView::Null, name);
        let fewer = names.take(upto - 1);
        let all = names.take(upto as int);
        assert(all =~= fewer.push(names[upto - 1]));
        if fewer.contains(name) {
            let i = choose|i: int| 0 <= i < fewer.len() && fewer[i] == name;
            assert(all[i] == name);
        }
        if names[upto - 1] == name {
            assert(all[upto - 1] == name);
        }
        if all.contains(name) && names[upto - 1] != name {
            let i = choose|i: int| 0 <= i < all.len() && all[i] == name;
            assert(fewer[i] == name);
        }
    }
}

/// A complete response object has every member that it has to have, tells the penalties and
/// whether the response is stored, and otherwise says what it said.
pub proof fn law_patched_objects_are_complete(
    members: Seq<(Seq<char>, JsonView)>,
    nullable: Seq<Seq<char>>,
    presence_penalty: JsonView,
    frequency_penalty: JsonView,
    store: bool,
    nvext: Option<JsonView>,
    name: Seq<char>,
)
    ensures
        ({
            let after = patched(
                members,
                nullable,
                presence_penalty,
                frequency_penalty,
                store,
                nvext,
            );
            &&& nullable.contains(name) ==> member(after, name) is Some
            &&& member(after, "presence_penalty"@) == Some(presence_penalty)
            &&& member(after, "frequency_penalty"@) == Some(frequency_penalty)
            &&& member(after, "store"@) == Some(JsonView::Bool(store))
            &&& nvext is Some ==> member(after, "nvext"@) == nvext
            &&& name != "presence_penalty"@ && name != "frequency_penalty"@ && name != "store"@
                && name != "usage"@ && name != "nvext"@ && member(members, name) is Some
                ==> member(after, name) == member(members, name)
        }),
{
    reveal_strlit("presence_penalty");
    reveal_strlit("frequency_penalty");
    reveal_strlit("store");
    reveal_strlit("usage");
    reveal_strlit("nvext");
    assert("store"@[0] == 's' && "usage"@[0] == 'u' && "nvext"@[0] == 'n');
    let nulled = with_nulls(members, nullable, nullable.len());
    assert(nullable.take(nullable.len() as int) =~= nullable);
    let present = with_member(nulled, "presence_penalty"@, presence_penalty);
    let frequent = with_member(present, "frequency_penalty"@, frequency_penalty);
    let stored = with_member(frequent, "store"@, JsonView::Bool(store));
    let counted = match member(stored, "usage"@) {
        Some(usage) => with_member(stored, "usage"@, with_usage_details(usage)),
        None => stored,
    };
    let usage = match member(stored, "usage"@) {
        Some(usage) => with_usage_details(usage),
        None => JsonView::Null,
    };
    let extra = nvext.unwrap_or(JsonView::Null);
    lemma_nulls(members, nullable, nullable.len(), name);
    let after = patched(
        members,
        nullable,
        presence_penalty,
        frequency_penalty,
        store,
        nvext,
    );
    assert forall|other: Seq<char>|
        other == name || other == "presence_penalty"@ || other == "frequency_penalty"@ || other
            == "store"@ || other == "nvext"@ implies #[trigger] member(after, other) == if nvext is Some && other == "nvext"@ {
            nvext
        } else if other == "usage"@ && member(stored, other) is Some {
            Some(usage)
        } else if other == "store"@ {
            Some(JsonView::Bool(store))
        } else if other == "frequency_penalty"@ {
            Some(frequency_penalty)
        } else if other == "presence_penalty"@ {
            Some(presence_penalty)
        } else {
            member(nulled, other)
        } by {
        law_one_member_is_set(nulled, "presence_penalty"@, presence_penalty, other);
        law_one_member_is_set(present, "frequency_penalty"@, frequency_penalty, other);
        law_one_member_is_set(frequent, "store"@, JsonView::Bool(store), other);
        law_one_member_is_set(stored, "usage"@, usage, other);
        law_one_member_is_set(counted, "nvext"@, extra, other);
    }
    assert("presence_penalty"@.len() == 16 && "frequency_penalty"@.len() == 17);
    assert(member(after, "presence_penalty"@) == Some(presence_penalty));
    assert(member(after, "frequency_penalty"@) == Some(frequency_penalty));
    assert(member(after, "store"@) == Some(JsonView::Bool(store)));
    assert(nvext is Some ==> member(after, "nvext"@) == nvext);
    if nullable.contains(name) {
        assert(member(after, name) is Some);
    }
}

} // verus!
