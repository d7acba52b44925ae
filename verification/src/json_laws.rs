//! What holds of the members of JSON objects, and of values that are the same.

use vstd::prelude::*;

use crate::json::{has_name, member, same_items, same_json, same_members, JsonView};

verus! {

/// An object has a member of a name exactly if some member is called so; of several the first
/// counts. No other value has members.
pub proof fn law_the_first_member_counts(
    members: Seq<(Seq<char>, JsonView)>,
    name: Seq<char>,
    k: int,
)
    ensures
        member(members, name) is Some <==> has_name(members, name),
        0 <= k < members.len() && members[k].0 == name && (forall|i: int|
            0 <= i < k ==> (#[trigger] members[i]).0 != name) ==> member(members, name) == Some(
            members[k].1,
        ),
        JsonView::Object(members).get(name) == member(members, name),
    decreases members.len(),
{
    if members.len() > 0 {
        let rest = members.drop_first();
        law_the_first_member_counts(rest, name, k - 1);
        if members[0].0 == name {
            assert(has_name(members, name));
            if 0 < k < members.len() {
                assert(members[0].0 == name);
            }
        } else {
            if has_name(rest, name) {
                let i = choose|i: int| 0 <= i < rest.len() && (#[trigger] rest[i]).0 == name;
                assert(members[i + 1].0 == name);
            }
            if has_name(members, name) {
                let i = choose|i: int| 0 <= i < members.len() && (#[trigger] members[i]).0 == name;
                assert(rest[i - 1].0 == name);
            }
            if 0 < k < members.len() && members[k].0 == name && (forall|i: int|
                0 <= i < k ==> (#[trigger] members[i]).0 != name) {
                assert(rest[k - 1] == members[k]);
                assert forall|i: int| 0 <= i < k - 1 implies (#[trigger] rest[i]).0 != name by {
                    assert(rest[i] == members[i + 1]);
                }
            }
        }
    }
}

/// Values other than objects have no members, and the text of a member is that of a text.
pub proof fn law_only_objects_have_members(value: JsonView, name: Seq<char>)
    ensures
        !(value is Object) ==> value.get(name) is None,
        value.get_str(name) == match value.get(name) {
            Some(JsonView::Str(text)) => Some(text),
            _ => None,
        },
        value.as_str() is Some <==> value is Str,
        value matches JsonView::Str(text) ==> value.as_str() == Some(text),
{
}

/// Two arrays are the same exactly if they have the same length and the same value at each place.
pub proof fn law_arrays_are_the_same_place_by_place(a: Seq<JsonView>, b: Seq<JsonView>)
    ensures
        same_json(JsonView::Array(a), JsonView::Array(b)) <==> a.len() == b.len() && forall|i: int|
            0 <= i < a.len() ==> #[trigger] same_json(a[i], b[i]),
{
    lemma_items(a, b);
}

proof fn lemma_items(a: Seq<JsonView>, b: Seq<JsonView>)
    ensures
        same_items(a, b) <==> a.len() == b.len() && forall|i: int|
            0 <= i < a.len() ==> #[trigger] same_json(a[i], b[i]),
    decreases a.len(),
{
    if a.len() == b.len() && a.len() > 0 {
        let x = a.drop_last();
        let y = b.drop_last();
        let last = a.len() - 1;
        lemma_items(x, y);
        if same_items(a, b) {
            assert forall|i: int| 0 <= i < a.len() implies #[trigger] same_json(a[i], b[i]) by {
                if i < last {
                    assert(same_json(x[i], y[i]));
                }
            }
        }
        if forall|i: int| 0 <= i < a.len() ==> #[trigger] same_json(a[i], b[i]) {
            assert forall|i: int| 0 <= i < x.len() implies #[trigger] same_json(x[i], y[i]) by {
                assert(same_json(a[i], b[i]));
            }
            assert(same_json(a[last], b[last]));
        }
    }
}

/// Two objects are the same exactly if they have members of the same names, and the values that
/// count for each name are the same, in whatever order the members stand.
pub proof fn law_objects_are_the_same_name_by_name(
    a: Seq<(Seq<char>, JsonView)>,
    b: Seq<(Seq<char>, JsonView)>,
)
    ensures
        same_json(JsonView::Object(a), JsonView::Object(b)) <==> forall|name: Seq<char>|
            match (#[trigger] member(a, name), member(b, name)) {
                (Some(x), Some(y)) => same_json(x, y),
                (None, None) => true,
                _ => false,
            },
{
    lemma_members(a, b);
    if same_json(JsonView::Object(a), JsonView::Object(b)) {
        assert forall|name: Seq<char>|
            match (#[trigger] member(a, name), member(b, name)) {
                (Some(x), Some(y)) => same_json(x, y),
                (None, None) => true,
                _ => false,
            } by {
            law_the_first_member_counts(a, name, 0);
            law_the_first_member_counts(b, name, 0);
            if has_name(b, name) {
                let j = choose|j: int| 0 <= j < b.len() && (#[trigger] b[j]).0 == name;
                assert(has_name(a, b[j].0));
            }
        }
    }
    if forall|name: Seq<char>|
        match (#[trigger] member(a, name), member(b, name)) {
            (Some(x), Some(y)) => same_json(x, y),
            (None, None) => true,
            _ => false,
        } {
        assert forall|j: int| 0 <= j < b.len() implies has_name(a, (#[trigger] b[j]).0) by {
            law_the_first_member_counts(a, b[j].0, 0);
            law_the_first_member_counts(b, b[j].0, 0);
            assert(has_name(b, b[j].0));
            assert(member(a, b[j].0) is Some);
        }
    }
}

proof fn lemma_members(a: Seq<(Seq<char>, JsonView)>, b: Seq<(Seq<char>, JsonView)>)
    ensures
        same_members(a, b) <==> forall|name: Seq<char>|
            (#[trigger] member(a, name)) matches Some(x) ==> member(b, name) matches Some(y)
                && same_json(x, y),
    decreases a.len(),
{
    if a.len() > 0 {
        let rest = a.drop_last();
        let last = a.last();
        lemma_members(rest, b);
        assert forall|name: Seq<char>| #[trigger] member(a, name) == if has_name(rest, name) {
            member(rest, name)
        } else if last.0 == name {
            Some(last.1)
        } else {
            None
        } by {
            lemma_member_push(rest, last, name);
            assert(rest.push(last) =~= a);
        }
        assert forall|name: Seq<char>| #[trigger] member(rest, name) is Some == has_name(
            rest,
            name,
        ) by {
            law_the_first_member_counts(rest, name, 0);
        }
        if same_members(a, b) {
            assert forall|name: Seq<char>|
                (#[trigger] member(a, name)) matches Some(x) ==> member(b, name) matches Some(y)
                    && same_json(x, y) by {
                assert(member(rest, name) is Some == has_name(rest, name));
            }
        }
        if forall|name: Seq<char>|
            (#[trigger] member(a, name)) matches Some(x) ==> member(b, name) matches Some(y)
                && same_json(x, y) {
            assert forall|name: Seq<char>|
                (#[trigger] member(rest, name)) matches Some(x) ==> member(b, name) matches Some(y)
                    && same_json(x, y) by {
                assert(member(rest, name) is Some == has_name(rest, name));
                let found = member(a, name);
            }
            let found = member(a, last.0);
        }
    }
}

proof fn lemma_member_push(
    members: Seq<(Seq<char>, JsonView)>,
    last: (Seq<char>, JsonView),
    name: Seq<char>,
)
    ensures
        member(members.push(last), name) == if has_name(members, name) {
            member(members, name)
        } else if last.0 == name {
            Some(last.1)
        } else {
            None
        },
    decreases members.len(),
{
    let all = members.push(last);
    if members.len() > 0 {
        let rest = members.drop_first();
        lemma_member_push(rest, last, name);
        assert(all.drop_first() =~= rest.push(last));
        if members[0].0 == name {
            assert(has_name(members, name));
        } else {
            if has_name(rest, name) {
                let i = choose|i: int| 0 <= i < rest.len() && (#[trigger] rest[i]).0 == name;
                assert(members[i + 1].0 == name);
            }
            if has_name(members, name) {
                let i = choose|i: int| 0 <= i < members.len() && (#[trigger] members[i]).0 == name;
                assert(rest[i - 1].0 == name);
            }
        }
    } else {
        assert(all.drop_first() =~= Seq::<(Seq<char>, JsonView)>::empty());
        assert(member(all.drop_first(), name) is None);
    }
}

} // verus!
