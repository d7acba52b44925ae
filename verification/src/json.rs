//! JSON values as plain data, and what `serde_json` reads and prints.

use vstd::prelude::*;

use vstd::std_specs::cmp::PartialEqSpecImpl;

use crate::text::same_text;

verus! {

/// A JSON value. A number is held by its decimal text, and an object by its members in
/// the order in which they stand. The order of members does not count when two are compared.
#[derive(Debug, Eq)]
pub enum Json {
    Null,
    Bool(bool),
    Number(String),
    Str(String),
    Array(Vec<Json>),
    Object(Vec<(String, Json)>),
}

/// The mathematical form of a [`Json`] value.
pub enum JsonView {
    Null,
    Bool(bool),
    Number(Seq<char>),
    Str(Seq<char>),
    Array(Seq<JsonView>),
    Object(Seq<(Seq<char>, JsonView)>),
}

/// The views of a run of values.
pub open spec fn item_views(items: Seq<Json>) -> Seq<JsonView>
    decreases items,
{
    if items.len() == 0 {
        seq![]
    } else {
        item_views(items.drop_last()).push(json_view(items.last()))
    }
}

/// The views of a run of object members.
pub open spec fn member_views(members: Seq<(String, Json)>) -> Seq<(Seq<char>, JsonView)>
    decreases members,
{
    if members.len() == 0 {
        seq![]
    } else {
        member_views(members.drop_last()).push((members.last().0@, json_view(members.last().1)))
    }
}

/// The view of a value, all the way down.
pub open spec fn json_view(value: Json) -> JsonView
    decreases value,
{
    match value {
        Json::Null => JsonView::Null,
        Json::Bool(b) => JsonView::Bool(b),
        Json::Number(n) => JsonView::Number(n@),
        Json::Str(s) => JsonView::Str(s@),
        Json::Array(items) => JsonView::Array(item_views(items@)),
        Json::Object(members) => JsonView::Object(member_views(members@)),
    }
}

impl View for Json {
    type V = JsonView;

    open spec fn view(&self) -> JsonView {
        json_view(*self)
    }
}

impl DeepView for Json {
    type V = JsonView;

    open spec fn deep_view(&self) -> JsonView {
        json_view(*self)
    }
}

pub proof fn lemma_item_views(items: Seq<Json>)
    ensures
        item_views(items).len() == items.len(),
        forall|i: int|
            0 <= i < items.len() ==> #[trigger] item_views(items)[i] == json_view(items[i]),
    decreases items.len(),
{
    if items.len() > 0 {
        lemma_item_views(items.drop_last());
    }
}

pub proof fn lemma_member_views(members: Seq<(String, Json)>)
    ensures
        member_views(members).len() == members.len(),
        forall|i: int|
            0 <= i < members.len() ==> #[trigger] member_views(members)[i] == (
                members[i].0@,
                json_view(members[i].1),
            ),
    decreases members.len(),
{
    if members.len() > 0 {
        lemma_member_views(members.drop_last());
    }
}

impl Clone for Json {
    fn clone(&self) -> (copy: Self)
        ensures
            copy@ == self@,
        decreases self,
    {
        match self {
            Json::Null => Json::Null,
            Json::Bool(b) => Json::Bool(*b),
            Json::Number(n) => Json::Number(n.clone()),
            Json::Str(s) => Json::Str(s.clone()),
            Json::Array(items) => {
                let mut copies: Vec<Json> = Vec::new();
                for i in 0..items.len()
                    invariant
                        decreases_to!(*self => items@),
                        item_views(copies@) == item_views(items@.take(i as int)),
                {
                    let copy = items[i].clone();
                    proof {
                        assert(copies@.push(copy).drop_last() == copies@);
                        assert(items@.take(i + 1).drop_last() == items@.take(i as int));
                    }
                    copies.push(copy);
                }
                assert(items@.take(items@.len() as int) == items@);
                Json::Array(copies)
            },
            Json::Object(members) => {
                let mut copies: Vec<(String, Json)> = Vec::new();
                for i in 0..members.len()
                    invariant
                        decreases_to!(*self => members@),
                        member_views(copies@) == member_views(members@.take(i as int)),
                {
                    let name = members[i].0.clone();
                    let copy = members[i].1.clone();
                    proof {
                        assert(copies@.push((name, copy)).drop_last() == copies@);
                        assert(members@.take(i + 1).drop_last() == members@.take(i as int));
                    }
                    copies.push((name, copy));
                }
                assert(members@.take(members@.len() as int) == members@);
                Json::Object(copies)
            },
        }
    }
}

/// The value of the first member called `name` among `members`.
pub open spec fn member(members: Seq<(Seq<char>, JsonView)>, name: Seq<char>) -> Option<JsonView>
    decreases members.len(),
{
    if members.len() == 0 {
        None
    } else if members[0].0 == name {
        Some(members[0].1)
    } else {
        member(members.drop_first(), name)
    }
}

/// Whether one of the members is called `name`.
pub open spec fn has_name(members: Seq<(Seq<char>, JsonView)>, name: Seq<char>) -> bool {
    exists|k: int| 0 <= k < members.len() && (#[trigger] members[k]).0 == name
}

/// Whether two number texts are of the same number: zero has a negative form.
pub open spec fn same_number(a: Seq<char>, b: Seq<char>) -> bool {
    a == b || (a == "0.0"@ || a == "-0.0"@) && (b == "0.0"@ || b == "-0.0"@)
}

/// Whether two runs of values are the same, one by one.
pub open spec fn same_items(a: Seq<JsonView>, b: Seq<JsonView>) -> bool
    decreases a,
{
    &&& a.len() == b.len()
    &&& a.len() > 0 ==> same_items(a.drop_last(), b.drop_last()) && same_json(a.last(), b.last())
}

/// Whether the members `b` give the same value for each name of the members `a`. Of members
/// with one name the first counts.
pub open spec fn same_members(
    a: Seq<(Seq<char>, JsonView)>,
    b: Seq<(Seq<char>, JsonView)>,
) -> bool
    decreases a,
{
    a.len() > 0 ==> {
        &&& same_members(a.drop_last(), b)
        &&& has_name(a.drop_last(), a.last().0) || (member(b, a.last().0) matches Some(value)
            && same_json(a.last().1, value))
    }
}

/// Whether two values are the same, in whatever order the members of objects stand.
pub open spec fn same_json(a: JsonView, b: JsonView) -> bool
    decreases a,
{
    match (a, b) {
        (JsonView::Null, JsonView::Null) => true,
        (JsonView::Bool(x), JsonView::Bool(y)) => x == y,
        (JsonView::Number(x), JsonView::Number(y)) => same_number(x, y),
        (JsonView::Str(x), JsonView::Str(y)) => x == y,
        (JsonView::Array(x), JsonView::Array(y)) => same_items(x, y),
        (JsonView::Object(x), JsonView::Object(y)) => same_members(x, y) && forall|j: int|
            0 <= j < y.len() ==> has_name(x, (#[trigger] y[j]).0),
        _ => false,
    }
}

/// The place of the first member called `name`, if there is one.
fn find_name(members: &Vec<(String, Json)>, name: &str) -> (place: Option<usize>)
    ensures
        match place {
            Some(i) => {
                &&& i < members@.len()
                &&& members@[i as int].0@ == name@
                &&& forall|k: int| 0 <= k < i ==> (#[trigger] members@[k]).0@ != name@
                &&& member(member_views(members@), name@) == Some(json_view(members@[i as int].1))
            },
            None => {
                &&& forall|k: int|
                    0 <= k < members@.len() ==> (#[trigger] members@[k]).0@ != name@
                &&& member(member_views(members@), name@) is None
            },
        },
{
    let ghost views = member_views(members@);
    proof {
        lemma_member_views(members@);
    }
    assert(views.skip(0) == views);
    for i in 0..members.len()
        invariant
            views == member_views(members@),
            views.len() == members@.len(),
            forall|k: int|
                0 <= k < members@.len() ==> #[trigger] views[k] == (
                    members@[k].0@,
                    json_view(members@[k].1),
                ),
            forall|k: int| 0 <= k < i ==> (#[trigger] members@[k]).0@ != name@,
            member(views, name@) == member(views.skip(i as int), name@),
    {
        assert(views[i as int] == (members@[i as int].0@, json_view(members@[i as int].1)));
        if same_text(members[i].0.as_str(), name) {
            return Some(i);
        }
        assert(views.skip(i as int).drop_first() == views.skip(i + 1));
    }
    None
}

impl PartialEq for Json {
    fn eq(&self, other: &Json) -> (same: bool)
        decreases self,
    {
        match (self, other) {
            (Json::Null, Json::Null) => true,
            (Json::Bool(a), Json::Bool(b)) => *a == *b,
            (Json::Number(a), Json::Number(b)) => {
                let zeros = (same_text(a.as_str(), "0.0") || same_text(a.as_str(), "-0.0")) && (
                same_text(b.as_str(), "0.0") || same_text(b.as_str(), "-0.0"));
                same_text(a.as_str(), b.as_str()) || zeros
            },
            (Json::Str(a), Json::Str(b)) => same_text(a.as_str(), b.as_str()),
            (Json::Array(a), Json::Array(b)) => {
                proof {
                    lemma_item_views(a@);
                    lemma_item_views(b@);
                }
                if a.len() != b.len() {
                    return false;
                }
                let ghost (x, y) = (item_views(a@), item_views(b@));
                assert(x.take(a@.len() as int) =~= x);
                assert(y.take(a@.len() as int) =~= y);
                for i in 0..a.len()
                    invariant
                        decreases_to!(*self => a@),
                        a@.len() == b@.len(),
                        x == item_views(a@),
                        y == item_views(b@),
                        x.len() == a@.len(),
                        y.len() == a@.len(),
                        forall|k: int| 0 <= k < a@.len() ==> #[trigger] x[k] == json_view(a@[k]),
                        forall|k: int| 0 <= k < a@.len() ==> #[trigger] y[k] == json_view(b@[k]),
                        same_items(x.take(i as int), y.take(i as int)),
                        json_view(*self) == JsonView::Array(x),
                        json_view(*other) == JsonView::Array(y),
                {
                    assert(x.take(i + 1).drop_last() =~= x.take(i as int));
                    assert(y.take(i + 1).drop_last() =~= y.take(i as int));
                    if !a[i].eq(&b[i]) {
                        proof {
                            assert(!same_json(x[i as int], y[i as int]));
                            lemma_items_differ(x, y, i + 1);
                        }
                        return false;
                    }
                }
                true
            },
            (Json::Object(a), Json::Object(b)) => {
                let ghost (x, y) = (member_views(a@), member_views(b@));
                proof {
                    lemma_member_views(a@);
                    lemma_member_views(b@);
                }
                assert(x.take(a@.len() as int) =~= x);
                for i in 0..a.len()
                    invariant
                        decreases_to!(*self => a@),
                        x == member_views(a@),
                        y == member_views(b@),
                        x.len() == a@.len(),
                        forall|k: int|
                            0 <= k < a@.len() ==> #[trigger] x[k] == (
                                a@[k].0@,
                                json_view(a@[k].1),
                            ),
                        same_members(x.take(i as int), y),
                        json_view(*self) == JsonView::Object(x),
                        json_view(*other) == JsonView::Object(y),
                {
                    assert(x.take(i + 1).drop_last() =~= x.take(i as int));
                    let name = a[i].0.as_str();
                    assert(x[i as int].0 == name@);
                    let first = match find_name(a, name) {
                        Some(place) => place == i,
                        None => false,
                    };
                    assert(first == !has_name(x.take(i as int), name@)) by {
                        if has_name(x.take(i as int), name@) {
                            let k = choose|k: int|
                                0 <= k < i && (#[trigger] x.take(i as int)[k]).0 == name@;
                            assert(x[k].0 == a@[k].0@);
                        } else {
                            assert forall|k: int| 0 <= k < i implies (
                            #[trigger] a@[k]).0@ != name@ by {
                                assert(x.take(i as int)[k] == x[k]);
                            }
                        }
                    }
                    if first {
                        let same = match find_name(b, name) {
                            Some(place) => a[i].1.eq(&b[place].1),
                            None => false,
                        };
                        if !same {
                            proof {
                                lemma_members_differ(x, y, i + 1);
                            }
                            return false;
                        }
                    }
                }
                for j in 0..b.len()
                    invariant
                        x == member_views(a@),
                        y == member_views(b@),
                        x.len() == a@.len(),
                        y.len() == b@.len(),
                        forall|k: int|
                            0 <= k < a@.len() ==> #[trigger] x[k] == (
                                a@[k].0@,
                                json_view(a@[k].1),
                            ),
                        forall|k: int|
                            0 <= k < b@.len() ==> #[trigger] y[k] == (
                                b@[k].0@,
                                json_view(b@[k].1),
                            ),
                        forall|k: int| 0 <= k < j ==> has_name(x, (#[trigger] y[k]).0),
                        json_view(*self) == JsonView::Object(x),
                        json_view(*other) == JsonView::Object(y),
                {
                    assert(y[j as int].0 == b@[j as int].0@);
                    match find_name(a, b[j].0.as_str()) {
                        Some(place) => {
                            assert(x[place as int].0 == y[j as int].0);
                        },
                        None => {
                            assert(!has_name(x, y[j as int].0)) by {
                                if has_name(x, y[j as int].0) {
                                    let k = choose|k: int|
                                        0 <= k < x.len() && (#[trigger] x[k]).0 == y[j as int].0;
                                    assert(a@[k].0@ == x[k].0);
                                }
                            }
                            return false;
                        },
                    }
                }
                true
            },
            _ => false,
        }
    }
}

/// Runs that differ in a part differ.
proof fn lemma_items_differ(x: Seq<JsonView>, y: Seq<JsonView>, n: int)
    requires
        x.len() == y.len(),
        0 <= n <= x.len(),
        !same_items(x.take(n), y.take(n)),
    ensures
        !same_items(x, y),
    decreases x.len() - n,
{
    if n < x.len() {
        assert(x.take(n + 1).drop_last() =~= x.take(n));
        assert(y.take(n + 1).drop_last() =~= y.take(n));
        lemma_items_differ(x, y, n + 1);
    } else {
        assert(x.take(n) =~= x);
        assert(y.take(n) =~= y);
    }
}

/// Members that differ in a part differ.
proof fn lemma_members_differ(
    x: Seq<(Seq<char>, JsonView)>,
    y: Seq<(Seq<char>, JsonView)>,
    n: int,
)
    requires
        0 <= n <= x.len(),
        !same_members(x.take(n), y),
    ensures
        !same_members(x, y),
    decreases x.len() - n,
{
    if n < x.len() {
        assert(x.take(n + 1).drop_last() =~= x.take(n));
        lemma_members_differ(x, y, n + 1);
    } else {
        assert(x.take(n) =~= x);
    }
}

impl PartialEqSpecImpl for Json {
    open spec fn obeys_eq_spec() -> bool {
        true
    }

    open spec fn eq_spec(&self, other: &Json) -> bool {
        same_json(json_view(*self), json_view(*other))
    }
}

impl JsonView {
    /// The member called `name`, where the value is an object that has one.
    pub open spec fn get(self, name: Seq<char>) -> Option<JsonView> {
        match self {
            JsonView::Object(members) => member(members, name),
            _ => None,
        }
    }

    /// The text of a string value.
    pub open spec fn as_str(self) -> Option<Seq<char>> {
        match self {
            JsonView::Str(text) => Some(text),
            _ => None,
        }
    }

    /// The text of the string member called `name`.
    pub open spec fn get_str(self, name: Seq<char>) -> Option<Seq<char>> {
        match self.get(name) {
            Some(value) => value.as_str(),
            None => None,
        }
    }
}

impl Json {
    /// The member called `name`, where the value is an object that has one.
    pub fn get(&self, name: &str) -> (found: Option<&Json>)
        ensures
            found matches Some(value) ==> self@.get(name@) == Some(value@),
            found is None ==> self@.get(name@) is None,
    {
        match self {
            Json::Object(members) => {
                proof {
                    lemma_member_views(members@);
                }
                assert(member_views(members@).skip(0) == member_views(members@));
                for i in 0..members.len()
                    invariant
                        self@ == JsonView::Object(member_views(members@)),
                        member_views(members@).len() == members@.len(),
                        forall|k: int|
                            0 <= k < members@.len() ==> #[trigger] member_views(members@)[k] == (
                                members@[k].0@,
                                json_view(members@[k].1),
                            ),
                        member(member_views(members@), name@) == member(
                            member_views(members@).skip(i as int),
                            name@,
                        ),
                {
                    if same_text(members[i].0.as_str(), name) {
                        return Some(&members[i].1);
                    }
                    assert(member_views(members@).skip(i as int).drop_first() == member_views(
                        members@,
                    ).skip(i + 1));
                }
                None
            },
            _ => None,
        }
    }

    /// The text of a string value.
    pub fn as_str(&self) -> (text: Option<&String>)
        ensures
            text matches Some(t) ==> self@.as_str() == Some(t@),
            text is None ==> self@.as_str() is None,
    {
        match self {
            Json::Str(text) => Some(text),
            _ => None,
        }
    }

    /// The text of the string member called `name`.
    pub fn get_str(&self, name: &str) -> (text: Option<&String>)
        ensures
            text matches Some(t) ==> self@.get_str(name@) == Some(t@),
            text is None ==> self@.get_str(name@) is None,
    {
        match self.get(name) {
            Some(value) => value.as_str(),
            None => None,
        }
    }
}

/// A value that `serde_json` has read. Only `serde_json` looks inside it.
#[verifier::external_type_specification]
#[verifier::external_body]
pub struct ExValue(serde_json::Value);

/// What a `serde_json::Value` holds.
pub uninterp spec fn value_tree(value: serde_json::Value) -> JsonView;

/// What `serde_json::from_str` reads from a text; nothing where it reports an error.
pub uninterp spec fn parsed_json(text: Seq<char>) -> Option<JsonView>;

/// What `serde_json::to_string` prints for a value.
pub uninterp spec fn printed_json(tree: JsonView) -> Seq<char>;

/// `serde_json::from_str` into a `serde_json::Value`. Whether it succeeds, and what the
/// value then holds, depends on the text alone.
#[verifier::external_body]
pub(crate) fn value_from_text(text: &str) -> (value: Option<serde_json::Value>)
    ensures
        value is Some <==> parsed_json(text@) is Some,
        value matches Some(v) ==> parsed_json(text@) == Some(value_tree(v)),
{
    serde_json::from_str::<serde_json::Value>(text).ok()
}

/// The contents of a `serde_json::Value`, variant by variant: each number as
/// `serde_json::Number` prints it, each object with its members in the order of its map.
#[verifier::external_body]
pub(crate) fn value_contents(value: &serde_json::Value) -> (json: Json)
    ensures
        json@ == value_tree(*value),
{
    match value {
        serde_json::Value::Null => Json::Null,
        serde_json::Value::Bool(b) => Json::Bool(*b),
        serde_json::Value::Number(n) => Json::Number(n.to_string()),
        serde_json::Value::String(s) => Json::Str(s.clone()),
        serde_json::Value::Array(items) => Json::Array(items.iter().map(value_contents).collect()),
        serde_json::Value::Object(members) => Json::Object(
            members.iter().map(|(name, v)| (name.clone(), value_contents(v))).collect(),
        ),
    }
}

/// The text that `serde_json::to_string` prints for a `serde_json::Value`, which depends on
/// nothing but what the value holds. Printing a value that holds no map with keys other
/// than strings does not fail.
#[verifier::external_body]
pub(crate) fn value_text(value: &serde_json::Value) -> (text: String)
    ensures
        text@ == printed_json(value_tree(*value)),
{
    serde_json::to_string(value).unwrap_or_default()
}

/// `serde_json::Value::get` with a string index: the member of that name of an object, and
/// nothing of any other value.
#[verifier::external_body]
pub(crate) fn value_member(value: &serde_json::Value, name: &str) -> (found: Option<serde_json::Value>)
    ensures
        found is Some <==> value_tree(*value).get(name@) is Some,
        found matches Some(v) ==> value_tree(*value).get(name@) == Some(value_tree(v)),
{
    value.get(name).cloned()
}

/// `serde_json::Value::as_array`: the items of an array, and nothing of any other value.
#[verifier::external_body]
pub(crate) fn value_items(value: &serde_json::Value) -> (items: Option<Vec<serde_json::Value>>)
    ensures
        items is Some <==> value_tree(*value) is Array,
        items matches Some(all) ==> value_tree(*value) == JsonView::Array(value_trees(all@)),
{
    value.as_array().cloned()
}

/// What the values of a run hold.
pub open spec fn value_trees(values: Seq<serde_json::Value>) -> Seq<JsonView> {
    values.map_values(|value: serde_json::Value| value_tree(value))
}

/// `serde_json::Value::String` with the given text.
#[verifier::external_body]
pub(crate) fn text_value(text: &str) -> (value: serde_json::Value)
    ensures
        value_tree(value) == JsonView::Str(text@),
{
    serde_json::Value::String(text.to_owned())
}

/// `serde_json::Value::Object` with no members.
#[verifier::external_body]
pub(crate) fn empty_object() -> (value: serde_json::Value)
    ensures
        value_tree(value) == JsonView::Object(seq![]),
{
    serde_json::Value::Object(serde_json::Map::new())
}

/// `serde_json::Value::Array` with no items.
#[verifier::external_body]
pub(crate) fn empty_array() -> (value: serde_json::Value)
    ensures
        value_tree(value) == JsonView::Array(seq![]),
{
    serde_json::Value::Array(Vec::new())
}

/// The value that a JSON text denotes.
pub fn parse_json(text: &str) -> (json: Option<Json>)
    ensures
        json matches Some(value) ==> parsed_json(text@) == Some(value@),
        json is None ==> parsed_json(text@) is None,
{
    match value_from_text(text) {
        Some(value) => Some(value_contents(&value)),
        None => None,
    }
}

} // verus!
