//! Identifiers: a fixed prefix and a random 128-bit number.

use vstd::prelude::*;

verus! {

/// Whether `c` is a digit or one of the letters `a` to `f`.
pub open spec fn is_lower_hex(c: char) -> bool {
    '0' <= c <= '9' || 'a' <= c <= 'f'
}

/// Whether `id` is `prefix` followed by 32 lower-case hexadecimal digits.
pub open spec fn is_id(prefix: Seq<char>, id: Seq<char>) -> bool {
    &&& id.len() == prefix.len() + 32
    &&& id.take(prefix.len() as int) == prefix
    &&& forall|i: int| prefix.len() <= i < id.len() ==> is_lower_hex(#[trigger] id[i])
}

/// `Uuid::new_v4` in its simple form: 32 lower-case hexadecimal digits, whose value is
/// random. Nothing is claimed of which digits they are.
#[verifier::external_body]
fn random_digits() -> (digits: String)
    ensures
        digits@.len() == 32,
        forall|i: int| 0 <= i < 32 ==> is_lower_hex(#[trigger] digits@[i]),
{
    uuid::Uuid::new_v4().simple().to_string()
}

/// A fresh identifier with the given prefix.
pub fn fresh_id(prefix: &str) -> (id: String)
    ensures
        is_id(prefix@, id@),
{
    let digits = random_digits();
    let mut id = prefix.to_owned();
    id.append(digits.as_str());
    assert(id@.take(prefix@.len() as int) == prefix@);
    assert forall|i: int| prefix@.len() <= i < id@.len() implies is_lower_hex(#[trigger] id@[i]) by {
        assert(id@[i] == digits@[i - prefix@.len()]);
    }
    id
}

/// `count` fresh identifiers with the given prefix.
pub fn fresh_ids(prefix: &str, count: usize) -> (ids: Vec<String>)
    ensures
        ids@.len() == count,
        forall|i: int| 0 <= i < count ==> is_id(prefix@, #[trigger] ids@[i]@),
{
    let mut ids: Vec<String> = Vec::new();
    for i in 0..count
        invariant
            ids@.len() == i,
            forall|k: int| 0 <= k < i ==> is_id(prefix@, #[trigger] ids@[k]@),
    {
        ids.push(fresh_id(prefix));
    }
    ids
}

} // verus!
