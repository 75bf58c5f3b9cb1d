//! The CloudEvents that arrive on the subscribed topics.

use vstd::prelude::*;

verus! {

/// A CloudEvent as the filters see it.
///
/// `data` lists the members of the event's JSON `data` when that is an
/// object: each member's name with its value written as compact JSON text
/// (object keys in sorted order). When `data` is not an object no field can be
/// looked up in it, and the list is empty.
pub struct CloudEvent {
    pub id: String,
    pub type_: String,
    pub source: String,
    pub sourcetype: String,
    pub subject: Option<String>,
    pub data: Vec<(String, String)>,
}

/// The value (as JSON text) of the first member named `key`, if any.
pub open spec fn data_field(members: Seq<(String, String)>, key: Seq<char>) -> Option<Seq<char>>
    decreases members.len(),
{
    if members.len() == 0 {
        None
    } else if members[0].0@ == key {
        Some(members[0].1@)
    } else {
        data_field(members.drop_first(), key)
    }
}

/// Whether the member named `key` exists and its JSON text is `expected`.
pub fn data_field_equals(members: &Vec<(String, String)>, key: &String, expected: &String) -> (res: bool)
    ensures
        res == (data_field(members@, key@) == Some(expected@)),
{
    let mut i: usize = 0;
    assert(members@.skip(0) =~= members@);
    while i < members.len()
        invariant
            i <= members.len(),
            data_field(members@, key@) == data_field(members@.skip(i as int), key@),
        decreases members.len() - i,
    {
        let ghost rest = members@.skip(i as int);
        assert(rest.drop_first() =~= members@.skip(i + 1));
        if members[i].0 == *key {
            return members[i].1 == *expected;
        }
        i = i + 1;
    }
    false
}

} // verus!
