//! Output backends: which backend names are known, and how one is made.

use vstd::prelude::*;
use crate::text::str_eq;

verus! {

/// Whether `name` names a backend this bridge can create.
pub fn is_known(name: &str) -> (res: bool)
    ensures
        res == is_known_spec(name@),
{
    str_eq(name, "stdout")
}

/// The backend that writes each event, with the device it is meant for, to
/// standard output.
pub struct StdoutBackend;

/// The refusal to create a backend whose name is not known.
pub struct UnknownBackend {
    pub name: String,
}

impl UnknownBackend {
    /// The message: `unknown backend: ` followed by the name.
    pub fn to_string(&self) -> (res: String)
        ensures
            res@ == "unknown backend: "@ + self.name@,
    {
        String::from_str("unknown backend: ").concat(self.name.as_str())
    }
}

/// Creates the backend that `name` names; a name that is not known is refused.
pub fn create(name: &str) -> (res: Result<StdoutBackend, UnknownBackend>)
    ensures
        res is Ok <==> is_known_spec(name@),
        res matches Err(e) ==> e.name@ == name@,
{
    if is_known(name) {
        Ok(StdoutBackend)
    } else {
        Err(UnknownBackend { name: String::from_str(name) })
    }
}

/// The names of the backends that can be created.
pub open spec fn is_known_spec(name: Seq<char>) -> bool {
    name == "stdout"@
}

} // verus!
