//! The `Accept` header.

use vstd::prelude::*;
use vstd::string::*;

verus! {

/// One media range of an `Accept` header: a type and a subtype.
#[derive(Debug)]
pub struct AcceptHeader {
    typ: String,
    sub_type: String,
}

impl AcceptHeader {
    /// The field name, `accept`.
    pub fn name(&self) -> (r: String)
        ensures
            r@ == "accept"@,
    {
        String::from_str("accept")
    }
}

} // verus!
