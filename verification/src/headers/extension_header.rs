//! A header that is not known by type: its name and its value as text.

use crate::headers::Header;
use vstd::prelude::*;
use vstd::string::*;

verus! {

#[derive(Debug)]
pub struct ExtensionHeader {
    name: String,
    value: String,
}

impl ExtensionHeader {
    pub fn new(name: &str, value: &str) -> (r: ExtensionHeader)
        ensures
            r.field_name() == name@,
            r.field_value() == value@,
    {
        ExtensionHeader { name: String::from_str(name), value: String::from_str(value) }
    }
}

impl Header for ExtensionHeader {
    open spec fn well_formed(&self) -> bool {
        true
    }

    closed spec fn field_name(&self) -> Seq<char> {
        self.name@
    }

    closed spec fn field_value(&self) -> Seq<char> {
        self.value@
    }

    fn name(&self) -> (r: &str) {
        self.name.as_str()
    }

    fn value(&self) -> (r: String) {
        self.value.clone()
    }
}

} // verus!
