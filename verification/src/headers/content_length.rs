//! The `Content-Length` header.

use crate::errors::{Error, ErrorView};
use crate::headers::Header;
use crate::helpers::number::{parse_number, parsed_number};
use crate::text::chars_of;
use vstd::prelude::*;
use vstd::string::*;

verus! {

/// A `Content-Length` value: the text as it was received, which is a decimal
/// number that fits the machine's word.
#[derive(Debug)]
pub struct ContentLength {
    length: String,
}

impl View for ContentLength {
    type V = nat;

    /// The number of bytes that the header announces.
    closed spec fn view(&self) -> nat {
        match parsed_number(self.length@, 10) {
            Some(n) => n as nat,
            None => 0,
        }
    }
}

/// What a `Content-Length` value stands for.
pub open spec fn content_length_of(value: Seq<char>) -> Result<nat, ErrorView> {
    match parsed_number(value, 10) {
        Some(n) => Ok(n as nat),
        None => Err(ErrorView::InvalidContentLengthValue),
    }
}

impl ContentLength {
    /// The held text is a decimal number that fits the machine's word.
    pub closed spec fn wf(&self) -> bool {
        parsed_number(self.length@, 10) is Some
    }

    /// The value as it was received.
    pub closed spec fn text(&self) -> Seq<char> {
        self.length@
    }

    pub fn content_length(&self) -> (r: usize)
        requires
            self.wf(),
        ensures
            r == self@,
    {
        let digits = chars_of(self.length.as_str());
        match parse_number(&digits, 10) {
            Some(n) => n,
            None => 0,
        }
    }
}

impl ContentLength {
    /// Reads a `Content-Length` value.
    pub fn try_from(value: &str) -> (r: Result<ContentLength, Error>)
        ensures
            match content_length_of(value@) {
                Ok(n) => r matches Ok(h) && h.wf() && h@ == n && h.text() == value@,
                Err(e) => r matches Err(x) && x@ == e,
            },
    {
        let digits = chars_of(value);
        match parse_number(&digits, 10) {
            Some(_) => Ok(ContentLength { length: String::from_str(value) }),
            None => Err(Error::InvalidContentLengthValue),
        }
    }
}

impl Header for ContentLength {
    open spec fn well_formed(&self) -> bool {
        self.wf()
    }

    open spec fn field_name(&self) -> Seq<char> {
        "content-length"@
    }

    open spec fn field_value(&self) -> Seq<char> {
        self.text()
    }

    fn name(&self) -> (r: &str) {
        "content-length"
    }

    fn value(&self) -> (r: String) {
        self.length.clone()
    }
}

} // verus!
