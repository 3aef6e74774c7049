//! The target of a request.

use crate::errors::{Error, ErrorView};
use crate::text::utf8_text;
use vstd::prelude::*;
use vstd::string::*;
use vstd::utf8::{decode_utf8, valid_utf8};

verus! {

/// The target of a request, as it stands on the request line. It is held as
/// text and not looked into.
#[derive(Debug)]
pub struct RequestUri {
    uri: String,
}

impl View for RequestUri {
    type V = Seq<char>;

    closed spec fn view(&self) -> Seq<char> {
        self.uri@
    }
}

/// The target that a text makes: any text but the empty one.
pub open spec fn target_of(text: Seq<char>) -> Result<Seq<char>, ErrorView> {
    if text.len() == 0 {
        Err(ErrorView::InvalidUri)
    } else {
        Ok(text)
    }
}

impl RequestUri {
    pub fn uri(&self) -> (r: &String)
        ensures
            r@ == self@,
    {
        &self.uri
    }

    /// Makes a target of a text.
    pub fn try_from(v: String) -> (r: Result<RequestUri, Error>)
        ensures
            match target_of(v@) {
                Ok(target) => r matches Ok(uri) && uri@ == target,
                Err(e) => r matches Err(x) && x@ == e,
            },
    {
        if v.as_str().unicode_len() == 0 {
            Err(Error::InvalidUri)
        } else {
            Ok(RequestUri { uri: v })
        }
    }

    /// Makes a target of bytes that are UTF-8 text.
    pub fn from_vector(v: Vec<u8>) -> (r: RequestUri)
        requires
            valid_utf8(v@),
        ensures
            r@ == decode_utf8(v@),
    {
        match utf8_text(v) {
            Ok(uri) => RequestUri { uri },
            Err(_) => RequestUri { uri: String::new() },
        }
    }
}

} // verus!
