//! The `Transfer-Encoding` header.

use crate::errors::Error;
use crate::headers::Header;
use crate::text::join;
use crate::helpers::search::split;
use crate::text::{chars_of, is_text, lower, split_text, texts, to_lower, to_string, trim, trim_text};
use vstd::prelude::*;
use vstd::string::*;

verus! {

/// One transfer coding.
#[derive(Debug)]
pub enum TransferEncodingValue {
    Chunked,
    Extension(String),
}

/// A transfer coding as a mathematical value.
pub enum CodingView {
    Chunked,
    Extension(Seq<char>),
}

impl View for TransferEncodingValue {
    type V = CodingView;

    open spec fn view(&self) -> CodingView {
        match self {
            TransferEncodingValue::Chunked => CodingView::Chunked,
            TransferEncodingValue::Extension(s) => CodingView::Extension(s@),
        }
    }
}

/// The coding that a name stands for: `chunked` in any case of its letters,
/// or else an extension under the name as it was written.
pub open spec fn coding_of(name: Seq<char>) -> CodingView {
    if lower(name) == "chunked"@ {
        CodingView::Chunked
    } else {
        CodingView::Extension(name)
    }
}

/// The name under which a coding is written.
pub open spec fn coding_name(coding: CodingView) -> Seq<char> {
    match coding {
        CodingView::Chunked => "chunked"@,
        CodingView::Extension(s) => s,
    }
}

/// The codings of a `Transfer-Encoding` value: its comma-separated elements,
/// each without the blanks around it.
pub open spec fn codings_of(value: Seq<char>) -> Seq<CodingView> {
    split(value, seq![',']).map_values(|part: Seq<char>| coding_of(trim(part)))
}

/// The views of the codings in a vector.
pub open spec fn coding_views(v: Seq<TransferEncodingValue>) -> Seq<CodingView> {
    v.map_values(|c: TransferEncodingValue| c@)
}

impl TransferEncodingValue {
    pub fn from(value: &str) -> (r: TransferEncodingValue)
        ensures
            r@ == coding_of(value@),
    {
        let name = chars_of(value);
        let folded = to_lower(&name);
        if is_text(&folded, "chunked") {
            TransferEncodingValue::Chunked
        } else {
            TransferEncodingValue::Extension(String::from_str(value))
        }
    }

    pub fn to_string(&self) -> (r: String)
        ensures
            r@ == coding_name(self@),
    {
        match self {
            TransferEncodingValue::Chunked => String::from_str("chunked"),
            TransferEncodingValue::Extension(s) => s.clone(),
        }
    }
}

/// The transfer codings of a message, in the order in which they were applied.
#[derive(Debug)]
pub struct TransferEncoding {
    encodings: Vec<TransferEncodingValue>,
}

impl View for TransferEncoding {
    type V = Seq<CodingView>;

    closed spec fn view(&self) -> Seq<CodingView> {
        coding_views(self.encodings@)
    }
}

/// True when the last of the codings is `chunked`.
pub open spec fn last_is_chunked(codings: Seq<CodingView>) -> bool {
    codings.len() > 0 && codings.last() is Chunked
}

impl TransferEncoding {
    /// Check if the final encoding is chunked or not
    pub fn is_chunked(&self) -> (r: bool)
        ensures
            r == last_is_chunked(self@),
    {
        if !self.has_transfer_encoding() {
            return false;
        }
        let last_encoding = &self.encodings[self.encodings.len() - 1];
        match last_encoding {
            TransferEncodingValue::Chunked => true,
            _ => false,
        }
    }

    pub fn has_transfer_encoding(&self) -> (r: bool)
        ensures
            r == (self@.len() > 0),
    {
        self.encodings.len() > 0
    }

    /// A header without any coding.
    pub fn clone() -> (r: TransferEncoding)
        ensures
            r@ == Seq::<CodingView>::empty(),
    {
        let r = TransferEncoding { encodings: Vec::new() };
        assert(r@ =~= Seq::<CodingView>::empty());
        r
    }

    /// Reads a `Transfer-Encoding` value. Every value is one.
    pub fn try_from(value: &str) -> (r: Result<TransferEncoding, Error>)
        ensures
            r matches Ok(header) && header@ == codings_of(value@),
    {
        let text = chars_of(value);
        let comma: Vec<char> = vec![','];
        assert(comma@ =~= seq![',']);
        let parts = split_text(&text, &comma);
        let mut encodings: Vec<TransferEncodingValue> = Vec::new();
        let mut i: usize = 0;
        while i < parts.len()
            invariant
                i <= parts.len(),
                texts(parts@) == split(value@, seq![',']),
                coding_views(encodings@) == codings_of(value@).take(i as int),
            decreases parts.len() - i,
        {
            let name = trim_text(&parts[i]);
            let name = to_string(&name);
            let coding = TransferEncodingValue::from(name.as_str());
            assert(texts(parts@)[i as int] == parts@[i as int]@);
            let ghost before = coding_views(encodings@);
            encodings.push(coding);
            i += 1;
            assert(coding_views(encodings@) =~= before.push(coding@));
            assert(coding_views(encodings@) =~= codings_of(value@).take(i as int));
        }
        assert(codings_of(value@).take(i as int) =~= codings_of(value@));
        Ok(TransferEncoding { encodings })
    }

    /// The names of the codings.
    fn names(&self) -> (r: Vec<String>)
        ensures
            crate::text::string_views(r@) == self@.map_values(|c: CodingView| coding_name(c)),
    {
        let mut list: Vec<String> = Vec::new();
        let mut i: usize = 0;
        let ghost all = self@.map_values(|c: CodingView| coding_name(c));
        while i < self.encodings.len()
            invariant
                i <= self.encodings.len(),
                all == self@.map_values(|c: CodingView| coding_name(c)),
                crate::text::string_views(list@) == all.take(i as int),
            decreases self.encodings.len() - i,
        {
            let name = self.encodings[i].to_string();
            let ghost before = crate::text::string_views(list@);
            list.push(name);
            i += 1;
            assert(crate::text::string_views(list@) =~= before.push(name@));
            assert(crate::text::string_views(list@) =~= all.take(i as int));
        }
        assert(all.take(i as int) =~= all);
        list
    }
}

impl Header for TransferEncoding {
    open spec fn well_formed(&self) -> bool {
        true
    }

    open spec fn field_name(&self) -> Seq<char> {
        "transfer-encoding"@
    }

    open spec fn field_value(&self) -> Seq<char> {
        join(self@.map_values(|c: CodingView| coding_name(c)), ", "@)
    }

    fn name(&self) -> (r: &str) {
        "transfer-encoding"
    }

    fn value(&self) -> (r: String) {
        let list = self.names();
        crate::text::join_strings(&list, ", ")
    }
}

} // verus!
