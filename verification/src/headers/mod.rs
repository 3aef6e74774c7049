//! The header store, and the headers that are known by type.

use crate::errors::{Error, ErrorView};
use crate::helpers::search::{find, lemma_find, split};
use crate::text::{
    blank, chars_of, collapse_blanks, field_text, find_text, is_blank, is_field_text, is_text,
    is_token_text, lemma_collapse_field_text, lower, same_text, slice, split_text, texts, to_lower,
    to_string, token_text, trim, trim_text,
};
use vstd::prelude::*;
use vstd::string::*;

pub mod accept;
pub mod content_length;
pub mod extension_header;
pub mod trailer;
pub mod transfer_encoding;

pub use accept::AcceptHeader;
pub use content_length::{content_length_of, ContentLength};
pub use extension_header::ExtensionHeader;
pub use trailer::{trailer_of, Trailer};
pub use transfer_encoding::{
    coding_name, codings_of, last_is_chunked, CodingView, TransferEncoding, TransferEncodingValue,
};

verus! {

/// A header field: its name, and its value as it is written on the wire.
pub trait Header {
    /// What the methods ask of the value they are called on.
    spec fn well_formed(&self) -> bool;

    /// The field name, in lower case.
    spec fn field_name(&self) -> Seq<char>;

    /// The field value.
    spec fn field_value(&self) -> Seq<char>;

    fn name(&self) -> (r: &str)
        requires
            self.well_formed(),
        ensures
            r@ == self.field_name(),
    ;

    fn value(&self) -> (r: String)
        requires
            self.well_formed(),
        ensures
            r@ == self.field_value(),
    ;

    /// The field as a line: its name, a colon, a space, its value.
    fn header_string(&self) -> (r: String)
        requires
            self.well_formed(),
        ensures
            r@ == self.field_name() + ": "@ + self.field_value(),
    {
        let mut line = String::from_str(self.name());
        line.append(": ");
        let value = self.value();
        line.append(value.as_str());
        line
    }
}

/// A header that applies to requests and responses alike.
pub trait GeneralHeader: Header {

}

/// A header of requests.
pub trait RequestHeader: Header {

}

/// A header of responses.
pub trait ResponseHeader: Header {

}

/// A header that describes the body.
pub trait EntityHeader: Header {

}

impl GeneralHeader for TransferEncoding {

}

impl GeneralHeader for Trailer {

}

impl EntityHeader for ContentLength {

}

impl EntityHeader for ExtensionHeader {

}

/// A header value, by its kind.
#[derive(Debug)]
pub enum HeaderValue {
    ContentLength(ContentLength),
    TransferEncoding(TransferEncoding),
    Trailer(Trailer),
    Extension(ExtensionHeader),
}

/// A header value as a mathematical value.
pub enum HeaderView {
    /// The announced number of bytes.
    ContentLength(nat),
    /// The codings, in order.
    TransferEncoding(Seq<CodingView>),
    /// The announced field names, in order.
    Trailer(Seq<Seq<char>>),
    /// The name and the value of a header that is not known by type.
    Extension(Seq<char>, Seq<char>),
}

impl View for HeaderValue {
    type V = HeaderView;

    open spec fn view(&self) -> HeaderView {
        match self {
            HeaderValue::ContentLength(h) => HeaderView::ContentLength(h@),
            HeaderValue::TransferEncoding(h) => HeaderView::TransferEncoding(h@),
            HeaderValue::Trailer(h) => HeaderView::Trailer(h@),
            HeaderValue::Extension(h) => HeaderView::Extension(h.field_name(), h.field_value()),
        }
    }
}

/// The name under which a header is stored.
pub open spec fn name_of(header: HeaderView) -> Seq<char> {
    match header {
        HeaderView::ContentLength(_) => "content-length"@,
        HeaderView::TransferEncoding(_) => "transfer-encoding"@,
        HeaderView::Trailer(_) => "trailer"@,
        HeaderView::Extension(name, _) => name,
    }
}

impl HeaderValue {
    /// What the methods ask of the value they are called on.
    pub open spec fn wf(&self) -> bool {
        match self {
            HeaderValue::ContentLength(h) => h.wf(),
            _ => true,
        }
    }

    /// The field name, in lower case.
    pub fn name(&self) -> (r: &str)
        requires
            self.wf(),
        ensures
            r@ == name_of(self@),
    {
        match self {
            HeaderValue::ContentLength(h) => h.name(),
            HeaderValue::TransferEncoding(h) => h.name(),
            HeaderValue::Trailer(h) => h.name(),
            HeaderValue::Extension(h) => h.name(),
        }
    }
}

/// True for the names of the headers that are known by type.
pub open spec fn valid_header_name(name: Seq<char>) -> bool {
    name == "transfer-encoding"@ || name == "content-length"@ || name == "trailer"@
}

pub fn is_valid_header_name(field_name: &str) -> (r: bool)
    ensures
        r == valid_header_name(field_name@),
{
    let name = chars_of(field_name);
    is_text(&name, "transfer-encoding") || is_text(&name, "content-length") || is_text(
        &name,
        "trailer",
    )
}

/// The header that a name and a value make: one of the kinds known by type
/// where the name is theirs, an extension otherwise.
pub open spec fn header_of(name: Seq<char>, value: Seq<char>) -> Result<HeaderView, ErrorView> {
    if name == "transfer-encoding"@ {
        Ok(HeaderView::TransferEncoding(codings_of(value)))
    } else if name == "content-length"@ {
        match content_length_of(value) {
            Ok(n) => Ok(HeaderView::ContentLength(n)),
            Err(e) => Err(e),
        }
    } else if name == "trailer"@ {
        match trailer_of(value) {
            Ok(names) => Ok(HeaderView::Trailer(names)),
            Err(e) => Err(e),
        }
    } else {
        Ok(HeaderView::Extension(name, value))
    }
}

/// What the error for a folded line carries before the line.
pub open spec fn folded_line_message() -> Seq<char> {
    "The line continuation with space or tab is not allowed:- "@
}

/// What the error for a line without colon carries before the line.
pub open spec fn missing_colon_message() -> Seq<char> {
    "The header field line does not contain colon:- "@
}

/// The header on one line of a header block. The line must not start with a
/// blank and must hold a colon. The name, left of the first colon and folded
/// to lower case, must be a token. The value, right of it, loses the blanks
/// around it, has its runs of blanks collapsed, and must then consist of
/// visible characters and blanks. A line with an empty value yields nothing.
pub open spec fn header_on_line(line: Seq<char>) -> Result<Option<HeaderView>, ErrorView> {
    if line.len() > 0 && blank(line[0]) {
        Err(ErrorView::InvalidHeaderFormat(folded_line_message() + line))
    } else {
        match find(line, seq![':']) {
            None => Err(ErrorView::InvalidHeaderFormat(missing_colon_message() + line)),
            Some(colon) => {
                let name = lower(line.take(colon));
                let value = collapse_blanks(trim(line.skip(colon + 1)));
                if name.len() == 0 || !token_text(name) {
                    Err(ErrorView::InvalidHeaderField(name))
                } else if !field_text(value) {
                    Err(ErrorView::InvalidHeaderFieldValue(value))
                } else if value.len() == 0 {
                    Ok(None)
                } else {
                    match header_of(name, value) {
                        Ok(header) => Ok(Some(header)),
                        Err(e) => Err(e),
                    }
                }
            },
        }
    }
}

/// The headers on the lines of a block, each stored under its name; of two
/// lines with one name the later one stays. Empty lines are passed over. The
/// first line that is not in order makes the whole block an error.
pub open spec fn headers_on_lines(lines: Seq<Seq<char>>) -> Result<
    Map<Seq<char>, HeaderView>,
    ErrorView,
>
    decreases lines.len(),
{
    if lines.len() == 0 {
        Ok(Map::empty())
    } else {
        match headers_on_lines(lines.drop_last()) {
            Err(e) => Err(e),
            Ok(headers) => if lines.last().len() == 0 {
                Ok(headers)
            } else {
                match header_on_line(lines.last()) {
                    Err(e) => Err(e),
                    Ok(None) => Ok(headers),
                    Ok(Some(header)) => Ok(headers.insert(name_of(header), header)),
                }
            },
        }
    }
}

/// The headers of a header block: the lines are what stands between the CR LF pairs.
pub open spec fn headers_of(block: Seq<char>) -> Result<Map<Seq<char>, HeaderView>, ErrorView> {
    headers_on_lines(split(block, seq!['\r', '\n']))
}

/// An error among the first lines is the error of the whole block.
pub proof fn lemma_headers_on_lines_error(lines: Seq<Seq<char>>, i: int)
    requires
        0 <= i <= lines.len(),
        headers_on_lines(lines.take(i)) is Err,
    ensures
        headers_on_lines(lines) == headers_on_lines(lines.take(i)),
    decreases lines.len() - i,
{
    if i == lines.len() {
        assert(lines.take(i) =~= lines);
    } else {
        assert(lines.take(i + 1).drop_last() =~= lines.take(i));
        lemma_headers_on_lines_error(lines, i + 1);
    }
}

/// Of two lines with one name the later one stays: a line with a header,
/// behind lines that are in order, stores its header under its name,
/// whatever was stored there.
pub proof fn lemma_last_line_wins(lines: Seq<Seq<char>>, line: Seq<char>)
    requires
        headers_on_lines(lines) is Ok,
        header_on_line(line) matches Ok(Some(_)),
    ensures
        headers_on_lines(lines.push(line)) matches Ok(headers) && headers.dom().contains(
            name_of(header_on_line(line)->Ok_0->0),
        ) && headers[name_of(header_on_line(line)->Ok_0->0)] == header_on_line(line)->Ok_0->0,
        headers_on_lines(lines.push(line)) == Ok::<Map<Seq<char>, HeaderView>, ErrorView>(
            headers_on_lines(lines)->Ok_0.insert(
                name_of(header_on_line(line)->Ok_0->0),
                header_on_line(line)->Ok_0->0,
            ),
        ),
{
    assert(lines.push(line).drop_last() =~= lines);
    assert(lines.push(line).last() == line);
    assert(line.len() > 0) by {
        lemma_find(line, seq![':']);
    }
}

/// Folding to lower case a second time changes nothing.
pub proof fn lemma_lower_twice(s: Seq<char>)
    ensures
        lower(lower(s)) == lower(s),
{
    assert(lower(lower(s)) =~= lower(s));
}

/// A header is stored under a name in lower case.
pub proof fn lemma_header_on_line_name(line: Seq<char>)
    requires
        header_on_line(line) matches Ok(Some(_)),
    ensures
        lower(name_of(header_on_line(line)->Ok_0->0)) == name_of(header_on_line(line)->Ok_0->0),
{
    lemma_lower_of_lower_case_names();
    let colon = find(line, seq![':'])->0;
    lemma_lower_twice(line.take(colon));
}

/// Every name in the headers of a block is in lower case.
pub proof fn lemma_header_names_lower_case(lines: Seq<Seq<char>>)
    requires
        headers_on_lines(lines) is Ok,
    ensures
        forall|name: Seq<char>| #[trigger]
            headers_on_lines(lines)->Ok_0.dom().contains(name) ==> lower(name) == name,
    decreases lines.len(),
{
    if lines.len() > 0 {
        lemma_header_names_lower_case(lines.drop_last());
        if lines.last().len() > 0 {
            match header_on_line(lines.last()) {
                Ok(Some(header)) => {
                    lemma_header_on_line_name(lines.last());
                },
                _ => {},
            }
        }
    }
}

/// The views of the headers in a vector.
pub open spec fn header_views(v: Seq<HeaderValue>) -> Seq<HeaderView> {
    v.map_values(|h: HeaderValue| h@)
}

/// The map that a list of headers makes, a later one replacing an earlier
/// one of the same name.
pub open spec fn store_of(entries: Seq<HeaderView>) -> Map<Seq<char>, HeaderView>
    decreases entries.len(),
{
    if entries.len() == 0 {
        Map::empty()
    } else {
        store_of(entries.drop_last()).insert(name_of(entries.last()), entries.last())
    }
}

/// No two entries have the same name.
pub open spec fn distinct_names(entries: Seq<HeaderView>) -> bool {
    forall|i: int, j: int|
        0 <= i < j < entries.len() ==> name_of(#[trigger] entries[i]) != name_of(
            #[trigger] entries[j],
        )
}

/// The names in the map are those of the entries, and where names are
/// distinct each entry is what the map holds under its name.
pub proof fn lemma_store_of(entries: Seq<HeaderView>)
    ensures
        forall|name: Seq<char>| #[trigger]
            store_of(entries).dom().contains(name) <==> exists|i: int|
                0 <= i < entries.len() && name_of(#[trigger] entries[i]) == name,
        distinct_names(entries) ==> forall|i: int|
            0 <= i < entries.len() ==> store_of(entries)[name_of(#[trigger] entries[i])]
                == entries[i],
    decreases entries.len(),
{
    if entries.len() > 0 {
        let front = entries.drop_last();
        lemma_store_of(front);
        assert forall|name: Seq<char>| #[trigger]
            store_of(entries).dom().contains(name) <==> exists|i: int|
                0 <= i < entries.len() && name_of(#[trigger] entries[i]) == name by {
            if store_of(entries).dom().contains(name) {
                if name == name_of(entries.last()) {
                    assert(name_of(entries[entries.len() - 1]) == name);
                } else {
                    assert(store_of(front).dom().contains(name));
                    let i = choose|i: int|
                        0 <= i < front.len() && name_of(#[trigger] front[i]) == name;
                    assert(name_of(entries[i]) == name);
                }
            }
            if exists|i: int| 0 <= i < entries.len() && name_of(#[trigger] entries[i]) == name {
                let i = choose|i: int|
                    0 <= i < entries.len() && name_of(#[trigger] entries[i]) == name;
                if i < front.len() {
                    assert(name_of(front[i]) == name);
                    assert(store_of(front).dom().contains(name));
                }
            }
        }
        if distinct_names(entries) {
            assert(distinct_names(front)) by {
                assert forall|i: int, j: int| 0 <= i < j < front.len() implies name_of(
                    #[trigger] front[i],
                ) != name_of(#[trigger] front[j]) by {
                    assert(front[i] == entries[i] && front[j] == entries[j]);
                }
            }
            assert forall|i: int| 0 <= i < entries.len() implies store_of(entries)[name_of(
                #[trigger] entries[i],
            )] == entries[i] by {
                if i < front.len() {
                    assert(front[i] == entries[i]);
                    assert(name_of(entries[i]) != name_of(entries[entries.len() - 1]));
                }
            }
        }
    }
}

/// Where names are distinct, the map holds as many headers as the list.
pub proof fn lemma_store_of_len(entries: Seq<HeaderView>)
    requires
        distinct_names(entries),
    ensures
        store_of(entries).dom().finite(),
        store_of(entries).dom().len() == entries.len(),
    decreases entries.len(),
{
    if entries.len() > 0 {
        let front = entries.drop_last();
        assert(distinct_names(front)) by {
            assert forall|i: int, j: int| 0 <= i < j < front.len() implies name_of(
                #[trigger] front[i],
            ) != name_of(#[trigger] front[j]) by {
                assert(front[i] == entries[i] && front[j] == entries[j]);
            }
        }
        lemma_store_of_len(front);
        lemma_store_of(front);
        let name = name_of(entries.last());
        assert(!store_of(front).dom().contains(name)) by {
            if store_of(front).dom().contains(name) {
                let i = choose|i: int| 0 <= i < front.len() && name_of(#[trigger] front[i]) == name;
                assert(front[i] == entries[i]);
                assert(name_of(entries[i]) != name_of(entries[entries.len() - 1]));
            }
        }
        assert(store_of(entries).dom() =~= store_of(front).dom().insert(name));
    }
}

/// Putting a header in the place of one with the same name is storing it.
pub proof fn lemma_store_of_update(entries: Seq<HeaderView>, i: int, header: HeaderView)
    requires
        0 <= i < entries.len(),
        distinct_names(entries),
        name_of(entries[i]) == name_of(header),
    ensures
        store_of(entries.update(i, header)) == store_of(entries).insert(name_of(header), header),
        distinct_names(entries.update(i, header)),
    decreases entries.len(),
{
    let changed = entries.update(i, header);
    let front = entries.drop_last();
    assert forall|a: int, b: int| 0 <= a < b < changed.len() implies name_of(
        #[trigger] changed[a],
    ) != name_of(#[trigger] changed[b]) by {
        assert(name_of(changed[a]) == name_of(entries[a]));
        assert(name_of(changed[b]) == name_of(entries[b]));
    }
    if i == entries.len() - 1 {
        assert(changed.drop_last() =~= front);
        assert(store_of(changed) =~= store_of(entries).insert(name_of(header), header));
    } else {
        assert(distinct_names(front)) by {
            assert forall|a: int, b: int| 0 <= a < b < front.len() implies name_of(
                #[trigger] front[a],
            ) != name_of(#[trigger] front[b]) by {
                assert(front[a] == entries[a] && front[b] == entries[b]);
            }
        }
        assert(front[i] == entries[i]);
        lemma_store_of_update(front, i, header);
        assert(changed.drop_last() =~= front.update(i, header));
        assert(changed.last() == entries.last());
        assert(name_of(entries[i]) != name_of(entries[entries.len() - 1]));
        assert(store_of(changed) =~= store_of(entries).insert(name_of(header), header));
    }
}

/// The number of headers for which a vector has room.
///
/// Trusted: the body calls `Vec::capacity`, the number of elements that the
/// vector can hold without allocating again. How large it is is the
/// allocator's matter; the contract claims only that the elements which the
/// vector holds are among those that it has room for.
#[verifier::external_body]
fn room_of(headers: &Vec<HeaderValue>) -> (r: usize)
    ensures
        r >= headers@.len(),
{
    headers.capacity()
}

/// The headers of a message, each under its lower-case name.
#[derive(Debug)]
pub struct Headers {
    headers: Vec<HeaderValue>,
}

impl View for Headers {
    type V = Map<Seq<char>, HeaderView>;

    closed spec fn view(&self) -> Map<Seq<char>, HeaderView> {
        store_of(header_views(self.headers@))
    }
}

impl Headers {
    /// No name is stored twice, and every stored header is in order.
    pub closed spec fn wf(&self) -> bool {
        &&& distinct_names(header_views(self.headers@))
        &&& forall|i: int| 0 <= i < self.headers@.len() ==> (#[trigger] self.headers@[i]).wf()
    }

    /// The number of stored headers.
    pub closed spec fn count(&self) -> nat {
        self.headers@.len()
    }

    /// A well-formed store holds one header for each name.
    pub proof fn lemma_count(&self)
        requires
            self.wf(),
        ensures
            self@.dom().finite(),
            self@.dom().len() == self.count(),
    {
        lemma_store_of_len(header_views(self.headers@));
    }

    /// A store without headers.
    pub fn new() -> (r: Headers)
        ensures
            r.wf(),
            r@ == Map::<Seq<char>, HeaderView>::empty(),
            r.count() == 0,
    {
        let r = Headers { headers: Vec::new() };
        assert(header_views(r.headers@) =~= Seq::<HeaderView>::empty());
        r
    }

    /// The number of stored headers, which is the number of their names.
    pub fn len(&self) -> (r: usize)
        requires
            self.wf(),
        ensures
            r == self.count(),
            r == self@.dom().len(),
    {
        proof {
            self.lemma_count();
        }
        self.headers.len()
    }

    /// The number of headers for which the store has room before it grows:
    /// at least as many as it holds.
    pub fn capacity(&self) -> (r: usize)
        ensures
            r >= self.count(),
    {
        room_of(&self.headers)
    }

    /// The index at which a header of the given name is stored.
    fn position(&self, name: &Vec<char>) -> (r: Option<usize>)
        requires
            self.wf(),
        ensures
            match r {
                Some(i) => i < self.headers@.len() && name_of(self.headers@[i as int]@) == name@,
                None => forall|i: int|
                    0 <= i < self.headers@.len() ==> name_of(#[trigger] self.headers@[i]@)
                        != name@,
            },
    {
        let mut i: usize = 0;
        while i < self.headers.len()
            invariant
                self.wf(),
                i <= self.headers.len(),
                forall|j: int| 0 <= j < i ==> name_of(#[trigger] self.headers@[j]@) != name@,
            decreases self.headers.len() - i,
        {
            let stored = chars_of(self.headers[i].name());
            if same_text(&stored, name) {
                return Some(i);
            }
            i += 1;
        }
        None
    }

    /// Stores a header under its name, in the place of an earlier one of that
    /// name where there is one.
    pub fn insert(&mut self, header: HeaderValue)
        requires
            old(self).wf(),
            header.wf(),
        ensures
            final(self).wf(),
            final(self)@ == old(self)@.insert(name_of(header@), header@),
    {
        let name = chars_of(header.name());
        let ghost before = header_views(self.headers@);
        match self.position(&name) {
            Some(i) => {
                self.headers.set(i, header);
                proof {
                    assert(header_views(self.headers@) =~= before.update(i as int, header@));
                    assert(before[i as int] == old(self).headers@[i as int]@);
                    lemma_store_of_update(before, i as int, header@);
                }
            },
            None => {
                self.headers.push(header);
                proof {
                    let after = header_views(self.headers@);
                    assert(after =~= before.push(header@));
                    assert(after.drop_last() =~= before);
                    assert forall|a: int, b: int| 0 <= a < b < after.len() implies name_of(
                        #[trigger] after[a],
                    ) != name_of(#[trigger] after[b]) by {
                        assert(after[a] == old(self).headers@[a]@);
                        if b < before.len() {
                            assert(after[b] == before[b]);
                        }
                    }
                }
            },
        }
    }

    /// The header stored under `name`, which is compared without regard to
    /// the case of its letters.
    pub fn get(&self, name: &str) -> (r: Option<&HeaderValue>)
        requires
            self.wf(),
        ensures
            match r {
                Some(h) => self@.dom().contains(lower(name@)) && h@ == self@[lower(name@)] && h.wf(),
                None => !self@.dom().contains(lower(name@)),
            },
    {
        let wanted = chars_of(name);
        let wanted = to_lower(&wanted);
        proof {
            lemma_store_of(header_views(self.headers@));
        }
        match self.position(&wanted) {
            Some(i) => {
                assert(header_views(self.headers@)[i as int] == self.headers@[i as int]@);
                Some(&self.headers[i])
            },
            None => {
                assert forall|i: int| 0 <= i < header_views(self.headers@).len() implies name_of(
                    #[trigger] header_views(self.headers@)[i],
                ) != wanted@ by {
                    assert(header_views(self.headers@)[i] == self.headers@[i]@);
                }
                None
            },
        }
    }

    /// The `Transfer-Encoding` header.
    pub fn transfer_encoding(&self) -> (r: Option<&TransferEncoding>)
        requires
            self.wf(),
        ensures
            match r {
                Some(h) => self@.dom().contains("transfer-encoding"@) && self@["transfer-encoding"@]
                    == HeaderView::TransferEncoding(h@),
                None => !(self@.dom().contains("transfer-encoding"@)
                    && self@["transfer-encoding"@] is TransferEncoding),
            },
    {
        proof {
            lemma_lower_of_lower_case_names();
        }
        match self.get("transfer-encoding") {
            Some(HeaderValue::TransferEncoding(h)) => Some(h),
            _ => None,
        }
    }

    /// The `Content-Length` header.
    pub fn content_length(&self) -> (r: Option<&ContentLength>)
        requires
            self.wf(),
        ensures
            match r {
                Some(h) => h.wf() && self@.dom().contains("content-length"@)
                    && self@["content-length"@] == HeaderView::ContentLength(h@),
                None => !(self@.dom().contains("content-length"@) && self@["content-length"@]
                    is ContentLength),
            },
    {
        proof {
            lemma_lower_of_lower_case_names();
        }
        match self.get("content-length") {
            Some(HeaderValue::ContentLength(h)) => Some(h),
            _ => None,
        }
    }

    /// The `Trailer` header.
    pub fn trailer(&self) -> (r: Option<&Trailer>)
        requires
            self.wf(),
        ensures
            match r {
                Some(h) => self@.dom().contains("trailer"@) && self@["trailer"@]
                    == HeaderView::Trailer(h@),
                None => !(self@.dom().contains("trailer"@) && self@["trailer"@] is Trailer),
            },
    {
        proof {
            lemma_lower_of_lower_case_names();
        }
        match self.get("trailer") {
            Some(HeaderValue::Trailer(h)) => Some(h),
            _ => None,
        }
    }

    /// The header that a name and a value make, or nothing for an empty value.
    pub fn get_header_struct(name: &str, value: &str) -> (r: Result<Option<HeaderValue>, Error>)
        ensures
            value@.len() == 0 ==> r matches Ok(None),
            value@.len() > 0 ==> match header_of(name@, value@) {
                Ok(header) => r matches Ok(Some(h)) && h@ == header && h.wf(),
                Err(e) => r matches Err(x) && x@ == e,
            },
    {
        let text = chars_of(value);
        if text.len() == 0 {
            return Ok(None);
        }
        let field = chars_of(name);
        if is_text(&field, "transfer-encoding") {
            match TransferEncoding::try_from(value) {
                Ok(header) => Ok(Some(HeaderValue::TransferEncoding(header))),
                Err(e) => Err(e),
            }
        } else if is_text(&field, "content-length") {
            match ContentLength::try_from(value) {
                Ok(header) => Ok(Some(HeaderValue::ContentLength(header))),
                Err(e) => Err(e),
            }
        } else if is_text(&field, "trailer") {
            match Trailer::try_from(value) {
                Ok(header) => Ok(Some(HeaderValue::Trailer(header))),
                Err(e) => Err(e),
            }
        } else {
            Ok(Some(HeaderValue::Extension(ExtensionHeader::new(name, value))))
        }
    }

    /// Reads one line of a header block.
    fn parse_line(line: &Vec<char>) -> (r: Result<Option<HeaderValue>, Error>)
        ensures
            match header_on_line(line@) {
                Ok(Some(header)) => r matches Ok(Some(h)) && h@ == header && h.wf(),
                Ok(None) => r matches Ok(None),
                Err(e) => r matches Err(x) && x@ == e,
            },
    {
        if is_continued_field(line) {
            let mut message = String::from_str(
                "The line continuation with space or tab is not allowed:- ",
            );
            let part = to_string(line);
            message.append(part.as_str());
            return Err(Error::InvalidHeaderFormat(message));
        }
        let colon: Vec<char> = vec![':'];
        assert(colon@ =~= seq![':']);
        let colon_index = match find_text(line, &colon, 0) {
            None => {
                let mut message = String::from_str(
                    "The header field line does not contain colon:- ",
                );
                let part = to_string(line);
                message.append(part.as_str());
                return Err(Error::InvalidHeaderFormat(message));
            },
            Some(k) => k,
        };
        proof {
            lemma_find(line@, colon@);
        }
        assert(colon_index + 1 <= line@.len() == line.len());
        let name = slice(line, 0, colon_index);
        let name = to_lower(&name);
        let value = slice(line, colon_index + 1, line.len());
        let value = trim_text(&value);
        let raw = to_string(&value);
        let value_text = crate::grammar::replace_white_space(raw.as_str());
        let name_text = to_string(&name);
        if name.len() == 0 || !is_token_text(&name) {
            return Err(Error::InvalidHeaderField(name_text));
        }
        proof {
            lemma_collapse_field_text(value@, false);
        }
        if !is_field_text(&value) {
            return Err(Error::InvalidHeaderFieldValue(value_text));
        }
        Headers::get_header_struct(name_text.as_str(), value_text.as_str())
    }

    /// Reads a header block.
    pub fn try_from(value: String) -> (r: Result<Headers, Error>)
        ensures
            match headers_of(value@) {
                Ok(headers) => r matches Ok(h) && h@ == headers && h.wf(),
                Err(e) => r matches Err(x) && x@ == e,
            },
    {
        let block = chars_of(value.as_str());
        let line_end: Vec<char> = vec!['\r', '\n'];
        assert(line_end@ =~= seq!['\r', '\n']);
        let parts = split_text(&block, &line_end);
        let ghost lines = split(value@, seq!['\r', '\n']);
        let mut headers = Headers::new();
        let mut i: usize = 0;
        assert(lines.take(0) =~= Seq::<Seq<char>>::empty());
        while i < parts.len()
            invariant
                i <= parts.len(),
                texts(parts@) == lines,
                lines == split(value@, seq!['\r', '\n']),
                headers.wf(),
                headers_on_lines(lines.take(i as int)) == Ok::<
                    Map<Seq<char>, HeaderView>,
                    ErrorView,
                >(headers@),
            decreases parts.len() - i,
        {
            let part = &parts[i];
            assert(lines[i as int] == parts@[i as int]@);
            assert(lines.take(i + 1).drop_last() =~= lines.take(i as int));
            assert(lines.take(i + 1).last() == lines[i as int]);
            if part.len() > 0 {
                match Headers::parse_line(part) {
                    Err(e) => {
                        proof {
                            assert(headers_on_lines(lines.take(i + 1)) == Err::<
                                Map<Seq<char>, HeaderView>,
                                ErrorView,
                            >(e@));
                            lemma_headers_on_lines_error(lines, i + 1);
                        }
                        return Err(e);
                    },
                    Ok(None) => {},
                    Ok(Some(header)) => {
                        headers.insert(header);
                    },
                }
            }
            i += 1;
        }
        assert(lines.take(i as int) =~= lines);
        Ok(headers)
    }
}

/// The names of the headers known by type are in lower case already.
pub proof fn lemma_lower_of_lower_case_names()
    ensures
        lower("transfer-encoding"@) == "transfer-encoding"@,
        lower("content-length"@) == "content-length"@,
        lower("trailer"@) == "trailer"@,
{
    reveal_strlit("transfer-encoding");
    reveal_strlit("content-length");
    reveal_strlit("trailer");
    assert(lower("transfer-encoding"@) =~= "transfer-encoding"@);
    assert(lower("content-length"@) =~= "content-length"@);
    assert(lower("trailer"@) =~= "trailer"@);
}

/// True when the line starts with SP or HT, as a folded line does.
pub fn is_continued_field(field: &Vec<char>) -> (r: bool)
    ensures
        r == (field@.len() > 0 && blank(field@[0])),
{
    field.len() > 0 && is_blank(field[0])
}

} // verus!
