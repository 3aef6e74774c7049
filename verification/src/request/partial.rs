//! Reading the method and the target of a request line from buffers that
//! each hold a piece of it. A field that is cut at the end of a buffer is
//! kept, and completed from the next one.

use crate::errors::Error;
use crate::grammar::{is_token_char, token_char, token_octets};
use crate::helpers::bytes::Bytes;
use crate::request::request_builder::{method_named, HttpMethods, HttpMethodsView, HttpVersion};
use crate::request::request_uri::RequestUri;
use crate::text::{is_utf8, lemma_ascii_is_utf8, lower};
use vstd::prelude::*;
use vstd::slice::slice_to_vec;
use vstd::utf8::{decode_utf8, valid_utf8};

verus! {

/// A piece of a request line.
#[derive(Debug)]
pub enum PartialRequest {
    /// The start of a method, cut at the end of a buffer.
    Method(Vec<u8>),
    /// The start of a target, cut at the end of a buffer.
    RequestUri(Vec<u8>),
    /// The start of a version, cut at the end of a buffer.
    HttpVersion(Vec<u8>),
    /// A field that the end of the buffer has cut.
    Token(Vec<u8>),
    /// A field that a space has ended.
    Complete(Vec<u8>),
    /// Nothing.
    Uninit,
}

/// A [`PartialRequest`] as a mathematical value.
pub enum PartialRequestView {
    Method(Seq<u8>),
    RequestUri(Seq<u8>),
    HttpVersion(Seq<u8>),
    Token(Seq<u8>),
    Complete(Seq<u8>),
    Uninit,
}

impl View for PartialRequest {
    type V = PartialRequestView;

    open spec fn view(&self) -> PartialRequestView {
        match self {
            PartialRequest::Method(v) => PartialRequestView::Method(v@),
            PartialRequest::RequestUri(v) => PartialRequestView::RequestUri(v@),
            PartialRequest::HttpVersion(v) => PartialRequestView::HttpVersion(v@),
            PartialRequest::Token(v) => PartialRequestView::Token(v@),
            PartialRequest::Complete(v) => PartialRequestView::Complete(v@),
            PartialRequest::Uninit => PartialRequestView::Uninit,
        }
    }
}

impl PartialRequest {
    pub fn is_complete(&self) -> (r: bool)
        ensures
            r == (self@ is Complete),
    {
        match self {
            PartialRequest::Complete(_) => true,
            _ => false,
        }
    }

    pub fn is_uninit(&self) -> (r: bool)
        ensures
            r == (self@ is Uninit),
    {
        match self {
            PartialRequest::Uninit => true,
            _ => false,
        }
    }

    /// True for a piece that waits for its rest.
    pub fn has_partial(&self) -> (r: bool)
        ensures
            r == !(self@ is Complete || self@ is Uninit),
    {
        !(self.is_complete() || self.is_uninit())
    }
}

/// Where a field ends.
pub enum FieldEnd {
    /// At the space at this index.
    Space(int),
    /// At the end of the buffer: the field is cut.
    End,
    /// Nowhere: the byte at this index cannot stand in the field.
    Invalid(int),
}

/// Where the token ends that starts at index `i`.
pub open spec fn token_end(s: Seq<u8>, i: int) -> FieldEnd
    decreases s.len() - i,
{
    if i < 0 || i >= s.len() {
        FieldEnd::End
    } else if s[i] == 32 {
        FieldEnd::Space(i)
    } else if !token_char(s[i]) {
        FieldEnd::Invalid(i)
    } else {
        token_end(s, i + 1)
    }
}

/// Where the target ends that starts at index `i`: at the first space.
pub open spec fn target_end(s: Seq<u8>, i: int) -> FieldEnd
    decreases s.len() - i,
{
    if i < 0 || i >= s.len() {
        FieldEnd::End
    } else if s[i] == 32 {
        FieldEnd::Space(i)
    } else {
        target_end(s, i + 1)
    }
}

/// The index behind the empty lines that start at index `i`, or `None`
/// where a CR among them is not followed by LF.
pub open spec fn empty_lines_end(s: Seq<u8>, i: int) -> Option<int>
    decreases s.len() - i,
{
    if i < 0 || i >= s.len() {
        Some(i)
    } else if s[i] == 10 {
        empty_lines_end(s, i + 1)
    } else if s[i] == 13 {
        if i + 1 < s.len() && s[i + 1] == 10 {
            empty_lines_end(s, i + 2)
        } else {
            None
        }
    } else {
        Some(i)
    }
}

/// A token ends behind where it starts, within the buffer, and all of its
/// bytes are token characters.
pub proof fn lemma_token_end(s: Seq<u8>, i: int)
    requires
        0 <= i <= s.len(),
    ensures
        token_end(s, i) matches FieldEnd::Space(k) ==> i <= k < s.len() && token_octets(
            s.subrange(i, k),
        ),
        token_end(s, i) matches FieldEnd::Invalid(k) ==> i <= k < s.len(),
        token_end(s, i) is End ==> token_octets(s.skip(i)),
    decreases s.len() - i,
{
    if i >= s.len() {
    } else if s[i] == 32 {
    } else if !token_char(s[i]) {
    } else {
        lemma_token_end(s, i + 1);
        match token_end(s, i) {
            FieldEnd::Space(k) => {
                let field = s.subrange(i, k);
                assert forall|j: int| 0 <= j < field.len() implies token_char(
                    #[trigger] field[j],
                ) by {
                    if j > 0 {
                        assert(field[j] == s.subrange(i + 1, k)[j - 1]);
                    }
                }
            },
            FieldEnd::End => {
                let field = s.skip(i);
                assert forall|j: int| 0 <= j < field.len() implies token_char(
                    #[trigger] field[j],
                ) by {
                    if j > 0 {
                        assert(field[j] == s.skip(i + 1)[j - 1]);
                    }
                }
            },
            _ => {},
        }
    }
}

/// A target ends behind where it starts, within the buffer.
pub proof fn lemma_target_end(s: Seq<u8>, i: int)
    requires
        0 <= i <= s.len(),
    ensures
        target_end(s, i) matches FieldEnd::Space(k) ==> i <= k < s.len(),
        !(target_end(s, i) is Invalid),
    decreases s.len() - i,
{
    if i < s.len() && s[i] != 32 {
        lemma_target_end(s, i + 1);
    }
}

/// Token characters are US-ASCII, so bytes that are token characters are text.
pub proof fn lemma_token_octets_are_text(bytes: Seq<u8>)
    requires
        token_octets(bytes),
    ensures
        valid_utf8(bytes),
{
    assert forall|i: int| 0 <= i < bytes.len() implies #[trigger] bytes[i] < 128 by {
        assert(token_char(bytes[i]));
    }
    lemma_ascii_is_utf8(bytes);
}

/// True when the empty lines under the cursor are whole: every CR among
/// them is followed by LF.
pub fn can_skip_initial_crlf(bytes: &Bytes) -> (r: bool)
    requires
        bytes.wf(),
    ensures
        r == (empty_lines_end(bytes@, bytes.cursor() as int) is Some),
{
    proof {
        bytes.lemma_wf();
    }
    let len = bytes.len();
    let mut i: usize = bytes.current_pos();
    while i < len
        invariant
            bytes.wf(),
            len == bytes@.len(),
            i <= len,
            empty_lines_end(bytes@, i as int) == empty_lines_end(bytes@, bytes.cursor() as int),
        decreases len - i,
    {
        let byte = bytes.get(i);
        if byte == Some(10) {
            i += 1;
        } else if byte == Some(13) {
            if i + 1 < len && bytes.get(i + 1) == Some(10) {
                i += 2;
            } else {
                return false;
            }
        } else {
            return true;
        }
    }
    true
}

/// Steps over the empty lines under the cursor.
pub fn skip_initial_crlf(bytes: &mut Bytes)
    requires
        old(bytes).wf(),
        empty_lines_end(old(bytes)@, old(bytes).cursor() as int) is Some,
    ensures
        final(bytes).wf(),
        final(bytes)@ == old(bytes)@,
        final(bytes).cursor() == empty_lines_end(old(bytes)@, old(bytes).cursor() as int)->0,
{
    loop
        invariant
            bytes.wf(),
            bytes@ == old(bytes)@,
            empty_lines_end(bytes@, bytes.cursor() as int) == empty_lines_end(
                old(bytes)@,
                old(bytes).cursor() as int,
            ),
            empty_lines_end(bytes@, bytes.cursor() as int) is Some,
        decreases bytes@.len() - bytes.cursor(),
    {
        let byte = bytes.peek();
        match byte {
            Some(b) => {
                if b == 13 {
                    bytes.bump();
                    bytes.bump();
                } else if b == 10 {
                    bytes.bump();
                } else {
                    return ;
                }
            },
            None => {
                return ;
            },
        }
    }
}

/// Reads bytes from the cursor up to a space or the end of the buffer.
/// With `tokens_only`, the bytes must be token characters.
fn read_field(bytes: &mut Bytes, tokens_only: bool) -> (r: (Vec<u8>, Option<bool>))
    requires
        old(bytes).wf(),
    ensures
        final(bytes).wf(),
        final(bytes)@ == old(bytes)@,
        match (if tokens_only {
            token_end(old(bytes)@, old(bytes).cursor() as int)
        } else {
            target_end(old(bytes)@, old(bytes).cursor() as int)
        }) {
            FieldEnd::Space(k) => r.1 == Some(true) && r.0@ == old(bytes)@.subrange(
                old(bytes).cursor() as int,
                k,
            ) && final(bytes).cursor() == k + 1,
            FieldEnd::End => r.1 == Some(false) && r.0@ == old(bytes)@.skip(
                old(bytes).cursor() as int,
            ) && final(bytes).cursor() == old(bytes)@.len(),
            FieldEnd::Invalid(k) => r.1 is None && final(bytes).cursor() == k + 1,
        },
{
    let ghost s = bytes@;
    let ghost start = bytes.cursor() as int;
    let mut field: Vec<u8> = Vec::new();
    proof {
        bytes.lemma_wf();
        assert(field@ =~= s.subrange(start, start));
    }
    loop
        invariant
            bytes.wf(),
            bytes@ == s,
            s == old(bytes)@,
            start == old(bytes).cursor(),
            start <= bytes.cursor() <= s.len(),
            field@ == s.subrange(start, bytes.cursor() as int),
            tokens_only ==> token_end(s, start) == token_end(s, bytes.cursor() as int),
            !tokens_only ==> target_end(s, start) == target_end(s, bytes.cursor() as int),
        decreases s.len() - bytes.cursor(),
    {
        let ghost at = bytes.cursor() as int;
        match bytes.next() {
            None => {
                assert(field@ =~= s.skip(start));
                return (field, Some(false));
            },
            Some(byte) => {
                if byte == 32 {
                    return (field, Some(true));
                } else if tokens_only && !is_token_char(byte) {
                    return (field, None);
                }
                field.push(byte);
                assert(field@ =~= s.subrange(start, at + 1));
            },
        }
    }
}

/// Reads a token from the cursor on: up to a space, which ends it, or up to
/// the end of the buffer, which cuts it.
pub fn parse_token(bytes: &mut Bytes) -> (r: Result<PartialRequest, Error>)
    requires
        old(bytes).wf(),
    ensures
        final(bytes).wf(),
        final(bytes)@ == old(bytes)@,
        match token_end(old(bytes)@, old(bytes).cursor() as int) {
            FieldEnd::Space(k) => r matches Ok(PartialRequest::Complete(v)) && v@ == old(
                bytes,
            )@.subrange(old(bytes).cursor() as int, k) && final(bytes).cursor() == k + 1,
            FieldEnd::End => r matches Ok(PartialRequest::Token(v)) && v@ == old(bytes)@.skip(
                old(bytes).cursor() as int,
            ) && final(bytes).cursor() == old(bytes)@.len(),
            FieldEnd::Invalid(k) => r matches Err(Error::Token) && final(bytes).cursor() == k + 1,
        },
{
    let (field, ended) = read_field(bytes, true);
    match ended {
        Some(true) => Ok(PartialRequest::Complete(field)),
        Some(false) => Ok(PartialRequest::Token(field)),
        None => Err(Error::Token),
    }
}

/// Reads a target from the cursor on: up to a space, which ends it, or up
/// to the end of the buffer, which cuts it.
pub fn parse_request_uri(bytes: &mut Bytes) -> (r: Result<PartialRequest, Error>)
    requires
        old(bytes).wf(),
    ensures
        final(bytes).wf(),
        final(bytes)@ == old(bytes)@,
        match target_end(old(bytes)@, old(bytes).cursor() as int) {
            FieldEnd::Space(k) => r matches Ok(PartialRequest::Complete(v)) && v@ == old(
                bytes,
            )@.subrange(old(bytes).cursor() as int, k) && final(bytes).cursor() == k + 1,
            FieldEnd::End => r matches Ok(PartialRequest::RequestUri(v)) && v@ == old(bytes)@.skip(
                old(bytes).cursor() as int,
            ) && final(bytes).cursor() == old(bytes)@.len(),
            FieldEnd::Invalid(_) => false,
        },
{
    proof {
        old(bytes).lemma_wf();
        lemma_target_end(old(bytes)@, old(bytes).cursor() as int);
    }
    let (field, ended) = read_field(bytes, false);
    match ended {
        Some(true) => Ok(PartialRequest::Complete(field)),
        _ => Ok(PartialRequest::RequestUri(field)),
    }
}

/// What was read of a request line so far, as a mathematical value.
pub struct ReaderView {
    pub method: Option<HttpMethodsView>,
    pub uri: Option<Seq<char>>,
    pub version: Option<HttpVersion>,
    pub partial: PartialRequestView,
}

/// The bytes of a method that wait for their rest.
pub open spec fn pending_method(partial: PartialRequestView) -> Seq<u8> {
    match partial {
        PartialRequestView::Method(v) => v,
        _ => Seq::empty(),
    }
}

/// The bytes of a target that wait for their rest.
pub open spec fn pending_target(partial: PartialRequestView) -> Seq<u8> {
    match partial {
        PartialRequestView::RequestUri(v) => v,
        _ => Seq::empty(),
    }
}

/// The kept piece once the field that it belongs to is complete.
pub open spec fn used(partial: PartialRequestView, method: bool) -> PartialRequestView {
    if method && partial is Method {
        PartialRequestView::Uninit
    } else if !method && partial is RequestUri {
        PartialRequestView::Uninit
    } else {
        partial
    }
}

/// The reader and the cursor after the method was looked for from index `i` on.
pub open spec fn method_step(v: ReaderView, s: Seq<u8>, i: int) -> (ReaderView, int) {
    if v.method is Some {
        (v, i)
    } else {
        match token_end(s, i) {
            FieldEnd::Space(k) => (
                ReaderView {
                    method: Some(
                        method_named(
                            lower(decode_utf8(pending_method(v.partial) + s.subrange(i, k))),
                        ),
                    ),
                    partial: used(v.partial, true),
                    ..v
                },
                k + 1,
            ),
            FieldEnd::End => (
                ReaderView {
                    partial: PartialRequestView::Method(pending_method(v.partial) + s.skip(i)),
                    ..v
                },
                s.len() as int,
            ),
            FieldEnd::Invalid(k) => (v, k + 1),
        }
    }
}

/// True where the method can be looked for: no byte stands in its way that
/// is neither a token character nor a space.
pub open spec fn method_step_ok(v: ReaderView, s: Seq<u8>, i: int) -> bool {
    v.method is Some || !(token_end(s, i) is Invalid)
}

/// The reader and the cursor after the target was looked for from index `i` on.
pub open spec fn target_step(v: ReaderView, s: Seq<u8>, i: int) -> (ReaderView, int) {
    if v.uri is Some || !(v.partial is RequestUri || v.partial is Uninit) {
        (v, i)
    } else {
        match target_end(s, i) {
            FieldEnd::Space(k) => (
                ReaderView {
                    uri: Some(decode_utf8(pending_target(v.partial) + s.subrange(i, k))),
                    partial: used(v.partial, false),
                    ..v
                },
                k + 1,
            ),
            _ => (
                ReaderView {
                    partial: PartialRequestView::RequestUri(
                        pending_target(v.partial) + s.skip(i),
                    ),
                    ..v
                },
                s.len() as int,
            ),
        }
    }
}

/// True where the target can be looked for: where it ends, its bytes are text.
pub open spec fn target_step_ok(v: ReaderView, s: Seq<u8>, i: int) -> bool {
    v.uri is Some || !(v.partial is RequestUri || v.partial is Uninit) || (target_end(s, i)
        matches FieldEnd::Space(k) ==> valid_utf8(pending_target(v.partial) + s.subrange(i, k)))
}

/// A reader that has read nothing.
pub open spec fn fresh_reader() -> ReaderView {
    ReaderView { method: None, uri: None, version: None, partial: PartialRequestView::Uninit }
}

/// True where a first buffer can be read.
pub open spec fn first_ok(s: Seq<u8>) -> bool {
    &&& empty_lines_end(s, 0) matches Some(start)
    &&& method_step_ok(fresh_reader(), s, start)
    &&& target_step_ok(
        method_step(fresh_reader(), s, start).0,
        s,
        method_step(fresh_reader(), s, start).1,
    )
}

/// The reader after a first buffer.
pub open spec fn first(s: Seq<u8>) -> ReaderView {
    let start = empty_lines_end(s, 0)->0;
    let (with_method, at) = method_step(fresh_reader(), s, start);
    target_step(with_method, s, at).0
}

/// The reader and the cursor after the field was completed of which a piece is kept.
pub open spec fn resume_step(v: ReaderView, s: Seq<u8>) -> (ReaderView, int) {
    match v.partial {
        PartialRequestView::Method(_) => method_step(v, s, 0),
        PartialRequestView::RequestUri(_) => target_step(v, s, 0),
        _ => (v, 0),
    }
}

/// True where a further buffer can be read.
pub open spec fn more_ok(v: ReaderView, s: Seq<u8>) -> bool {
    &&& v.partial is Method ==> method_step_ok(v, s, 0)
    &&& v.partial is RequestUri ==> target_step_ok(v, s, 0)
    &&& method_step_ok(resume_step(v, s).0, s, resume_step(v, s).1)
    &&& target_step_ok(
        method_step(resume_step(v, s).0, s, resume_step(v, s).1).0,
        s,
        method_step(resume_step(v, s).0, s, resume_step(v, s).1).1,
    )
}

/// The reader after a further buffer.
pub open spec fn more(v: ReaderView, s: Seq<u8>) -> ReaderView {
    let (resumed, at) = resume_step(v, s);
    let (with_method, then) = method_step(resumed, s, at);
    target_step(with_method, s, then).0
}

/// The kind of the piece that a reader keeps.
enum PieceKind {
    Method,
    RequestUri,
    Uninit,
    Other,
}

/// What decides whether a further buffer can be read: which fields are
/// there, the kind of the kept piece, and the kept bytes of a target.
struct Sketch {
    has_method: bool,
    has_uri: bool,
    kind: PieceKind,
    target: Vec<u8>,
}

/// The sketch is one of the reader.
spec fn sketches(sketch: Sketch, v: ReaderView) -> bool {
    &&& sketch.has_method == v.method is Some
    &&& sketch.has_uri == v.uri is Some
    &&& sketch.kind is Method == v.partial is Method
    &&& sketch.kind is RequestUri == v.partial is RequestUri
    &&& sketch.kind is Uninit == v.partial is Uninit
    &&& sketch.target@ == pending_target(v.partial)
}

/// Looks for the method as `parse_method` does, on a sketch. Returns `None`
/// where the method cannot be looked for.
fn sketch_method(sketch: Sketch, bytes: &mut Bytes, Ghost(v): Ghost<ReaderView>) -> (r: Option<
    Sketch,
>)
    requires
        old(bytes).wf(),
        sketches(sketch, v),
    ensures
        final(bytes).wf(),
        final(bytes)@ == old(bytes)@,
        r is Some == method_step_ok(v, old(bytes)@, old(bytes).cursor() as int),
        r matches Some(next) ==> sketches(
            next,
            method_step(v, old(bytes)@, old(bytes).cursor() as int).0,
        ) && final(bytes).cursor() == method_step(v, old(bytes)@, old(bytes).cursor() as int).1,
{
    if sketch.has_method {
        return Some(sketch);
    }
    let (_, ended) = read_field(bytes, true);
    match ended {
        Some(true) => {
            let kind = match sketch.kind {
                PieceKind::Method => PieceKind::Uninit,
                other => other,
            };
            Some(Sketch { has_method: true, has_uri: sketch.has_uri, kind, target: sketch.target })
        },
        Some(false) => Some(
            Sketch {
                has_method: false,
                has_uri: sketch.has_uri,
                kind: PieceKind::Method,
                target: Vec::new(),
            },
        ),
        None => None,
    }
}

/// Looks for the target as `parse_request_uri` does, on a sketch. Returns
/// `None` where the target cannot be looked for.
fn sketch_target(sketch: Sketch, bytes: &mut Bytes, Ghost(v): Ghost<ReaderView>) -> (r: Option<
    Sketch,
>)
    requires
        old(bytes).wf(),
        sketches(sketch, v),
    ensures
        final(bytes).wf(),
        final(bytes)@ == old(bytes)@,
        r is Some == target_step_ok(v, old(bytes)@, old(bytes).cursor() as int),
        r matches Some(next) ==> sketches(
            next,
            target_step(v, old(bytes)@, old(bytes).cursor() as int).0,
        ) && final(bytes).cursor() == target_step(v, old(bytes)@, old(bytes).cursor() as int).1,
{
    if sketch.has_uri {
        return Some(sketch);
    }
    match sketch.kind {
        PieceKind::RequestUri => {},
        PieceKind::Uninit => {},
        _ => {
            return Some(sketch);
        },
    }
    proof {
        bytes.lemma_wf();
        lemma_target_end(bytes@, bytes.cursor() as int);
    }
    let (field, ended) = read_field(bytes, false);
    let mut field = field;
    let mut whole = sketch.target;
    whole.append(&mut field);
    match ended {
        Some(true) => {
            if is_utf8(&whole) {
                Some(
                    Sketch {
                        has_method: sketch.has_method,
                        has_uri: true,
                        kind: PieceKind::Uninit,
                        target: Vec::new(),
                    },
                )
            } else {
                None
            }
        },
        _ => Some(
            Sketch {
                has_method: sketch.has_method,
                has_uri: false,
                kind: PieceKind::RequestUri,
                target: whole,
            },
        ),
    }
}

/// Reads the method and the target of a request line from the buffers that
/// hold it.
#[derive(Debug)]
pub struct RequestBuilder {
    method: Option<HttpMethods>,
    uri: Option<RequestUri>,
    http_version: Option<HttpVersion>,
    partial: PartialRequest,
}

impl View for RequestBuilder {
    type V = ReaderView;

    closed spec fn view(&self) -> ReaderView {
        ReaderView {
            method: match self.method {
                Some(method) => Some(method@),
                None => None,
            },
            uri: match self.uri {
                Some(uri) => Some(uri@),
                None => None,
            },
            version: self.http_version,
            partial: self.partial@,
        }
    }
}

impl RequestBuilder {
    /// A kept piece of a method consists of token characters.
    pub closed spec fn wf(&self) -> bool {
        self.partial matches PartialRequest::Method(v) ==> token_octets(v@)
    }

    pub fn new() -> (r: RequestBuilder)
        ensures
            r.wf(),
            r@ == fresh_reader(),
    {
        RequestBuilder { method: None, uri: None, http_version: None, partial: PartialRequest::Uninit }
    }

    /// True once method, target and version are there and no piece waits for
    /// its rest.
    pub fn is_parsed(&self) -> (r: bool)
        ensures
            r == (self@.method is Some && self@.uri is Some && self@.version is Some && (
            self@.partial is Complete || self@.partial is Uninit)),
    {
        self.method.is_some() && self.uri.is_some() && self.http_version.is_some()
            && !self.partial.has_partial()
    }

    pub fn method(&self) -> (r: &Option<HttpMethods>)
        ensures
            match *r {
                Some(method) => self@.method == Some(method@),
                None => self@.method is None,
            },
    {
        &self.method
    }

    pub fn uri(&self) -> (r: &Option<RequestUri>)
        ensures
            match *r {
                Some(uri) => self@.uri == Some(uri@),
                None => self@.uri is None,
            },
    {
        &self.uri
    }

    pub fn partial(&self) -> (r: &PartialRequest)
        ensures
            r@ == self@.partial,
    {
        &self.partial
    }

    /// Completes the method from the kept piece, if there is one, and from `v`.
    fn add_method(&mut self, v: Vec<u8>)
        requires
            old(self).wf(),
            valid_utf8(pending_method(old(self)@.partial) + v@),
        ensures
            final(self).wf(),
            final(self)@ == (ReaderView {
                method: Some(method_named(lower(decode_utf8(pending_method(old(self)@.partial) + v@)))),
                partial: used(old(self)@.partial, true),
                ..old(self)@
            }),
    {
        let mut kept = PartialRequest::Uninit;
        core::mem::swap(&mut self.partial, &mut kept);
        let buffer = match kept {
            PartialRequest::Method(mut v1) => {
                let mut v = v;
                v1.append(&mut v);
                v1
            },
            other => {
                self.partial = other;
                assert(Seq::<u8>::empty() + v@ =~= v@);
                v
            },
        };
        let method = HttpMethods::from_vector(buffer);
        self.method = Some(method);
    }

    /// Completes the target from the kept piece, if there is one, and from `v`.
    fn add_request_uri(&mut self, v: Vec<u8>)
        requires
            old(self).wf(),
            valid_utf8(pending_target(old(self)@.partial) + v@),
        ensures
            final(self).wf(),
            final(self)@ == (ReaderView {
                uri: Some(decode_utf8(pending_target(old(self)@.partial) + v@)),
                partial: used(old(self)@.partial, false),
                ..old(self)@
            }),
    {
        let mut kept = PartialRequest::Uninit;
        core::mem::swap(&mut self.partial, &mut kept);
        let buffer = match kept {
            PartialRequest::RequestUri(mut v1) => {
                let mut v = v;
                v1.append(&mut v);
                v1
            },
            other => {
                self.partial = other;
                assert(Seq::<u8>::empty() + v@ =~= v@);
                v
            },
        };
        let uri = RequestUri::from_vector(buffer);
        self.uri = Some(uri);
    }

    /// Keeps a piece.
    fn add_partial(&mut self, new_partial: PartialRequest)
        requires
            new_partial matches PartialRequest::Method(v) ==> token_octets(v@),
        ensures
            final(self).wf(),
            final(self)@ == (ReaderView { partial: new_partial@, ..old(self)@ }),
    {
        self.partial = new_partial;
    }

    /// The kept piece, taken out, where it is one of a method.
    fn take_pending_method(&mut self) -> (r: Vec<u8>)
        requires
            old(self).wf(),
        ensures
            r@ == pending_method(old(self)@.partial),
            token_octets(r@),
            final(self).wf(),
            final(self)@ == (ReaderView {
                partial: if old(self)@.partial is Method {
                    PartialRequestView::Uninit
                } else {
                    old(self)@.partial
                },
                ..old(self)@
            }),
    {
        let mut kept = PartialRequest::Uninit;
        core::mem::swap(&mut self.partial, &mut kept);
        match kept {
            PartialRequest::Method(v) => v,
            other => {
                self.partial = other;
                Vec::new()
            },
        }
    }

    /// The kept piece, taken out, where it is one of a target.
    fn take_pending_target(&mut self) -> (r: Vec<u8>)
        requires
            old(self).wf(),
        ensures
            r@ == pending_target(old(self)@.partial),
            final(self).wf(),
            final(self)@ == (ReaderView {
                partial: if old(self)@.partial is RequestUri {
                    PartialRequestView::Uninit
                } else {
                    old(self)@.partial
                },
                ..old(self)@
            }),
    {
        let mut kept = PartialRequest::Uninit;
        core::mem::swap(&mut self.partial, &mut kept);
        match kept {
            PartialRequest::RequestUri(v) => v,
            other => {
                self.partial = other;
                Vec::new()
            },
        }
    }

    fn parse_method(&mut self, bytes: &mut Bytes)
        requires
            old(self).wf(),
            old(bytes).wf(),
            method_step_ok(old(self)@, old(bytes)@, old(bytes).cursor() as int),
        ensures
            final(self).wf(),
            final(bytes).wf(),
            final(bytes)@ == old(bytes)@,
            (final(self)@, final(bytes).cursor() as int) == method_step(
                old(self)@,
                old(bytes)@,
                old(bytes).cursor() as int,
            ),
    {
        if self.method.is_some() {
            return ;
        }
        proof {
            bytes.lemma_wf();
            lemma_token_end(bytes@, bytes.cursor() as int);
        }
        let ghost kept = pending_method(self@.partial);
        match parse_token(bytes) {
            Ok(PartialRequest::Token(v)) => {
                let mut piece = self.take_pending_method();
                let mut v = v;
                piece.append(&mut v);
                self.add_partial(PartialRequest::Method(piece));
            },
            Ok(PartialRequest::Complete(v)) => {
                proof {
                    lemma_token_octets_are_text(kept + v@);
                }
                self.add_method(v);
            },
            _ => (),
        }
    }

    fn parse_request_uri(&mut self, bytes: &mut Bytes)
        requires
            old(self).wf(),
            old(bytes).wf(),
            target_step_ok(old(self)@, old(bytes)@, old(bytes).cursor() as int),
        ensures
            final(self).wf(),
            final(bytes).wf(),
            final(bytes)@ == old(bytes)@,
            (final(self)@, final(bytes).cursor() as int) == target_step(
                old(self)@,
                old(bytes)@,
                old(bytes).cursor() as int,
            ),
    {
        if self.uri.is_some() {
            return ;
        }
        match self.partial {
            PartialRequest::RequestUri(_) => {},
            PartialRequest::Uninit => {},
            _ => {
                return ;
            },
        }
        match parse_request_uri(bytes) {
            Ok(PartialRequest::RequestUri(v)) => {
                let mut piece = self.take_pending_target();
                let mut v = v;
                piece.append(&mut v);
                self.add_partial(PartialRequest::RequestUri(piece));
            },
            Ok(PartialRequest::Complete(v)) => {
                self.add_request_uri(v);
            },
            _ => (),
        }
    }

    /// The sketch of the reader.
    fn sketch(&self) -> (r: Sketch)
        ensures
            sketches(r, self@),
    {
        let (kind, target) = match &self.partial {
            PartialRequest::Method(_) => (PieceKind::Method, Vec::new()),
            PartialRequest::RequestUri(v) => (PieceKind::RequestUri, v.clone()),
            PartialRequest::Uninit => (PieceKind::Uninit, Vec::new()),
            _ => (PieceKind::Other, Vec::new()),
        };
        Sketch { has_method: self.method.is_some(), has_uri: self.uri.is_some(), kind, target }
    }

    /// True when `buf` can be read as a first buffer: the empty lines at its
    /// head are whole, no byte that is neither a token character nor a space
    /// stands in the method, and the target, where it ends, is text.
    pub fn can_parse(buf: &[u8]) -> (r: bool)
        ensures
            r == first_ok(buf@),
    {
        let buffer = slice_to_vec(buf);
        let len = buffer.len();
        let mut bytes = Bytes::new(buffer, len);
        assert(bytes@ =~= buf@);
        if !can_skip_initial_crlf(&bytes) {
            return false;
        }
        skip_initial_crlf(&mut bytes);
        let fresh = RequestBuilder::new();
        let ghost start = bytes.cursor() as int;
        let with_method = match sketch_method(fresh.sketch(), &mut bytes, Ghost(fresh_reader())) {
            None => {
                return false;
            },
            Some(sketch) => sketch,
        };
        sketch_target(
            with_method,
            &mut bytes,
            Ghost(method_step(fresh_reader(), buf@, start).0),
        ).is_some()
    }

    /// True when `buf` can be read as a further buffer.
    pub fn can_parse_more(&self, buf: &[u8]) -> (r: bool)
        requires
            self.wf(),
        ensures
            r == more_ok(self@, buf@),
    {
        let buffer = slice_to_vec(buf);
        let len = buffer.len();
        let mut bytes = Bytes::new(buffer, len);
        assert(bytes@ =~= buf@);
        let sketch = self.sketch();
        let resumed = match sketch.kind {
            PieceKind::Method => sketch_method(sketch, &mut bytes, Ghost(self@)),
            PieceKind::RequestUri => sketch_target(sketch, &mut bytes, Ghost(self@)),
            _ => Some(sketch),
        };
        let resumed = match resumed {
            None => {
                return false;
            },
            Some(sketch) => sketch,
        };
        let ghost at = bytes.cursor() as int;
        let ghost after = resume_step(self@, buf@).0;
        let with_method = match sketch_method(resumed, &mut bytes, Ghost(after)) {
            None => {
                return false;
            },
            Some(sketch) => sketch,
        };
        sketch_target(with_method, &mut bytes, Ghost(method_step(after, buf@, at).0)).is_some()
    }

    /// Reads a first buffer: the empty lines at its head are passed over,
    /// then the method and the target are looked for.
    pub fn parse(buf: &[u8]) -> (r: RequestBuilder)
        requires
            first_ok(buf@),
        ensures
            r.wf(),
            r@ == first(buf@),
    {
        let mut request_builder = RequestBuilder::new();
        let buffer = slice_to_vec(buf);
        let len = buffer.len();
        let mut bytes = Bytes::new(buffer, len);
        assert(bytes@ =~= buf@);
        skip_initial_crlf(&mut bytes);
        request_builder.parse_method(&mut bytes);
        request_builder.parse_request_uri(&mut bytes);
        request_builder
    }

    /// Reads a further buffer: the field of which a piece is kept is
    /// completed, then what is still missing is looked for.
    pub fn parse_more(&mut self, buf: &[u8])
        requires
            old(self).wf(),
            more_ok(old(self)@, buf@),
        ensures
            final(self).wf(),
            final(self)@ == more(old(self)@, buf@),
    {
        let buffer = slice_to_vec(buf);
        let len = buffer.len();
        let mut bytes = Bytes::new(buffer, len);
        assert(bytes@ =~= buf@);
        match &self.partial {
            PartialRequest::Method(_) => {
                self.parse_method(&mut bytes);
            },
            PartialRequest::RequestUri(_) => {
                self.parse_request_uri(&mut bytes);
            },
            _ => (),
        }
        self.parse_method(&mut bytes);
        self.parse_request_uri(&mut bytes);
    }
}

} // verus!
