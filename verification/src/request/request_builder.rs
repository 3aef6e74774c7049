//! Receiving a request: the methods and versions that are known, and the
//! builder that takes the bytes of a connection and makes a request of them.

use crate::errors::{Error, ErrorView};
use crate::headers::{headers_of, last_is_chunked, HeaderView, Headers};
use crate::helpers::bytes::{Bytes, FragmentedBytes};
use crate::helpers::parser::{
    crlf, double_crlf, lone_cr_message, look_for_crlf, look_for_double_crlf, skip_empty_lines,
    lemma_skip_from_bounds, skip_initial_crlf, Skipped,
};
use crate::helpers::search::{find, lemma_find, split};
use crate::request::laws::{consistent, lemma_feed_consistent};
use crate::request::request::{Request, RequestView};
use crate::request::request_body::RequestBodyView;
use crate::request::request_body_builder::{
    body_is_parsed, run_body, BodyView, ChunkStateView, RequestBodyBuilder,
};
use crate::request::request_uri::{target_of, RequestUri};
use crate::text::{
    chars_of, is_text, is_token_text, lower, split_text, texts, to_lower, to_string, token_text,
    utf8_text,
};
use vstd::prelude::*;
use vstd::string::*;
use vstd::utf8::{decode_utf8, encode_utf8, valid_utf8};

verus! {

/// The method of a request.
#[derive(Debug)]
pub enum HttpMethods {
    GET,
    OPTIONS,
    HEAD,
    POST,
    PUT,
    DELETE,
    TRACE,
    CONNECT,
    /// A method that is not one of the eight; carries its name in lower case.
    Extension(String),
}

/// A method as a mathematical value.
pub enum HttpMethodsView {
    GET,
    OPTIONS,
    HEAD,
    POST,
    PUT,
    DELETE,
    TRACE,
    CONNECT,
    Extension(Seq<char>),
}

impl View for HttpMethods {
    type V = HttpMethodsView;

    open spec fn view(&self) -> HttpMethodsView {
        match self {
            HttpMethods::GET => HttpMethodsView::GET,
            HttpMethods::OPTIONS => HttpMethodsView::OPTIONS,
            HttpMethods::HEAD => HttpMethodsView::HEAD,
            HttpMethods::POST => HttpMethodsView::POST,
            HttpMethods::PUT => HttpMethodsView::PUT,
            HttpMethods::DELETE => HttpMethodsView::DELETE,
            HttpMethods::TRACE => HttpMethodsView::TRACE,
            HttpMethods::CONNECT => HttpMethodsView::CONNECT,
            HttpMethods::Extension(name) => HttpMethodsView::Extension(name@),
        }
    }
}

/// The method of the given name; the name is in lower case.
pub open spec fn method_named(name: Seq<char>) -> HttpMethodsView {
    if name == "get"@ {
        HttpMethodsView::GET
    } else if name == "options"@ {
        HttpMethodsView::OPTIONS
    } else if name == "head"@ {
        HttpMethodsView::HEAD
    } else if name == "post"@ {
        HttpMethodsView::POST
    } else if name == "put"@ {
        HttpMethodsView::PUT
    } else if name == "delete"@ {
        HttpMethodsView::DELETE
    } else if name == "trace"@ {
        HttpMethodsView::TRACE
    } else if name == "connect"@ {
        HttpMethodsView::CONNECT
    } else {
        HttpMethodsView::Extension(name)
    }
}

/// The method that a field of the request line names. The field must be a
/// token of one character or more; the case of its letters does not count.
pub open spec fn method_of(token: Seq<char>) -> Result<HttpMethodsView, ErrorView> {
    if token.len() == 0 || !token_text(token) {
        Err(ErrorView::InvalidTokenChar(encode_utf8(token)))
    } else {
        Ok(method_named(lower(token)))
    }
}

impl HttpMethods {
    /// The method of the given name; the name is in lower case.
    fn named(name: &Vec<char>) -> (r: HttpMethods)
        ensures
            r@ == method_named(name@),
    {
        if is_text(name, "get") {
            HttpMethods::GET
        } else if is_text(name, "options") {
            HttpMethods::OPTIONS
        } else if is_text(name, "head") {
            HttpMethods::HEAD
        } else if is_text(name, "post") {
            HttpMethods::POST
        } else if is_text(name, "put") {
            HttpMethods::PUT
        } else if is_text(name, "delete") {
            HttpMethods::DELETE
        } else if is_text(name, "trace") {
            HttpMethods::TRACE
        } else if is_text(name, "connect") {
            HttpMethods::CONNECT
        } else {
            HttpMethods::Extension(to_string(name))
        }
    }

    /// Reads the method field of a request line.
    pub fn try_from(value: &str) -> (r: Result<HttpMethods, Error>)
        ensures
            match method_of(value@) {
                Ok(method) => r matches Ok(m) && m@ == method,
                Err(e) => r matches Err(x) && x@ == e,
            },
    {
        let token = chars_of(value);
        if token.len() == 0 || !is_token_text(&token) {
            return Err(Error::InvalidTokenChar(value.as_bytes_vec()));
        }
        let method_name = to_lower(&token);
        Ok(HttpMethods::named(&method_name))
    }

    /// The method that bytes name which are UTF-8 text; the case of the
    /// letters does not count.
    pub fn from_vector(v: Vec<u8>) -> (r: HttpMethods)
        requires
            valid_utf8(v@),
        ensures
            r@ == method_named(lower(decode_utf8(v@))),
    {
        match utf8_text(v) {
            Ok(method_name) => {
                let name = chars_of(method_name.as_str());
                let name = to_lower(&name);
                HttpMethods::named(&name)
            },
            Err(_) => HttpMethods::GET,
        }
    }
}

/// The version of the protocol.
#[derive(Debug, Clone, Copy, PartialEq, Eq, Structural)]
pub enum HttpVersion {
    Http11,
}

/// The version that a field of the request line names: `HTTP/1.1`, in any
/// case of its letters. The error carries the field in lower case.
pub open spec fn version_of(text: Seq<char>) -> Result<HttpVersion, ErrorView> {
    if lower(text) == "http/1.1"@ {
        Ok(HttpVersion::Http11)
    } else {
        Err(ErrorView::InvalidHttpVersion(lower(text)))
    }
}

impl HttpVersion {
    /// Reads the version field of a request line.
    pub fn try_from(value: &str) -> (r: Result<HttpVersion, Error>)
        ensures
            match version_of(value@) {
                Ok(version) => r == Ok::<HttpVersion, Error>(version),
                Err(e) => r matches Err(x) && x@ == e,
            },
    {
        let version = chars_of(value);
        let version = to_lower(&version);
        if is_text(&version, "http/1.1") {
            Ok(HttpVersion::Http11)
        } else {
            Err(Error::InvalidHttpVersion(to_string(&version)))
        }
    }
}

/// What a request line says.
pub struct RequestLineView {
    pub method: HttpMethodsView,
    pub target: Seq<char>,
    pub version: HttpVersion,
}

/// What the error for a request line without its three fields carries.
pub open spec fn missing_field_message() -> Seq<char> {
    "either request method or request-target or http version is missing"@
}

/// What the error for a request line that is no text carries.
pub open spec fn not_text_message() -> Seq<char> {
    "not a valid ascii/utf-8 string"@
}

/// What a request line says: it has three fields with one SP between each
/// two, the method, the target and the version, and they are looked at in
/// this order.
pub open spec fn request_line_of_text(line: Seq<char>) -> Result<RequestLineView, ErrorView> {
    let fields = split(line, seq![' ']);
    if fields.len() != 3 {
        Err(ErrorView::InvalidRequestLine(missing_field_message()))
    } else {
        match method_of(fields[0]) {
            Err(e) => Err(e),
            Ok(method) => match target_of(fields[1]) {
                Err(e) => Err(e),
                Ok(target) => match version_of(fields[2]) {
                    Err(e) => Err(e),
                    Ok(version) => Ok(RequestLineView { method, target, version }),
                },
            },
        }
    }
}

/// What the bytes of a request line say. They must be UTF-8 text.
pub open spec fn request_line_of(line: Seq<u8>) -> Result<RequestLineView, ErrorView> {
    if !valid_utf8(line) {
        Err(ErrorView::InvalidRequestLine(not_text_message()))
    } else {
        request_line_of_text(decode_utf8(line))
    }
}

/// The headers in the bytes of a header block. They must be UTF-8 text.
pub open spec fn header_block_of(block: Seq<u8>) -> Result<Map<Seq<char>, HeaderView>, ErrorView> {
    if !valid_utf8(block) {
        Err(ErrorView::InvalidUtf8String(block))
    } else {
        headers_of(decode_utf8(block))
    }
}

/// A chunked body of which nothing was received yet.
pub open spec fn fresh_chunked_body() -> BodyView {
    BodyView {
        chunked: true,
        length: 0,
        received: false,
        state: ChunkStateView::AwaitChunkHeader,
        payloads: Seq::empty(),
    }
}

/// A body of fixed length of which nothing was received yet.
pub open spec fn fresh_whole_body(length: nat) -> BodyView {
    BodyView {
        chunked: false,
        length,
        received: false,
        state: ChunkStateView::AwaitChunkHeader,
        payloads: Seq::empty(),
    }
}

/// The body that the headers ask for. With `Transfer-Encoding` the body is
/// chunked, and the last coding must be `chunked`; `Content-Length` is then
/// not looked at. With `Content-Length` alone the body has that many bytes.
/// With neither there is no body.
pub open spec fn body_for(headers: Map<Seq<char>, HeaderView>) -> Result<
    Option<BodyView>,
    ErrorView,
> {
    if headers.dom().contains("transfer-encoding"@) && headers["transfer-encoding"@]
        is TransferEncoding {
        if last_is_chunked(headers["transfer-encoding"@]->TransferEncoding_0) {
            Ok(Some(fresh_chunked_body()))
        } else {
            Err(ErrorView::NoChunkedCoding)
        }
    } else if headers.dom().contains("content-length"@) && headers["content-length"@]
        is ContentLength {
        Ok(Some(fresh_whole_body(headers["content-length"@]->ContentLength_0)))
    } else {
        Ok(None)
    }
}

/// How far the reception of a request has come.
#[derive(Debug, Clone, Copy, PartialEq, Eq, Structural)]
pub enum Phase {
    /// Empty lines before the request line are passed over.
    Preamble,
    /// The request line is awaited.
    RequestLine,
    /// The header block is awaited.
    Headers,
    /// The body is awaited.
    Body,
    /// The request is complete.
    Complete,
    /// An error has ended the reception.
    Errored,
}

/// What a call that fed bytes to the builder has led to.
#[derive(Debug, Clone, Copy, PartialEq, Eq, Structural)]
pub enum Progress {
    /// More bytes are needed.
    NeedMore,
    /// The request is complete.
    Complete,
}

/// A request under reception, as a mathematical value.
pub struct BuilderView {
    /// The empty lines before the request line are behind.
    pub skipped: bool,
    /// The request line, once it was read.
    pub line: Option<RequestLineView>,
    /// The headers, once the header block was read.
    pub headers: Option<Map<Seq<char>, HeaderView>>,
    /// The body under reception, where the headers ask for one.
    pub body: Option<BodyView>,
    /// The bytes that were received and not consumed.
    pub pending: Seq<u8>,
    /// The error that ended the reception.
    pub error: Option<ErrorView>,
}

/// A builder that has received nothing.
pub open spec fn fresh_builder() -> BuilderView {
    BuilderView {
        skipped: false,
        line: None,
        headers: None,
        body: None,
        pending: Seq::empty(),
        error: None,
    }
}

/// True once the request is complete: the headers were read, and the body,
/// where there is one, was received.
pub open spec fn is_complete(v: BuilderView) -> bool {
    v.error is None && v.headers is Some && match v.body {
        Some(body) => body_is_parsed(body),
        None => true,
    }
}

/// The phase that a builder is in.
pub open spec fn phase_of(v: BuilderView) -> Phase {
    if v.error is Some {
        Phase::Errored
    } else if !v.skipped {
        Phase::Preamble
    } else if v.line is None {
        Phase::RequestLine
    } else if v.headers is None {
        Phase::Headers
    } else if is_complete(v) {
        Phase::Complete
    } else {
        Phase::Body
    }
}

/// The empty lines before the request line are passed over, once the byte
/// that follows them is there.
pub open spec fn skip_phase(v: BuilderView) -> BuilderView {
    if v.error is Some || v.skipped {
        v
    } else {
        match skip_empty_lines(v.pending) {
            Skipped::Ready(n) => BuilderView {
                skipped: true,
                pending: v.pending.skip(n as int),
                ..v
            },
            Skipped::NeedMore => v,
            Skipped::LoneCr => BuilderView {
                error: Some(ErrorView::InvalidCrlf(lone_cr_message())),
                ..v
            },
        }
    }
}

/// The request line is read, once it is there in full.
pub open spec fn line_phase(v: BuilderView) -> BuilderView {
    if v.error is Some || !v.skipped || v.line is Some {
        v
    } else {
        match find(v.pending, crlf()) {
            None => v,
            Some(k) => match request_line_of(v.pending.take(k)) {
                Ok(line) => BuilderView { line: Some(line), pending: v.pending.skip(k + 2), ..v },
                Err(e) => BuilderView { error: Some(e), pending: v.pending.skip(k + 2), ..v },
            },
        }
    }
}

/// The header block is read, once it is there in full.
pub open spec fn headers_phase(v: BuilderView) -> BuilderView {
    if v.error is Some || v.line is None || v.headers is Some {
        v
    } else {
        match find(v.pending, double_crlf()) {
            None => v,
            Some(k) => match header_block_of(v.pending.take(k)) {
                Ok(headers) => BuilderView {
                    headers: Some(headers),
                    pending: v.pending.skip(k + 4),
                    ..v
                },
                Err(e) => BuilderView { error: Some(e), pending: v.pending.skip(k + 4), ..v },
            },
        }
    }
}

/// The body is chosen, once the headers are read.
pub open spec fn body_choice_phase(v: BuilderView) -> BuilderView {
    if v.error is Some || v.headers is None || v.body is Some {
        v
    } else {
        match body_for(v.headers->0) {
            Ok(body) => BuilderView { body, ..v },
            Err(e) => BuilderView { error: Some(e), ..v },
        }
    }
}

/// The body consumes what is there of it.
pub open spec fn body_phase(v: BuilderView) -> BuilderView {
    if v.error is Some {
        v
    } else {
        match v.body {
            None => v,
            Some(body) => {
                let run = run_body(body, v.pending);
                BuilderView { body: Some(run.body), pending: run.rest, error: run.error, ..v }
            },
        }
    }
}

/// The phases, one after the other.
pub open spec fn phases(v: BuilderView) -> BuilderView {
    body_phase(body_choice_phase(headers_phase(line_phase(skip_phase(v)))))
}

/// After an error the bytes that were not consumed are given up.
pub open spec fn settle(v: BuilderView) -> BuilderView {
    if v.error is Some {
        BuilderView { pending: Seq::empty(), ..v }
    } else {
        v
    }
}

/// The builder goes as far as the bytes that it holds allow.
pub open spec fn advance(v: BuilderView) -> BuilderView {
    settle(phases(v))
}

/// The builder is fed bytes. After an error nothing changes any more.
pub open spec fn feed(v: BuilderView, bytes: Seq<u8>) -> BuilderView {
    if v.error is Some {
        v
    } else {
        advance(BuilderView { pending: v.pending + bytes, ..v })
    }
}

/// Takes the bytes of a connection as they arrive and makes a request of them.
#[derive(Debug)]
pub struct RequestBuilder {
    method: Option<HttpMethods>,
    uri: Option<RequestUri>,
    http_version: Option<HttpVersion>,
    headers: Option<Headers>,
    body: Option<RequestBodyBuilder>,
    fragmented_bytes: FragmentedBytes,
    has_skipped_initial_crlf: bool,
    error: Option<Error>,
}

impl View for RequestBuilder {
    type V = BuilderView;

    closed spec fn view(&self) -> BuilderView {
        BuilderView {
            skipped: self.has_skipped_initial_crlf,
            line: match (self.method, self.uri, self.http_version) {
                (Some(method), Some(uri), Some(version)) => Some(
                    RequestLineView { method: method@, target: uri@, version },
                ),
                _ => None,
            },
            headers: match self.headers {
                Some(headers) => Some(headers@),
                None => None,
            },
            body: match self.body {
                Some(body) => Some(body@),
                None => None,
            },
            pending: self.fragmented_bytes.remaining(),
            error: match self.error {
                Some(e) => Some(e@),
                None => None,
            },
        }
    }
}

impl RequestBuilder {
    /// The parts are well formed, what was read was read in order, and what
    /// is held fits the machine's word.
    pub closed spec fn valid(&self) -> bool {
        &&& self.fragmented_bytes.wf()
        &&& self.method is Some == self.uri is Some
        &&& self.method is Some == self.http_version is Some
        &&& self.uri is Some ==> self.has_skipped_initial_crlf
        &&& self.headers is Some ==> self.uri is Some
        &&& self.body is Some ==> self.headers is Some
        &&& self.headers matches Some(headers) ==> headers.wf()
        &&& self.body matches Some(body) ==> body.wf()
        &&& self.buffered() <= usize::MAX
    }

    /// The builder is valid, and its rope holds nothing before the read cursor.
    pub closed spec fn wf(&self) -> bool {
        self.valid() && self.fragmented_bytes.consumed() == 0 && consistent(self@)
    }

    /// A well-formed builder is consistent: what it has read it has read in
    /// order, and its body is the one that its headers ask for.
    pub proof fn lemma_wf(&self)
        requires
            self.wf(),
        ensures
            consistent(self@),
    {
    }

    /// The number of bytes that the builder holds: those that it has
    /// received and not consumed, and those of the body received so far.
    pub closed spec fn buffered(&self) -> nat {
        self.fragmented_bytes.remaining().len() + match self.body {
            Some(body) => body@.payloads.flatten().len(),
            None => 0,
        }
    }

    pub fn new() -> (r: RequestBuilder)
        ensures
            r.wf(),
            r@ == fresh_builder(),
            r.buffered() == 0,
    {
        let r = RequestBuilder {
            method: None,
            uri: None,
            http_version: None,
            headers: None,
            body: None,
            fragmented_bytes: FragmentedBytes::default(),
            has_skipped_initial_crlf: false,
            error: None,
        };
        assert(r.fragmented_bytes.remaining() =~= Seq::<u8>::empty());
        r
    }

    /// The number of bytes that the builder holds.
    pub fn buffered_len(&self) -> (r: usize)
        requires
            self.wf(),
        ensures
            r == self.buffered(),
    {
        let held = self.fragmented_bytes.total_len() - self.fragmented_bytes.read_pos();
        match &self.body {
            Some(body) => {
                let partial = body.body();
                let received = match partial {
                    crate::request::request_body_builder::PartialRequestBody::Chunked(chunked) => {
                        chunked.chunks().total_len()
                    },
                    crate::request::request_body_builder::PartialRequestBody::Whole(rope) => {
                        rope.total_len()
                    },
                };
                held + received
            },
            None => held,
        }
    }

    pub fn method(&self) -> (r: &Option<HttpMethods>)
        requires
            self.wf(),
        ensures
            match *r {
                Some(method) => self@.line matches Some(line) && line.method == method@,
                None => self@.line is None,
            },
    {
        &self.method
    }

    pub fn uri(&self) -> (r: &Option<RequestUri>)
        requires
            self.wf(),
        ensures
            match *r {
                Some(uri) => self@.line matches Some(line) && line.target == uri@,
                None => self@.line is None,
            },
    {
        &self.uri
    }

    pub fn http_version(&self) -> (r: &Option<HttpVersion>)
        requires
            self.wf(),
        ensures
            match *r {
                Some(version) => self@.line matches Some(line) && line.version == version,
                None => self@.line is None,
            },
    {
        &self.http_version
    }

    pub fn headers(&self) -> (r: &Option<Headers>)
        requires
            self.wf(),
        ensures
            match *r {
                Some(headers) => headers.wf() && self@.headers == Some(headers@),
                None => self@.headers is None,
            },
    {
        &self.headers
    }

    pub fn body(&self) -> (r: &Option<RequestBodyBuilder>)
        requires
            self.wf(),
        ensures
            match *r {
                Some(body) => body.wf() && self@.body == Some(body@),
                None => self@.body is None,
            },
    {
        &self.body
    }

    /// Takes the request line off the rope, once it is there in full.
    fn get_request_line(&mut self) -> (r: Result<Option<String>, Error>)
        requires
            old(self).valid(),
        ensures
            final(self).valid(),
            final(self).buffered() <= old(self).buffered(),
            match find(old(self)@.pending, crlf()) {
                None => r matches Ok(None) && final(self)@ == old(self)@,
                Some(k) => final(self)@ == (BuilderView {
                    pending: old(self)@.pending.skip(k + 2),
                    ..old(self)@
                }) && if valid_utf8(old(self)@.pending.take(k)) {
                    r matches Ok(Some(line)) && line@ == decode_utf8(old(self)@.pending.take(k))
                } else {
                    r matches Err(x) && x@ == ErrorView::InvalidRequestLine(not_text_message())
                },
            },
    {
        let ghost input = self.fragmented_bytes.remaining();
        proof {
            self.fragmented_bytes.lemma_wf();
            lemma_find(input, crlf());
        }
        let result = look_for_crlf(&mut self.fragmented_bytes);
        let result = match result {
            None => {
                assert(self.fragmented_bytes.remaining() =~= input);
                return Ok(None);
            },
            Some(line) => line,
        };
        proof {
            let k = find(input, crlf())->0;
            assert(self.fragmented_bytes.remaining() =~= input.skip(k + 2));
        }
        match utf8_text(result) {
            Err(_) => Err(
                Error::InvalidRequestLine(String::from_str("not a valid ascii/utf-8 string")),
            ),
            Ok(line) => Ok(Some(line)),
        }
    }

    /// Reads the three fields of a request line.
    fn read_request_line(request_line: &str) -> (r: Result<
        (HttpMethods, RequestUri, HttpVersion),
        Error,
    >)
        ensures
            match request_line_of_text(request_line@) {
                Ok(line) => r matches Ok(fields) && fields.0@ == line.method && fields.1@
                    == line.target && fields.2 == line.version,
                Err(e) => r matches Err(x) && x@ == e,
            },
    {
        let text = chars_of(request_line);
        let space: Vec<char> = vec![' '];
        assert(space@ =~= seq![' ']);
        let parts = split_text(&text, &space);
        if parts.len() != 3 {
            return Err(
                Error::InvalidRequestLine(
                    String::from_str(
                        "either request method or request-target or http version is missing",
                    ),
                ),
            );
        }
        assert(texts(parts@)[0] == parts@[0]@);
        assert(texts(parts@)[1] == parts@[1]@);
        assert(texts(parts@)[2] == parts@[2]@);
        let method = to_string(&parts[0]);
        let method = match HttpMethods::try_from(method.as_str()) {
            Ok(method) => method,
            Err(e) => {
                return Err(e);
            },
        };
        let request_uri = to_string(&parts[1]);
        let request_uri = match RequestUri::try_from(request_uri) {
            Ok(uri) => uri,
            Err(e) => {
                return Err(e);
            },
        };
        let version = to_string(&parts[2]);
        let version = match HttpVersion::try_from(version.as_str()) {
            Ok(version) => version,
            Err(e) => {
                return Err(e);
            },
        };
        Ok((method, request_uri, version))
    }

    fn parse_request_line(&mut self) -> (r: Result<(), Error>)
        requires
            old(self).valid(),
            old(self)@.error is None,
            old(self)@.skipped,
        ensures
            final(self).valid(),
            final(self).buffered() <= old(self).buffered(),
            final(self)@ == line_phase(old(self)@),
            match final(self)@.error {
                Some(e) => r matches Err(x) && x@ == e,
                None => r is Ok,
            },
    {
        if self.uri.is_some() {
            return Ok(());
        }
        let request_line = match self.get_request_line() {
            Err(e) => {
                self.error = Some(e.clone());
                return Err(e);
            },
            Ok(None) => {
                return Ok(());
            },
            Ok(Some(r)) => r,
        };
        match RequestBuilder::read_request_line(request_line.as_str()) {
            Err(e) => {
                self.error = Some(e.clone());
                Err(e)
            },
            Ok((method, uri, version)) => {
                self.method = Some(method);
                self.http_version = Some(version);
                self.uri = Some(uri);
                Ok(())
            },
        }
    }

    /// Takes the header block off the rope, once it is there in full.
    fn get_headers(&mut self) -> (r: Result<Option<String>, Error>)
        requires
            old(self).valid(),
        ensures
            final(self).valid(),
            final(self).buffered() <= old(self).buffered(),
            match find(old(self)@.pending, double_crlf()) {
                None => r matches Ok(None) && final(self)@ == old(self)@,
                Some(k) => final(self)@ == (BuilderView {
                    pending: old(self)@.pending.skip(k + 4),
                    ..old(self)@
                }) && if valid_utf8(old(self)@.pending.take(k)) {
                    r matches Ok(Some(block)) && block@ == decode_utf8(old(self)@.pending.take(k))
                } else {
                    r matches Err(x) && x@ == ErrorView::InvalidUtf8String(
                        old(self)@.pending.take(k),
                    )
                },
            },
    {
        let ghost input = self.fragmented_bytes.remaining();
        proof {
            self.fragmented_bytes.lemma_wf();
            lemma_find(input, double_crlf());
        }
        let result = look_for_double_crlf(&mut self.fragmented_bytes);
        let headers_vector = match result {
            None => {
                assert(self.fragmented_bytes.remaining() =~= input);
                return Ok(None);
            },
            Some(block) => block,
        };
        proof {
            let k = find(input, double_crlf())->0;
            assert(self.fragmented_bytes.remaining() =~= input.skip(k + 4));
        }
        match utf8_text(headers_vector) {
            Err(raw) => Err(Error::InvalidUtf8String(raw)),
            Ok(block) => Ok(Some(block)),
        }
    }

    fn parse_headers(&mut self) -> (r: Result<(), Error>)
        requires
            old(self).valid(),
            old(self)@.error is None,
            old(self)@.line is Some,
        ensures
            final(self).valid(),
            final(self).buffered() <= old(self).buffered(),
            final(self)@ == headers_phase(old(self)@),
            match final(self)@.error {
                Some(e) => r matches Err(x) && x@ == e,
                None => r is Ok,
            },
    {
        if self.headers.is_some() {
            return Ok(());
        }
        let headers = match self.get_headers() {
            Err(e) => {
                self.error = Some(e.clone());
                return Err(e);
            },
            Ok(None) => {
                return Ok(());
            },
            Ok(Some(h)) => h,
        };
        match Headers::try_from(headers) {
            Err(e) => {
                self.error = Some(e.clone());
                Err(e)
            },
            Ok(headers) => {
                self.headers = Some(headers);
                Ok(())
            },
        }
    }

    /// Makes the receiver of the body that the headers ask for.
    fn create_request_body_builder(&mut self) -> (r: Result<(), Error>)
        requires
            old(self).valid(),
            old(self)@.error is None,
        ensures
            final(self).valid(),
            final(self).buffered() == old(self).buffered(),
            final(self)@ == body_choice_phase(old(self)@),
            match final(self)@.error {
                Some(e) => r matches Err(x) && x@ == e,
                None => r is Ok,
            },
    {
        if !self.are_headers_parsed() || self.body.is_some() {
            return Ok(());
        }
        match self.are_headers_valid() {
            Err(e) => {
                self.error = Some(e.clone());
                return Err(e);
            },
            Ok(_) => {},
        }
        if !self.can_have_body() {
            return Ok(());
        }
        let is_chunked = self.is_chunked();
        let body = if is_chunked {
            RequestBodyBuilder::new_chunked()
        } else {
            let content_length = match &self.headers {
                Some(headers) => match headers.content_length() {
                    Some(content_length) => content_length.content_length(),
                    None => 0,
                },
                None => 0,
            };
            RequestBodyBuilder::new_whole(content_length)
        };
        proof {
            assert(body@.payloads.flatten() =~= Seq::<u8>::empty());
        }
        self.body = Some(body);
        Ok(())
    }

    /// With `Transfer-Encoding`, the last coding must be `chunked`.
    fn are_headers_valid(&self) -> (r: Result<bool, Error>)
        requires
            self.valid(),
            self@.headers is Some,
        ensures
            match body_for(self@.headers->0) {
                Ok(_) => r == Ok::<bool, Error>(true),
                Err(e) => r matches Err(x) && x@ == e,
            },
    {
        match &self.headers {
            Some(headers) => {
                match headers.transfer_encoding() {
                    Some(transfer_encoding) => {
                        if !transfer_encoding.is_chunked() {
                            return Err(Error::NoChunkedCoding);
                        }
                        Ok(true)
                    },
                    None => Ok(true),
                }
            },
            None => Ok(true),
        }
    }

    fn is_chunked(&self) -> (r: bool)
        requires
            self.valid(),
            self@.headers is Some,
        ensures
            r == (body_for(self@.headers->0) matches Ok(Some(body)) && body.chunked),
    {
        match &self.headers {
            Some(headers) => match headers.transfer_encoding() {
                Some(transfer_encoding) => transfer_encoding.is_chunked(),
                None => false,
            },
            None => false,
        }
    }

    fn are_headers_parsed(&self) -> (r: bool)
        ensures
            r == self@.headers is Some,
    {
        self.headers.is_some()
    }

    /// True when the headers name a framing for a body.
    fn can_have_body(&self) -> (r: bool)
        requires
            self.valid(),
            self@.headers is Some,
        ensures
            r == !(body_for(self@.headers->0) matches Ok(None)),
    {
        match &self.headers {
            Some(headers) => {
                if headers.transfer_encoding().is_some() {
                    return true;
                }
                headers.content_length().is_some()
            },
            None => false,
        }
    }

    fn parse_body(&mut self) -> (r: Result<(), Error>)
        requires
            old(self).valid(),
            old(self)@.error is None,
        ensures
            final(self).valid(),
            final(self)@ == body_phase(old(self)@),
            match final(self)@.error {
                Some(e) => r matches Err(x) && x@ == e,
                None => r is Ok,
            },
            final(self).buffered() <= old(self).buffered(),
    {
        proof {
            self.fragmented_bytes.lemma_wf();
        }
        let headers = match &self.headers {
            Some(headers) => headers,
            None => {
                // without headers there is no body yet
                return Ok(());
            },
        };
        match &mut self.body {
            Some(body) => {
                proof {
                    body.lemma_wf();
                }
                match body.parse(&mut self.fragmented_bytes, headers) {
                    Ok(_) => Ok(()),
                    Err(e) => {
                        self.error = Some(e.clone());
                        Err(e)
                    },
                }
            },
            None => Ok(()),
        }
    }

    /// The phase that the builder is in.
    pub fn phase(&self) -> (r: Phase)
        requires
            self.wf(),
        ensures
            r == phase_of(self@),
    {
        if self.error.is_some() {
            Phase::Errored
        } else if !self.has_skipped_initial_crlf {
            Phase::Preamble
        } else if self.uri.is_none() {
            Phase::RequestLine
        } else if self.headers.is_none() {
            Phase::Headers
        } else if self.can_parse_more() {
            Phase::Body
        } else {
            Phase::Complete
        }
    }

    /// True while more bytes can bring the request forward: it is neither
    /// complete nor ended by an error.
    pub fn can_parse_more(&self) -> (r: bool)
        requires
            self.wf(),
        ensures
            r == (self@.error is None && !is_complete(self@)),
            r == (phase_of(self@) != Phase::Complete && phase_of(self@) != Phase::Errored),
    {
        if self.error.is_some() {
            return false;
        }
        // headers are not parsed yet, so we can parse more
        if self.headers.is_none() {
            return true;
        }
        match &self.body {
            None => false,
            Some(b) => !b.is_parsed(),
        }
    }

    /// Feeds the first `length` bytes of `vec` to the builder, which goes as
    /// far as the bytes that it then holds allow.
    pub fn parse(&mut self, vec: Vec<u8>, length: usize) -> (r: Result<Progress, Error>)
        requires
            old(self).wf(),
            length <= vec@.len(),
            old(self).buffered() + length <= usize::MAX,
        ensures
            final(self).wf(),
            final(self)@ == feed(old(self)@, vec@.take(length as int)),
            match final(self)@.error {
                Some(e) => r matches Err(x) && x@ == e,
                None => r == Ok::<Progress, Error>(
                    if is_complete(final(self)@) {
                        Progress::Complete
                    } else {
                        Progress::NeedMore
                    },
                ),
            },
            final(self).buffered() <= old(self).buffered() + length,
    {
        match &self.error {
            Some(e) => {
                return Err(e.clone());
            },
            None => {},
        }
        proof {
            self.fragmented_bytes.lemma_wf();
            lemma_feed_consistent(self@, vec@.take(length as int));
        }
        let ghost fed = BuilderView { pending: self@.pending + vec@.take(length as int), ..self@ };
        let bytes = Bytes::new(vec, length);
        self.fragmented_bytes.push_bytes(bytes);
        assert(self.fragmented_bytes.remaining() =~= fed.pending);
        let outcome = self.drive();
        let pruned = self.fragmented_bytes.take_remaining();
        self.fragmented_bytes = pruned;
        assert(self.fragmented_bytes.remaining() =~= self.fragmented_bytes.content());
        match outcome {
            Err(e) => {
                self.fragmented_bytes = FragmentedBytes::default();
                assert(self.fragmented_bytes.remaining() =~= Seq::<u8>::empty());
                Err(e)
            },
            Ok(_) => {
                if self.can_parse_more() {
                    Ok(Progress::NeedMore)
                } else {
                    Ok(Progress::Complete)
                }
            },
        }
    }

    /// Goes through the phases, as far as the bytes that are held allow.
    fn drive(&mut self) -> (r: Result<(), Error>)
        requires
            old(self).valid(),
            old(self)@.error is None,
        ensures
            final(self).valid(),
            final(self)@ == phases(old(self)@),
            match final(self)@.error {
                Some(e) => r matches Err(x) && x@ == e,
                None => r is Ok,
            },
            final(self).buffered() <= old(self).buffered(),
    {
        proof {
            self.fragmented_bytes.lemma_wf();
        }
        if !self.has_skipped_initial_crlf {
            let ghost input = self.fragmented_bytes.remaining();
            proof {
                lemma_skip_from_bounds(input, 0);
            }
            match skip_initial_crlf(&mut self.fragmented_bytes) {
                Err(e) => {
                    assert(self.fragmented_bytes.remaining() =~= input);
                    self.error = Some(e.clone());
                    return Err(e);
                },
                Ok(result) => {
                    proof {
                        match skip_empty_lines(input) {
                            Skipped::Ready(n) => {
                                assert(self.fragmented_bytes.remaining() =~= input.skip(n as int));
                            },
                            _ => {
                                assert(self.fragmented_bytes.remaining() =~= input);
                            },
                        }
                    }
                    self.has_skipped_initial_crlf = result;
                },
            }
        }
        if !self.has_skipped_initial_crlf {
            return Ok(());
        }
        match self.parse_request_line() {
            Err(e) => {
                return Err(e);
            },
            Ok(_) => {},
        }
        if self.uri.is_none() {
            return Ok(());
        }
        match self.parse_headers() {
            Err(e) => {
                return Err(e);
            },
            Ok(_) => {},
        }
        match self.create_request_body_builder() {
            Err(e) => {
                return Err(e);
            },
            Ok(_) => {},
        }
        self.parse_body()
    }

    /// Hands out the bytes that were received and not consumed, those of a
    /// request that follows on the same connection.
    pub fn take_remaining(&mut self) -> (r: FragmentedBytes)
        requires
            old(self).wf(),
        ensures
            final(self).wf(),
            final(self)@ == (BuilderView { pending: Seq::empty(), ..old(self)@ }),
            r.wf(),
            r.content() == old(self)@.pending,
            r.consumed() == 0,
    {
        let r = self.fragmented_bytes.take_remaining();
        assert(self.fragmented_bytes.remaining() =~= Seq::<u8>::empty());
        r
    }

    /// The request, once it is complete.
    pub fn build(self) -> (r: Result<Request, Error>)
        requires
            self.wf(),
        ensures
            match r {
                Ok(request) => is_complete(self@) && self@.line is Some && request.wf()
                    && request@ == (RequestView {
                    method: self@.line->0.method,
                    target: self@.line->0.target,
                    version: self@.line->0.version,
                    headers: self@.headers->0,
                    body: match self@.body {
                        Some(body) => Some(
                            if body.chunked {
                                RequestBodyView::Chunked(body.payloads.flatten())
                            } else {
                                RequestBodyView::Whole(body.payloads.flatten())
                            },
                        ),
                        None => None,
                    },
                }),
                Err(e) => !is_complete(self@) && e@ == ErrorView::RequestNotParsed,
            },
            r matches Ok(request) ==> (request@.body matches Some(RequestBodyView::Whole(bytes))
                ==> request@.headers.dom().contains("content-length"@)
                && request@.headers["content-length"@] == HeaderView::ContentLength(bytes.len())),
    {
        if self.can_parse_more() || self.error.is_some() {
            return Err(Error::RequestNotParsed);
        }
        proof {
            crate::request::laws::lemma_whole_body_length(self@);
        }
        let RequestBuilder {
            method,
            uri,
            http_version,
            headers,
            body,
            fragmented_bytes: _,
            has_skipped_initial_crlf: _,
            error: _,
        } = self;
        let body = match body {
            Some(b) => Some(b.build()),
            None => None,
        };
        match (method, uri, http_version, headers) {
            (Some(method), Some(uri), Some(http_version), Some(headers)) => Ok(
                Request::new(method, uri, http_version, headers, body),
            ),
            _ => Err(Error::RequestNotParsed),
        }
    }
}

} // verus!
