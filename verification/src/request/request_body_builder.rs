//! Receiving a body: a fixed number of bytes, or a sequence of chunks.

use crate::errors::{Error, ErrorView};
use crate::headers::Headers;
use crate::helpers::bytes::{Bytes, FragmentedBytes};
use crate::helpers::number::{parse_number, parsed_number};
use crate::helpers::parser::{crlf, double_crlf, look_for_crlf, look_for_double_crlf};
use crate::helpers::search::{find, lemma_find, split};
use crate::request::request_body::RequestBody;
use crate::text::{
    chars_of, split_text, string_views, texts, to_string, trim, trim_text, utf8_text,
};
use vstd::prelude::*;
use vstd::string::*;
use vstd::utf8::{decode_utf8, valid_utf8};

verus! {

/// Where the reception of a chunked body stands.
#[derive(Debug)]
pub enum ChunkState {
    /// The first line of a chunk is awaited.
    AwaitChunkHeader,
    /// The data of a chunk of the given size is awaited; the extensions of
    /// its first line are kept beside it.
    AwaitChunkData(usize, Vec<String>),
    /// The CR LF behind the data of a chunk is awaited.
    AwaitChunkTerminator,
    /// The last chunk was seen; the trailer, or the empty line that ends the
    /// body, is awaited.
    AwaitTrailerOrEnd,
    /// The body is complete.
    Done,
}

/// A [`ChunkState`] as a mathematical value.
pub enum ChunkStateView {
    AwaitChunkHeader,
    AwaitChunkData(nat, Seq<Seq<char>>),
    AwaitChunkTerminator,
    AwaitTrailerOrEnd,
    Done,
}

impl View for ChunkState {
    type V = ChunkStateView;

    open spec fn view(&self) -> ChunkStateView {
        match self {
            ChunkState::AwaitChunkHeader => ChunkStateView::AwaitChunkHeader,
            ChunkState::AwaitChunkData(size, extensions) => ChunkStateView::AwaitChunkData(
                *size as nat,
                string_views(extensions@),
            ),
            ChunkState::AwaitChunkTerminator => ChunkStateView::AwaitChunkTerminator,
            ChunkState::AwaitTrailerOrEnd => ChunkStateView::AwaitTrailerOrEnd,
            ChunkState::Done => ChunkStateView::Done,
        }
    }
}

/// A chunked body under reception: the payloads of the chunks received so
/// far, and the state.
#[derive(Debug)]
pub struct ChunkedBody {
    chunks: FragmentedBytes,
    state: ChunkState,
}

impl ChunkedBody {
    pub closed spec fn wf(&self) -> bool {
        self.chunks.wf() && self.chunks.consumed() == 0
    }

    /// The payloads of the chunks received so far.
    pub closed spec fn payloads(&self) -> Seq<Seq<u8>> {
        self.chunks.fragments()
    }

    pub closed spec fn state(&self) -> ChunkStateView {
        self.state@
    }

    pub fn new() -> (r: ChunkedBody)
        ensures
            r.wf(),
            r.payloads() == Seq::<Seq<u8>>::empty(),
            r.state() is AwaitChunkHeader,
    {
        ChunkedBody { chunks: FragmentedBytes::default(), state: ChunkState::AwaitChunkHeader }
    }

    /// Adds the payload of a chunk.
    pub fn push_back(&mut self, buffer: Vec<u8>)
        requires
            old(self).wf(),
            old(self).payloads().flatten().len() + buffer@.len() <= usize::MAX,
        ensures
            final(self).wf(),
            final(self).payloads() == old(self).payloads().push(buffer@),
            final(self).state() == old(self).state(),
    {
        let len = buffer.len();
        let fragment = Bytes::new(buffer, len);
        assert(buffer@.take(len as int) =~= buffer@);
        self.chunks.push_bytes(fragment);
    }

    /// Remembers a chunk whose first line was read and whose data is awaited.
    pub fn set_pending(&mut self, chunk_size: usize, extensions: Vec<String>)
        ensures
            final(self).wf() == old(self).wf(),
            final(self).payloads() == old(self).payloads(),
            final(self).state() == ChunkStateView::AwaitChunkData(
                chunk_size as nat,
                string_views(extensions@),
            ),
    {
        self.state = ChunkState::AwaitChunkData(chunk_size, extensions);
    }

    /// Takes out the chunk whose data is awaited, where there is one; the
    /// state is then that in which the first line of a chunk is awaited.
    pub fn get_pending(&mut self) -> (r: Option<(usize, Vec<String>)>)
        ensures
            final(self).wf() == old(self).wf(),
            final(self).payloads() == old(self).payloads(),
            match old(self).state() {
                ChunkStateView::AwaitChunkData(size, extensions) => r matches Some(p) && p.0 == size
                    && string_views(p.1@) == extensions && final(self).state()
                    is AwaitChunkHeader,
                _ => r is None && final(self).state() == old(self).state(),
            },
    {
        let mut state = ChunkState::AwaitChunkHeader;
        core::mem::swap(&mut self.state, &mut state);
        match state {
            ChunkState::AwaitChunkData(size, extensions) => Some((size, extensions)),
            other => {
                self.state = other;
                None
            },
        }
    }

    /// True once the body is complete.
    pub fn is_completed(&self) -> (r: bool)
        ensures
            r == (self.state() is Done),
    {
        match self.state {
            ChunkState::Done => true,
            _ => false,
        }
    }

    /// True while a chunk is remembered whose data is awaited.
    pub fn has_pending(&self) -> (r: bool)
        ensures
            r == (self.state() is AwaitChunkData),
    {
        match self.state {
            ChunkState::AwaitChunkData(_, _) => true,
            _ => false,
        }
    }

    /// The payloads of the chunks received so far.
    pub fn chunks(&self) -> (r: &FragmentedBytes)
        requires
            self.wf(),
        ensures
            r.wf(),
            r.fragments() == self.payloads(),
            r.consumed() == 0,
    {
        &self.chunks
    }
}

/// A body under reception.
#[derive(Debug)]
pub enum PartialRequestBody {
    Chunked(ChunkedBody),
    Whole(FragmentedBytes),
}

impl PartialRequestBody {
    pub open spec fn wf(&self) -> bool {
        match self {
            PartialRequestBody::Chunked(body) => body.wf(),
            PartialRequestBody::Whole(rope) => rope.wf() && rope.consumed() == 0,
        }
    }

    /// The payloads received so far.
    pub open spec fn payloads(&self) -> Seq<Seq<u8>> {
        match self {
            PartialRequestBody::Chunked(body) => body.payloads(),
            PartialRequestBody::Whole(rope) => rope.fragments(),
        }
    }

    /// Adds the payload of a chunk to a chunked body; a body of fixed length stays.
    pub fn push_buffer(&mut self, buffer: Vec<u8>)
        requires
            old(self).wf(),
            old(self).payloads().flatten().len() + buffer@.len() <= usize::MAX,
        ensures
            final(self).wf(),
            match *old(self) {
                PartialRequestBody::Chunked(body) => *final(self) matches PartialRequestBody::Chunked(
                    after,
                ) && after.payloads() == body.payloads().push(buffer@) && after.state()
                    == body.state(),
                PartialRequestBody::Whole(_) => *final(self) == *old(self),
            },
    {
        match self {
            PartialRequestBody::Chunked(list) => {
                list.push_back(buffer);
            },
            _ => (),
        }
    }
}

/// A body under reception, as a mathematical value.
pub struct BodyView {
    /// The body comes in chunks.
    pub chunked: bool,
    /// For a body of fixed length: the number of its bytes.
    pub length: nat,
    /// For a body of fixed length: its bytes were received.
    pub received: bool,
    /// For a chunked body: where its reception stands.
    pub state: ChunkStateView,
    /// The payloads received so far.
    pub payloads: Seq<Seq<u8>>,
}

/// The outcome of letting a body consume input.
pub struct BodyRun {
    /// The body afterwards.
    pub body: BodyView,
    /// The input that was not consumed.
    pub rest: Seq<u8>,
    /// The error that ended the reception, if there was one.
    pub error: Option<ErrorView>,
}

/// What the error for chunk data without CR LF behind it carries.
pub open spec fn chunk_end_message() -> Seq<char> {
    "the data of a chunk is not followed by CR LF"@
}

/// The size and the extensions on the first line of a chunk. The line is
/// UTF-8 text; its parts stand between semicolons, each without the blanks
/// around it; the first part is the size in hexadecimal digits.
pub open spec fn chunk_header(line: Seq<u8>) -> Result<(usize, Seq<Seq<char>>), ErrorView> {
    if !valid_utf8(line) {
        Err(ErrorView::InvalidUtf8String(line))
    } else {
        let parts = split(decode_utf8(line), seq![';']).map_values(|p: Seq<char>| trim(p));
        match parsed_number(parts[0], 16) {
            Some(size) => Ok((size, parts.skip(1))),
            None => Err(ErrorView::ParseIntError(parts[0])),
        }
    }
}

/// True once nothing more of the body is awaited.
pub open spec fn body_is_parsed(body: BodyView) -> bool {
    if body.chunked {
        body.state is Done
    } else {
        body.received
    }
}

/// The state of a body in which nothing can happen without input.
pub open spec fn rank(state: ChunkStateView) -> nat {
    match state {
        ChunkStateView::AwaitChunkData(_, _) => 1,
        _ => 0,
    }
}

/// A chunked body consumes input, as far as the input goes.
pub open spec fn run_chunked(body: BodyView, input: Seq<u8>) -> BodyRun
    decreases input.len(), rank(body.state),
{
    let stay = BodyRun { body, rest: input, error: None };
    match body.state {
        ChunkStateView::AwaitChunkHeader => match find(input, crlf()) {
            None => stay,
            Some(k) => if 0 <= k && k + 2 <= input.len() {
                match chunk_header(input.take(k)) {
                    Err(e) => BodyRun { body, rest: input.skip(k + 2), error: Some(e) },
                    Ok((size, extensions)) => if size == 0 {
                        run_chunked(
                            BodyView { state: ChunkStateView::AwaitTrailerOrEnd, ..body },
                            input.skip(k + 2),
                        )
                    } else {
                        run_chunked(
                            BodyView {
                                state: ChunkStateView::AwaitChunkData(size as nat, extensions),
                                ..body
                            },
                            input.skip(k + 2),
                        )
                    },
                }
            } else {
                stay
            },
        },
        ChunkStateView::AwaitChunkData(size, extensions) => if size <= input.len() {
            run_chunked(
                BodyView {
                    state: ChunkStateView::AwaitChunkTerminator,
                    payloads: body.payloads.push(input.take(size as int)),
                    ..body
                },
                input.skip(size as int),
            )
        } else {
            stay
        },
        ChunkStateView::AwaitChunkTerminator => if input.len() < 2 {
            stay
        } else if input[0] == 13 && input[1] == 10 {
            run_chunked(BodyView { state: ChunkStateView::AwaitChunkHeader, ..body }, input.skip(2))
        } else {
            BodyRun { body, rest: input, error: Some(ErrorView::InvalidCrlf(chunk_end_message())) }
        },
        ChunkStateView::AwaitTrailerOrEnd => if input.len() >= 2 && input[0] == 13 && input[1]
            == 10 {
            BodyRun {
                body: BodyView { state: ChunkStateView::Done, ..body },
                rest: input.skip(2),
                error: None,
            }
        } else {
            match find(input, double_crlf()) {
                Some(k) => BodyRun {
                    body: BodyView { state: ChunkStateView::Done, ..body },
                    rest: input.skip(k + 4),
                    error: None,
                },
                None => stay,
            }
        },
        ChunkStateView::Done => stay,
    }
}

/// A body of fixed length consumes input: once as many bytes as it needs are
/// there, they are its content; what follows them is left.
pub open spec fn run_whole(body: BodyView, input: Seq<u8>) -> BodyRun {
    if !body.received && body.length <= input.len() {
        BodyRun {
            body: BodyView {
                received: true,
                payloads: seq![input.take(body.length as int)],
                ..body
            },
            rest: input.skip(body.length as int),
            error: None,
        }
    } else {
        BodyRun { body, rest: input, error: None }
    }
}

/// A body consumes input.
pub open spec fn run_body(body: BodyView, input: Seq<u8>) -> BodyRun {
    if body.chunked {
        run_chunked(body, input)
    } else {
        run_whole(body, input)
    }
}

/// A text has at least one part between its delimiters.
pub proof fn lemma_split_nonempty<A>(s: Seq<A>, d: Seq<A>)
    ensures
        split(s, d).len() >= 1,
{
}

/// Receives a body from a rope.
#[derive(Debug)]
pub struct RequestBodyBuilder {
    body_length: usize,
    body: PartialRequestBody,
    received: bool,
}

impl View for RequestBodyBuilder {
    type V = BodyView;

    closed spec fn view(&self) -> BodyView {
        match self.body {
            PartialRequestBody::Chunked(body) => BodyView {
                chunked: true,
                length: self.body_length as nat,
                received: self.received,
                state: body.state(),
                payloads: body.payloads(),
            },
            PartialRequestBody::Whole(rope) => BodyView {
                chunked: false,
                length: self.body_length as nat,
                received: self.received,
                state: ChunkStateView::AwaitChunkHeader,
                payloads: rope.fragments(),
            },
        }
    }
}

impl RequestBodyBuilder {
    pub closed spec fn wf(&self) -> bool {
        self.body.wf()
    }

    /// The payloads received so far fit the machine's word, taken together.
    pub proof fn lemma_wf(&self)
        requires
            self.wf(),
        ensures
            self@.payloads.flatten().len() <= usize::MAX,
    {
        match self.body {
            PartialRequestBody::Chunked(body) => {
                body.chunks.lemma_wf();
            },
            PartialRequestBody::Whole(rope) => {
                rope.lemma_wf();
            },
        }
    }

    pub fn new_chunked() -> (r: RequestBodyBuilder)
        ensures
            r.wf(),
            r@ == (BodyView {
                chunked: true,
                length: 0,
                received: false,
                state: ChunkStateView::AwaitChunkHeader,
                payloads: Seq::empty(),
            }),
    {
        RequestBodyBuilder {
            body_length: 0,
            body: PartialRequestBody::Chunked(ChunkedBody::new()),
            received: false,
        }
    }

    pub fn new_whole(content_length: usize) -> (r: RequestBodyBuilder)
        ensures
            r.wf(),
            r@ == (BodyView {
                chunked: false,
                length: content_length as nat,
                received: false,
                state: ChunkStateView::AwaitChunkHeader,
                payloads: Seq::empty(),
            }),
    {
        RequestBodyBuilder {
            body_length: content_length,
            body: PartialRequestBody::Whole(FragmentedBytes::default()),
            received: false,
        }
    }

    pub fn set_body_length(&mut self, new_length: usize)
        ensures
            final(self).wf() == old(self).wf(),
            final(self)@ == (BodyView { length: new_length as nat, ..old(self)@ }),
    {
        self.body_length = new_length;
    }

    pub fn body_length(&self) -> (r: usize)
        ensures
            r == self@.length,
    {
        self.body_length
    }

    /// The body under reception.
    pub fn body(&self) -> (r: &PartialRequestBody)
        requires
            self.wf(),
        ensures
            r.wf(),
            r.payloads() == self@.payloads,
            r is Chunked == self@.chunked,
            r matches PartialRequestBody::Chunked(body) ==> body.state() == self@.state,
    {
        &self.body
    }

    pub fn is_parsed(&self) -> (r: bool)
        ensures
            r == body_is_parsed(self@),
    {
        match &self.body {
            PartialRequestBody::Whole(_) => self.received,
            PartialRequestBody::Chunked(b) => b.is_completed(),
        }
    }

    /// Lets the body consume what the rope holds behind its read cursor.
    pub fn parse(&mut self, bytes: &mut FragmentedBytes, message_headers: &Headers) -> (r: Result<
        (),
        Error,
    >)
        requires
            old(self).wf(),
            old(bytes).wf(),
            old(self)@.payloads.flatten().len() + old(bytes).remaining().len() <= usize::MAX,
        ensures
            final(self).wf(),
            final(bytes).wf(),
            final(bytes).fragments() == old(bytes).fragments(),
            final(bytes).consumed() >= old(bytes).consumed(),
            final(self)@ == run_body(old(self)@, old(bytes).remaining()).body,
            final(bytes).remaining() == run_body(old(self)@, old(bytes).remaining()).rest,
            match run_body(old(self)@, old(bytes).remaining()).error {
                Some(e) => r matches Err(x) && x@ == e,
                None => r is Ok,
            },
            final(self)@.payloads.flatten().len() + final(bytes).remaining().len() <= old(
                self,
            )@.payloads.flatten().len() + old(bytes).remaining().len(),
    {
        if self.is_chunked() {
            self.parse_chunked(bytes, message_headers)
        } else {
            self.parse_whole(bytes)
        }
    }

    pub fn build(self) -> (r: RequestBody)
        requires
            self.wf(),
        ensures
            r.wf(),
            self@.chunked ==> r@ == crate::request::request_body::RequestBodyView::Chunked(
                self@.payloads.flatten(),
            ),
            !self@.chunked ==> r@ == crate::request::request_body::RequestBodyView::Whole(
                self@.payloads.flatten(),
            ),
    {
        match self.body {
            PartialRequestBody::Chunked(b) => {
                assert(b.chunks.remaining() =~= b.chunks.content());
                RequestBody::Chunked(b.chunks)
            },
            PartialRequestBody::Whole(b) => {
                assert(b.remaining() =~= b.content());
                RequestBody::Whole(b)
            },
        }
    }

    pub fn is_chunked(&self) -> (r: bool)
        ensures
            r == self@.chunked,
    {
        match self.body {
            PartialRequestBody::Chunked(_) => true,
            _ => false,
        }
    }

    fn parse_chunked(&mut self, bytes: &mut FragmentedBytes, message_headers: &Headers) -> (r:
        Result<(), Error>)
        requires
            old(self).wf(),
            old(bytes).wf(),
            old(self)@.chunked,
            old(self)@.payloads.flatten().len() + old(bytes).remaining().len() <= usize::MAX,
        ensures
            final(self).wf(),
            final(bytes).wf(),
            final(bytes).fragments() == old(bytes).fragments(),
            final(bytes).consumed() >= old(bytes).consumed(),
            final(self)@ == run_chunked(old(self)@, old(bytes).remaining()).body,
            final(bytes).remaining() == run_chunked(old(self)@, old(bytes).remaining()).rest,
            match run_chunked(old(self)@, old(bytes).remaining()).error {
                Some(e) => r matches Err(x) && x@ == e,
                None => r is Ok,
            },
            final(self)@.payloads.flatten().len() + final(bytes).remaining().len() <= old(
                self,
            )@.payloads.flatten().len() + old(bytes).remaining().len(),
    {
        let ghost goal = run_chunked(old(self)@, old(bytes).remaining());
        let ghost budget = old(self)@.payloads.flatten().len() + old(bytes).remaining().len();
        loop
            invariant
                self.wf(),
                bytes.wf(),
                self@.chunked,
                bytes.fragments() == old(bytes).fragments(),
                bytes.consumed() >= old(bytes).consumed(),
                goal == run_chunked(old(self)@, old(bytes).remaining()),
                budget == old(self)@.payloads.flatten().len() + old(bytes).remaining().len(),
                run_chunked(self@, bytes.remaining()) == goal,
                self@.payloads.flatten().len() + bytes.remaining().len() <= budget <= usize::MAX,
            decreases bytes.remaining().len(), rank(self@.state),
        {
            let ghost input = bytes.remaining();
            let ghost before = self@;
            proof {
                bytes.lemma_wf();
            }
            let body = match &mut self.body {
                PartialRequestBody::Whole(_) => {
                    return Ok(());
                },
                PartialRequestBody::Chunked(b) => b,
            };
            match body.get_pending() {
                Some((chunk_size, extensions)) => {
                    let buffer = bytes.copy_buffer_of_len(chunk_size);
                    match buffer {
                        None => {
                            // the data of the chunk has not arrived yet
                            body.set_pending(chunk_size, extensions);
                            return Ok(());
                        },
                        Some(data) => {
                            bytes.advance_read_pos(chunk_size);
                            proof {
                                before.payloads.lemma_flatten_push(data@);
                                assert(bytes.remaining() =~= input.skip(chunk_size as int));
                            }
                            body.state = ChunkState::AwaitChunkTerminator;
                            body.push_back(data);
                        },
                    }
                },
                None => {
                    match body.state {
                        ChunkState::AwaitChunkHeader => {
                            proof {
                                lemma_find(input, crlf());
                            }
                            let first_line = RequestBodyBuilder::get_chunk_data(bytes);
                            proof {
                                let k = find(input, crlf());
                                if k is Some {
                                    assert(bytes.remaining() =~= input.skip(k->0 + 2));
                                }
                            }
                            match first_line {
                                Err(e) => {
                                    return Err(e);
                                },
                                Ok(None) => {
                                    return Ok(());
                                },
                                Ok(Some((chunk_size, extensions))) => {
                                    if chunk_size == 0 {
                                        body.state = ChunkState::AwaitTrailerOrEnd;
                                    } else {
                                        body.set_pending(chunk_size, extensions);
                                    }
                                },
                            }
                        },
                        ChunkState::AwaitChunkTerminator => {
                            let first = bytes.peek_at(0);
                            let second = bytes.peek_at(1);
                            match (first, second) {
                                (Some(a), Some(b)) => {
                                    if a == 13 && b == 10 {
                                        bytes.advance_read_pos(2);
                                        proof {
                                            assert(bytes.remaining() =~= input.skip(2));
                                        }
                                        body.state = ChunkState::AwaitChunkHeader;
                                    } else {
                                        return Err(
                                            Error::InvalidCrlf(
                                                String::from_str(
                                                    "the data of a chunk is not followed by CR LF",
                                                ),
                                            ),
                                        );
                                    }
                                },
                                _ => {
                                    return Ok(());
                                },
                            }
                        },
                        ChunkState::AwaitTrailerOrEnd => {
                            self.parse_last_chunk(bytes, message_headers);
                            return Ok(());
                        },
                        _ => {
                            return Ok(());
                        },
                    }
                },
            }
        }
    }

    /// Reads what follows the last chunk: the empty line that ends the body,
    /// with the lines of a trailer before it or without. The trailer is
    /// passed over.
    fn parse_last_chunk(&mut self, bytes: &mut FragmentedBytes, message_headers: &Headers)
        requires
            old(self).wf(),
            old(bytes).wf(),
            old(self)@.chunked,
            old(self)@.state is AwaitTrailerOrEnd,
        ensures
            final(self).wf(),
            final(bytes).wf(),
            final(bytes).fragments() == old(bytes).fragments(),
            final(bytes).consumed() >= old(bytes).consumed(),
            final(self)@ == run_chunked(old(self)@, old(bytes).remaining()).body,
            final(bytes).remaining() == run_chunked(old(self)@, old(bytes).remaining()).rest,
            run_chunked(old(self)@, old(bytes).remaining()).error is None,
            final(bytes).remaining().len() <= old(bytes).remaining().len(),
            final(self)@.payloads == old(self)@.payloads,
    {
        let ghost input = bytes.remaining();
        proof {
            bytes.lemma_wf();
        }
        let body = match &mut self.body {
            PartialRequestBody::Whole(_) => {
                return ;
            },
            PartialRequestBody::Chunked(b) => b,
        };
        let first = bytes.peek_at(0);
        let second = bytes.peek_at(1);
        let ends_here = match (first, second) {
            (Some(a), Some(b)) => a == 13 && b == 10,
            _ => false,
        };
        if ends_here {
            bytes.advance_read_pos(2);
            proof {
                assert(bytes.remaining() =~= input.skip(2));
            }
            body.state = ChunkState::Done;
            return ;
        }
        proof {
            lemma_find(input, double_crlf());
        }
        match look_for_double_crlf(bytes) {
            Some(_) => {
                proof {
                    let k = find(input, double_crlf())->0;
                    assert(bytes.remaining() =~= input.skip(k + 4));
                }
                body.state = ChunkState::Done;
            },
            None => {
                proof {
                    assert(bytes.remaining() =~= input);
                }
            },
        }
    }

    /// Reads the first line of a chunk: its size, and its extensions. While
    /// the line has not arrived in full, nothing is consumed.
    pub fn get_chunk_data(bytes: &mut FragmentedBytes) -> (r: Result<
        Option<(usize, Vec<String>)>,
        Error,
    >)
        requires
            old(bytes).wf(),
        ensures
            final(bytes).wf(),
            final(bytes).fragments() == old(bytes).fragments(),
            final(bytes).consumed() >= old(bytes).consumed(),
            match find(old(bytes).remaining(), crlf()) {
                None => r matches Ok(None) && final(bytes).consumed() == old(bytes).consumed(),
                Some(k) => final(bytes).consumed() == old(bytes).consumed() + k + 2 && match chunk_header(
                    old(bytes).remaining().take(k),
                ) {
                    Ok((size, extensions)) => r matches Ok(Some(p)) && p.0 == size && string_views(
                        p.1@,
                    ) == extensions,
                    Err(e) => r matches Err(x) && x@ == e,
                },
            },
    {
        let first_line = look_for_crlf(bytes);
        let first_line = match first_line {
            None => {
                return Ok(None);
            },
            Some(f) => f,
        };
        let ghost line = first_line@;
        let first_line_string = match utf8_text(first_line) {
            Err(raw) => {
                return Err(Error::InvalidUtf8String(raw));
            },
            Ok(f) => f,
        };
        let text = chars_of(first_line_string.as_str());
        let semicolon: Vec<char> = vec![';'];
        assert(semicolon@ =~= seq![';']);
        let pieces = split_text(&text, &semicolon);
        let ghost parts = split(decode_utf8(line), seq![';']).map_values(|p: Seq<char>| trim(p));
        proof {
            lemma_split_nonempty(decode_utf8(line), seq![';']);
        }
        let mut first_line_parts: Vec<String> = Vec::new();
        let mut i: usize = 1;
        assert(parts.skip(1).take(0) =~= Seq::<Seq<char>>::empty());
        assert(string_views(first_line_parts@) =~= Seq::<Seq<char>>::empty());
        while i < pieces.len()
            invariant
                1 <= i <= pieces.len(),
                texts(pieces@) == split(decode_utf8(line), seq![';']),
                parts == split(decode_utf8(line), seq![';']).map_values(|p: Seq<char>| trim(p)),
                string_views(first_line_parts@) == parts.skip(1).take(i - 1),
            decreases pieces.len() - i,
        {
            let part = trim_text(&pieces[i]);
            let part = to_string(&part);
            assert(texts(pieces@)[i as int] == pieces@[i as int]@);
            let ghost before = string_views(first_line_parts@);
            first_line_parts.push(part);
            assert(string_views(first_line_parts@) =~= before.push(part@));
            assert(parts.skip(1).take(i as int) =~= before.push(part@));
            i += 1;
        }
        assert(parts.skip(1).take(i - 1) =~= parts.skip(1));
        assert(texts(pieces@)[0] == pieces@[0]@);
        let chunk_size = trim_text(&pieces[0]);
        match parse_number(&chunk_size, 16) {
            None => Err(Error::ParseIntError(to_string(&chunk_size))),
            Some(s) => Ok(Some((s, first_line_parts))),
        }
    }

    fn parse_whole(&mut self, bytes: &mut FragmentedBytes) -> (r: Result<(), Error>)
        requires
            old(self).wf(),
            old(bytes).wf(),
            !old(self)@.chunked,
            old(self)@.payloads.flatten().len() + old(bytes).remaining().len() <= usize::MAX,
        ensures
            final(self).wf(),
            final(bytes).wf(),
            final(bytes).fragments() == old(bytes).fragments(),
            final(bytes).consumed() >= old(bytes).consumed(),
            final(self)@ == run_whole(old(self)@, old(bytes).remaining()).body,
            final(bytes).remaining() == run_whole(old(self)@, old(bytes).remaining()).rest,
            r is Ok,
            final(self)@.payloads.flatten().len() + final(bytes).remaining().len() <= old(
                self,
            )@.payloads.flatten().len() + old(bytes).remaining().len(),
    {
        let ghost input = bytes.remaining();
        proof {
            bytes.lemma_wf();
        }
        if self.received {
            return Ok(());
        }
        match bytes.copy_buffer_of_len(self.body_length) {
            None => {},
            Some(data) => {
                bytes.advance_read_pos(self.body_length);
                proof {
                    assert(bytes.remaining() =~= input.skip(self.body_length as int));
                    seq![data@].lemma_flatten_one_element();
                }
                let len = data.len();
                let fragment = Bytes::new(data, len);
                assert(data@.take(len as int) =~= data@);
                let mut rope = FragmentedBytes::default();
                rope.push_bytes(fragment);
                assert(rope.fragments() =~= seq![data@]);
                self.body = PartialRequestBody::Whole(rope);
                self.received = true;
            },
        }
        Ok(())
    }
}

} // verus!
