//! What holds of the reception of a request, whatever the bytes and however
//! they are cut into pieces.

use crate::headers::HeaderView;
use crate::helpers::parser::{
    crlf, double_crlf, lemma_skip_from_bounds, skip_empty_lines, skip_from, Skipped,
};
use crate::helpers::search::{find, lemma_find, lemma_find_extend};
use crate::request::request_body_builder::{
    chunk_header, rank, run_body, run_chunked, BodyRun, BodyView, ChunkStateView,
};
use crate::request::request_builder::{
    body_choice_phase, body_for, body_phase, feed, fresh_builder, headers_phase,
    is_complete, line_phase, phase_of, phases, settle, skip_phase, BuilderView, Phase,
};
use vstd::prelude::*;

verus! {

/// The builder with more bytes behind those that it holds.
pub open spec fn append(v: BuilderView, bytes: Seq<u8>) -> BuilderView {
    BuilderView { pending: v.pending + bytes, ..v }
}

/// What was read was read in order: no request line before the empty lines
/// are behind, no headers before the request line, no body before the headers.
pub open spec fn ordered(v: BuilderView) -> bool {
    &&& v.line is Some ==> v.skipped
    &&& v.headers is Some ==> v.line is Some
    &&& v.body is Some ==> v.headers is Some
}

/// The body is the one that the headers ask for, and a body of fixed length
/// holds nothing until it holds all of its bytes.
pub open spec fn consistent(v: BuilderView) -> bool {
    &&& ordered(v)
    &&& v.error is Some ==> v.pending.len() == 0
    &&& v.error is None && v.headers is Some && v.body is None ==> body_for(v.headers->0)
        == Ok::<Option<BodyView>, crate::errors::ErrorView>(None)
    &&& v.body matches Some(body) ==> {
        &&& body_for(v.headers->0) matches Ok(Some(fresh))
        &&& fresh.chunked == body.chunked
        &&& fresh.length == body.length
        &&& !body.chunked ==> if body.received {
            body.payloads.flatten().len() == body.length
        } else {
            body.payloads.flatten().len() == 0
        }
    }
}

/// The place of a phase in the order of the phases.
pub open spec fn phase_rank(phase: Phase) -> nat {
    match phase {
        Phase::Preamble => 0,
        Phase::RequestLine => 1,
        Phase::Headers => 2,
        Phase::Body => 3,
        Phase::Complete => 4,
        Phase::Errored => 5,
    }
}

/// Empty lines that end in a byte of the request line, or in a CR without
/// LF, end there whatever follows.
pub proof fn lemma_skip_extend(s: Seq<u8>, t: Seq<u8>, i: nat)
    ensures
        skip_from(s, i) is Ready ==> skip_from(s + t, i) == skip_from(s, i),
        skip_from(s, i) is LoneCr ==> skip_from(s + t, i) is LoneCr,
    decreases s.len() - i,
{
    let more = s + t;
    if i >= s.len() {
    } else {
        assert(more[i as int] == s[i as int]);
        if s[i as int] == 10 {
            lemma_skip_extend(s, t, i + 1);
        } else if s[i as int] == 13 {
            if i + 1 < s.len() {
                assert(more[i as int + 1] == s[i as int + 1]);
                if s[i as int + 1] == 10 {
                    lemma_skip_extend(s, t, i + 2);
                }
            }
        }
    }
}

/// A chunked body that has consumed input does with more input behind it
/// what it would have done with all of the input at once.
pub proof fn lemma_run_chunked_extend(body: BodyView, input: Seq<u8>, extra: Seq<u8>)
    ensures
        run_chunked(body, input).error is Some ==> run_chunked(body, input + extra) == (BodyRun {
            rest: run_chunked(body, input).rest + extra,
            ..run_chunked(body, input)
        }),
        run_chunked(body, input).error is None ==> run_chunked(body, input + extra) == run_chunked(
            run_chunked(body, input).body,
            run_chunked(body, input).rest + extra,
        ),
    decreases input.len(), rank(body.state),
{
    let more = input + extra;
    match body.state {
        ChunkStateView::AwaitChunkHeader => {
            lemma_find(input, crlf());
            match find(input, crlf()) {
                None => {},
                Some(k) => {
                    lemma_find_extend(input, extra, crlf());
                    assert(more.take(k) =~= input.take(k));
                    assert(more.skip(k + 2) =~= input.skip(k + 2) + extra);
                    match chunk_header(input.take(k)) {
                        Err(e) => {},
                        Ok((size, extensions)) => {
                            if size == 0 {
                                lemma_run_chunked_extend(
                                    BodyView { state: ChunkStateView::AwaitTrailerOrEnd, ..body },
                                    input.skip(k + 2),
                                    extra,
                                );
                            } else {
                                lemma_run_chunked_extend(
                                    BodyView {
                                        state: ChunkStateView::AwaitChunkData(
                                            size as nat,
                                            extensions,
                                        ),
                                        ..body
                                    },
                                    input.skip(k + 2),
                                    extra,
                                );
                            }
                        },
                    }
                },
            }
        },
        ChunkStateView::AwaitChunkData(size, extensions) => {
            if size <= input.len() {
                assert(more.take(size as int) =~= input.take(size as int));
                assert(more.skip(size as int) =~= input.skip(size as int) + extra);
                lemma_run_chunked_extend(
                    BodyView {
                        state: ChunkStateView::AwaitChunkTerminator,
                        payloads: body.payloads.push(input.take(size as int)),
                        ..body
                    },
                    input.skip(size as int),
                    extra,
                );
            }
        },
        ChunkStateView::AwaitChunkTerminator => {
            if input.len() >= 2 {
                assert(more[0] == input[0] && more[1] == input[1]);
                if input[0] == 13 && input[1] == 10 {
                    assert(more.skip(2) =~= input.skip(2) + extra);
                    lemma_run_chunked_extend(
                        BodyView { state: ChunkStateView::AwaitChunkHeader, ..body },
                        input.skip(2),
                        extra,
                    );
                }
            }
        },
        ChunkStateView::AwaitTrailerOrEnd => {
            if input.len() >= 2 && input[0] == 13 && input[1] == 10 {
                assert(more[0] == input[0] && more[1] == input[1]);
                assert(more.skip(2) =~= input.skip(2) + extra);
            } else {
                lemma_find(input, double_crlf());
                match find(input, double_crlf()) {
                    Some(k) => {
                        lemma_find_extend(input, extra, double_crlf());
                        assert(more[0] == input[0] && more[1] == input[1]);
                        assert(more.skip(k + 4) =~= input.skip(k + 4) + extra);
                    },
                    None => {},
                }
            }
        },
        ChunkStateView::Done => {},
    }
}

/// What ends the end of a sequence ends the sequence.
pub proof fn lemma_suffix_of_skip(rest: Seq<u8>, input: Seq<u8>, n: int)
    requires
        0 <= n <= input.len(),
        rest.is_suffix_of(input.skip(n)),
    ensures
        rest.is_suffix_of(input),
{
    let tail = input.skip(n);
    assert(rest =~= input.subrange(input.len() - rest.len(), input.len() as int)) by {
        assert(rest =~= tail.subrange(tail.len() - rest.len(), tail.len() as int));
    }
}

/// A chunked body stays a chunked body of the same announced length, and
/// keeps the payloads that it has, in their order, before those that it adds.
pub proof fn lemma_run_chunked_keeps(body: BodyView, input: Seq<u8>)
    ensures
        run_chunked(body, input).body.chunked == body.chunked,
        run_chunked(body, input).body.length == body.length,
        run_chunked(body, input).body.received == body.received,
        body.payloads.is_prefix_of(run_chunked(body, input).body.payloads),
        run_chunked(body, input).rest.is_suffix_of(input),
    decreases input.len(), rank(body.state),
{
    let rest = run_chunked(body, input).rest;
    match body.state {
        ChunkStateView::AwaitChunkHeader => {
            lemma_find(input, crlf());
            match find(input, crlf()) {
                None => {},
                Some(k) => {
                    match chunk_header(input.take(k)) {
                        Err(e) => {
                            lemma_suffix_of_skip(rest, input, k + 2);
                        },
                        Ok((size, extensions)) => {
                            if size == 0 {
                                lemma_run_chunked_keeps(
                                    BodyView { state: ChunkStateView::AwaitTrailerOrEnd, ..body },
                                    input.skip(k + 2),
                                );
                                lemma_suffix_of_skip(rest, input, k + 2);
                            } else {
                                lemma_run_chunked_keeps(
                                    BodyView {
                                        state: ChunkStateView::AwaitChunkData(
                                            size as nat,
                                            extensions,
                                        ),
                                        ..body
                                    },
                                    input.skip(k + 2),
                                );
                                lemma_suffix_of_skip(rest, input, k + 2);
                            }
                        },
                    }
                },
            }
        },
        ChunkStateView::AwaitChunkData(size, extensions) => {
            if size <= input.len() {
                lemma_run_chunked_keeps(
                    BodyView {
                        state: ChunkStateView::AwaitChunkTerminator,
                        payloads: body.payloads.push(input.take(size as int)),
                        ..body
                    },
                    input.skip(size as int),
                );
                lemma_suffix_of_skip(rest, input, size as int);
            }
        },
        ChunkStateView::AwaitChunkTerminator => {
            if input.len() >= 2 && input[0] == 13 && input[1] == 10 {
                lemma_run_chunked_keeps(
                    BodyView { state: ChunkStateView::AwaitChunkHeader, ..body },
                    input.skip(2),
                );
                lemma_suffix_of_skip(rest, input, 2);
            }
        },
        ChunkStateView::AwaitTrailerOrEnd => {
            lemma_find(input, double_crlf());
            if input.len() >= 2 && input[0] == 13 && input[1] == 10 {
                lemma_suffix_of_skip(rest, input, 2);
            } else if find(input, double_crlf()) is Some {
                lemma_suffix_of_skip(rest, input, find(input, double_crlf())->0 + 4);
            }
        },
        ChunkStateView::Done => {},
    }
}

/// A body that has consumed input does with more input behind it what it
/// would have done with all of the input at once.
pub proof fn lemma_run_body_extend(body: BodyView, input: Seq<u8>, extra: Seq<u8>)
    ensures
        run_body(body, input).error is Some ==> run_body(body, input + extra) == (BodyRun {
            rest: run_body(body, input).rest + extra,
            ..run_body(body, input)
        }),
        run_body(body, input).error is None ==> run_body(body, input + extra) == run_body(
            run_body(body, input).body,
            run_body(body, input).rest + extra,
        ),
{
    let more = input + extra;
    if body.chunked {
        lemma_run_chunked_extend(body, input, extra);
        lemma_run_chunked_keeps(body, input);
    } else if !body.received && body.length <= input.len() {
        assert(more.take(body.length as int) =~= input.take(body.length as int));
        assert(more.skip(body.length as int) =~= input.skip(body.length as int) + extra);
    }
}

/// The empty lines, once passed over with the bytes at hand, are passed
/// over in the same way with more bytes behind them.
pub proof fn lemma_skip_phase_extend(v: BuilderView, extra: Seq<u8>)
    requires
        v.error is None,
    ensures
        skip_phase(v).error is Some || skip_phase(v).skipped ==> skip_phase(append(v, extra))
            == append(skip_phase(v), extra),
        skip_phase(v).error is None && !skip_phase(v).skipped ==> skip_phase(v) == v,
{
    let u = append(v, extra);
    if !v.skipped {
        lemma_skip_extend(v.pending, extra, 0);
        lemma_skip_from_bounds(v.pending, 0);
        match skip_empty_lines(v.pending) {
            Skipped::Ready(n) => {
                assert(u.pending.skip(n as int) =~= v.pending.skip(n as int) + extra);
            },
            _ => {},
        }
    }
}

/// The request line, once read from the bytes at hand, is read in the same
/// way with more bytes behind them.
pub proof fn lemma_line_phase_extend(v: BuilderView, extra: Seq<u8>)
    requires
        v.error is None,
        v.skipped,
    ensures
        line_phase(v).error is Some || line_phase(v).line is Some ==> line_phase(append(v, extra))
            == append(line_phase(v), extra),
        line_phase(v).error is None && line_phase(v).line is None ==> line_phase(v) == v,
{
    let u = append(v, extra);
    if v.line is None {
        lemma_find(v.pending, crlf());
        match find(v.pending, crlf()) {
            Some(k) => {
                lemma_find_extend(v.pending, extra, crlf());
                assert(u.pending.take(k) =~= v.pending.take(k));
                assert(u.pending.skip(k + 2) =~= v.pending.skip(k + 2) + extra);
            },
            None => {},
        }
    }
}

/// The header block, once read from the bytes at hand, is read in the same
/// way with more bytes behind them.
pub proof fn lemma_headers_phase_extend(v: BuilderView, extra: Seq<u8>)
    requires
        v.error is None,
        v.line is Some,
    ensures
        headers_phase(v).error is Some || headers_phase(v).headers is Some ==> headers_phase(
            append(v, extra),
        ) == append(headers_phase(v), extra),
        headers_phase(v).error is None && headers_phase(v).headers is None ==> headers_phase(v)
            == v,
{
    let u = append(v, extra);
    if v.headers is None {
        lemma_find(v.pending, double_crlf());
        match find(v.pending, double_crlf()) {
            Some(k) => {
                lemma_find_extend(v.pending, extra, double_crlf());
                assert(u.pending.take(k) =~= v.pending.take(k));
                assert(u.pending.skip(k + 4) =~= v.pending.skip(k + 4) + extra);
            },
            None => {},
        }
    }
}

/// The body, once it has consumed the bytes at hand, does with more bytes
/// behind them what it would have done with all of them at once.
pub proof fn lemma_body_phase_extend(v: BuilderView, extra: Seq<u8>)
    requires
        v.error is None,
    ensures
        body_phase(v).error is Some ==> body_phase(append(v, extra)) == append(
            body_phase(v),
            extra,
        ),
        body_phase(v).error is None ==> body_phase(append(body_phase(v), extra)) == body_phase(
            append(v, extra),
        ),
{
    match v.body {
        Some(body) => {
            lemma_run_body_extend(body, v.pending, extra);
        },
        None => {},
    }
}

/// The last two phases, the choice of the body and the body, do with more
/// bytes what they would have done with all of the bytes at once.
proof fn lemma_body_phases_extend(v: BuilderView, extra: Seq<u8>)
    requires
        ordered(v),
        v.error is None,
        v.headers is Some,
    ensures
        phases(v) == body_phase(body_choice_phase(v)),
        phases(append(v, extra)) == body_phase(body_choice_phase(append(v, extra))),
        phases(v).error is Some ==> phases(append(v, extra)) == append(phases(v), extra),
        phases(v).error is None ==> phases(append(phases(v), extra)) == phases(append(v, extra)),
{
    let u = append(v, extra);
    let v4 = body_choice_phase(v);
    let u4 = body_choice_phase(u);
    assert(u4 == append(v4, extra));
    if v4.error is None {
        lemma_body_phase_extend(v4, extra);
        let p = body_phase(v4);
        if p.error is None {
            let q = append(p, extra);
            match v4.body {
                Some(body) => {
                    assert(body_choice_phase(q) == q);
                },
                None => {
                    assert(p == v4);
                    assert(body_choice_phase(q) == q);
                },
            }
        }
    }
}

/// The phases from the header block on do with more bytes what they would
/// have done with all of the bytes at once.
proof fn lemma_header_phases_extend(v: BuilderView, extra: Seq<u8>)
    requires
        ordered(v),
        v.error is None,
        v.line is Some,
    ensures
        phases(v) == body_phase(body_choice_phase(headers_phase(v))),
        phases(v).error is Some ==> phases(append(v, extra)) == append(phases(v), extra),
        phases(v).error is None ==> phases(append(phases(v), extra)) == phases(append(v, extra)),
{
    let u = append(v, extra);
    let v3 = headers_phase(v);
    lemma_headers_phase_extend(v, extra);
    if v3.error is None && v3.headers is Some {
        lemma_body_phases_extend(v3, extra);
    }
}

/// The phases from the request line on do with more bytes what they would
/// have done with all of the bytes at once.
proof fn lemma_line_phases_extend(v: BuilderView, extra: Seq<u8>)
    requires
        ordered(v),
        v.error is None,
        v.skipped,
    ensures
        phases(v).error is Some ==> phases(append(v, extra)) == append(phases(v), extra),
        phases(v).error is None ==> phases(append(phases(v), extra)) == phases(append(v, extra)),
{
    let v2 = line_phase(v);
    lemma_line_phase_extend(v, extra);
    if v2.error is None && v2.line is Some {
        lemma_header_phases_extend(v2, extra);
    }
}

/// The phases, gone through with the bytes at hand, do with more bytes
/// behind them what they would have done with all of the bytes at once.
pub proof fn lemma_phases_extend(v: BuilderView, extra: Seq<u8>)
    requires
        ordered(v),
        v.error is None,
    ensures
        phases(v).error is Some ==> phases(append(v, extra)) == append(phases(v), extra),
        phases(v).error is None ==> phases(append(phases(v), extra)) == phases(append(v, extra)),
{
    let v1 = skip_phase(v);
    lemma_skip_phase_extend(v, extra);
    if v1.error is None && v1.skipped {
        lemma_line_phases_extend(v1, extra);
    }
}

/// Partitioning invariance: bytes fed in two pieces lead to what the same
/// bytes lead to when fed in one piece.
pub proof fn lemma_feed_in_pieces(v: BuilderView, first: Seq<u8>, second: Seq<u8>)
    requires
        ordered(v),
    ensures
        feed(feed(v, first), second) == feed(v, first + second),
{
    if v.error is None {
        let w = append(v, first);
        lemma_phases_extend(w, second);
        assert(append(w, second).pending =~= v.pending + (first + second));
        assert(append(w, second) == append(v, first + second));
        if phases(w).error is Some {
            assert(settle(append(phases(w), second)).pending =~= settle(phases(w)).pending);
        }
    }
}

/// Feeding no bytes to a builder that was fed before changes nothing.
pub proof fn lemma_feed_nothing(v: BuilderView, bytes: Seq<u8>)
    requires
        ordered(v),
    ensures
        feed(feed(v, bytes), Seq::empty()) == feed(v, bytes),
{
    lemma_feed_in_pieces(v, bytes, Seq::empty());
    assert(bytes + Seq::<u8>::empty() =~= bytes);
}

/// A builder that has received nothing is consistent.
pub proof fn lemma_fresh_consistent()
    ensures
        consistent(fresh_builder()),
{
}

/// Whatever is fed to a consistent builder leaves it consistent.
pub proof fn lemma_feed_consistent(v: BuilderView, bytes: Seq<u8>)
    requires
        consistent(v),
    ensures
        consistent(feed(v, bytes)),
{
    if v.error is None {
        let v0 = append(v, bytes);
        let v1 = skip_phase(v0);
        let v2 = line_phase(v1);
        let v3 = headers_phase(v2);
        let v4 = body_choice_phase(v3);
        let v5 = body_phase(v4);
        assert(ordered(v4));
        if v4.error is None {
            match v4.body {
                Some(body) => {
                    assert(body.payloads.flatten().len() == 0 || v.body is Some) by {
                        if v.body is None {
                            assert(body.payloads =~= Seq::<Seq<u8>>::empty());
                        }
                    }
                    if body.chunked {
                        lemma_run_chunked_keeps(body, v4.pending);
                    } else if !body.received && body.length <= v4.pending.len() {
                        seq![v4.pending.take(body.length as int)].lemma_flatten_one_element();
                    }
                },
                None => {},
            }
        }
        assert(consistent(settle(v5)));
    }
}

/// Progress monotonicity: feeding bytes never takes a builder back to an
/// earlier phase.
pub proof fn lemma_feed_forward(v: BuilderView, bytes: Seq<u8>)
    requires
        consistent(v),
    ensures
        phase_rank(phase_of(feed(v, bytes))) >= phase_rank(phase_of(v)),
{
    if v.error is None {
        let v0 = append(v, bytes);
        let v1 = skip_phase(v0);
        let v2 = line_phase(v1);
        let v3 = headers_phase(v2);
        let v4 = body_choice_phase(v3);
        let v5 = body_phase(v4);
        if is_complete(v) {
            assert(v4 == v0);
            assert(is_complete(v5));
        }
    }
}

/// A complete request has its request line, and where it has a body of
/// fixed length, the body holds exactly as many bytes as the
/// `Content-Length` header announces.
pub proof fn lemma_whole_body_length(v: BuilderView)
    requires
        consistent(v),
        is_complete(v),
    ensures
        v.line is Some,
        v.body matches Some(body) ==> (!body.chunked ==> body.payloads.flatten().len()
            == body.length && v.headers->0.dom().contains("content-length"@)
            && v.headers->0["content-length"@] == HeaderView::ContentLength(body.length)),
{
}

/// One chunk on the wire, its first line, its data and the CR LF behind
/// each, adds exactly its data to the payloads of a chunked body;
/// what follows the chunk is read as the next one.
pub proof fn lemma_one_chunk(body: BodyView, line: Seq<u8>, data: Seq<u8>, rest: Seq<u8>)
    requires
        body.state is AwaitChunkHeader,
        find(line + crlf(), crlf()) == Some(line.len() as int),
        chunk_header(line) matches Ok(header) && header.0 == data.len(),
        data.len() > 0,
    ensures
        run_chunked(body, line + crlf() + data + crlf() + rest) == run_chunked(
            BodyView { payloads: body.payloads.push(data), ..body },
            rest,
        ),
{
    let size = data.len();
    let extensions = chunk_header(line)->Ok_0.1;
    let input = line + crlf() + data + crlf() + rest;
    let k = line.len() as int;
    assert(input =~= (line + crlf()) + (data + crlf() + rest));
    lemma_find_extend(line + crlf(), data + crlf() + rest, crlf());
    assert(input.take(k) =~= line);
    let after_line = data + crlf() + rest;
    assert(input.skip(k + 2) =~= after_line);
    let awaiting_data = BodyView { state: ChunkStateView::AwaitChunkData(size, extensions), ..body };
    assert(run_chunked(body, input) == run_chunked(awaiting_data, after_line));
    assert(after_line.take(size as int) =~= data);
    let after_data = crlf() + rest;
    assert(after_line.skip(size as int) =~= after_data);
    let awaiting_end = BodyView {
        state: ChunkStateView::AwaitChunkTerminator,
        payloads: body.payloads.push(data),
        ..body
    };
    assert(run_chunked(awaiting_data, after_line) == run_chunked(awaiting_end, after_data));
    assert(after_data[0] == 13 && after_data[1] == 10);
    assert(after_data.skip(2) =~= rest);
    assert(run_chunked(awaiting_end, after_data) == run_chunked(
        BodyView { state: ChunkStateView::AwaitChunkHeader, ..awaiting_end },
        rest,
    ));
}

/// The last chunk on the wire, a first line with the size zero, and the
/// empty line behind it complete a chunked body and add nothing to it.
pub proof fn lemma_last_chunk(body: BodyView, line: Seq<u8>, rest: Seq<u8>)
    requires
        body.state is AwaitChunkHeader,
        find(line + crlf(), crlf()) == Some(line.len() as int),
        chunk_header(line) matches Ok(header) && header.0 == 0,
    ensures
        run_chunked(body, line + crlf() + crlf() + rest) == (BodyRun {
            body: BodyView { state: ChunkStateView::Done, ..body },
            rest,
            error: None,
        }),
{
    let input = line + crlf() + crlf() + rest;
    let k = line.len() as int;
    assert(input =~= (line + crlf()) + (crlf() + rest));
    lemma_find_extend(line + crlf(), crlf() + rest, crlf());
    assert(input.take(k) =~= line);
    let after_line = crlf() + rest;
    assert(input.skip(k + 2) =~= after_line);
    let awaiting_end = BodyView { state: ChunkStateView::AwaitTrailerOrEnd, ..body };
    assert(run_chunked(body, input) == run_chunked(awaiting_end, after_line));
    assert(after_line[0] == 13 && after_line[1] == 10);
    assert(after_line.skip(2) =~= rest);
}

/// The builder fed with fragments, one after the other.
pub open spec fn feed_all(v: BuilderView, fragments: Seq<Seq<u8>>) -> BuilderView
    decreases fragments.len(),
{
    if fragments.len() == 0 {
        v
    } else {
        feed(feed_all(v, fragments.drop_last()), fragments.last())
    }
}

/// Whatever is fed to a builder that has read in order leaves it so.
pub proof fn lemma_feed_ordered(v: BuilderView, bytes: Seq<u8>)
    requires
        ordered(v),
    ensures
        ordered(feed(v, bytes)),
{
}

/// Partitioning invariance: bytes fed in any number of fragments lead to
/// what the same bytes lead to when fed in one piece.
pub proof fn lemma_feed_fragments(v: BuilderView, fragments: Seq<Seq<u8>>)
    requires
        ordered(v),
        fragments.len() > 0,
    ensures
        feed_all(v, fragments) == feed(v, fragments.flatten()),
        ordered(feed_all(v, fragments)),
    decreases fragments.len(),
{
    let front = fragments.drop_last();
    assert(fragments =~= front.push(fragments.last()));
    front.lemma_flatten_push(fragments.last());
    if front.len() == 0 {
        assert(front.flatten() + fragments.last() =~= fragments.last());
    } else {
        lemma_feed_fragments(v, front);
        lemma_feed_in_pieces(v, front.flatten(), fragments.last());
    }
    lemma_feed_ordered(feed_all(v, front), fragments.last());
}

/// No byte is consumed that was not received: what a builder holds after
/// it was fed is the end of what it held and what it was fed.
pub proof fn lemma_feed_within_received(v: BuilderView, bytes: Seq<u8>)
    requires
        v.error is Some ==> v.pending.len() == 0,
    ensures
        feed(v, bytes).pending.is_suffix_of(v.pending + bytes),
{
    if v.error is Some {
        let all = v.pending + bytes;
        assert(v.pending.is_suffix_of(all.skip(all.len() as int)));
        lemma_suffix_of_skip(v.pending, all, all.len() as int);
    } else {
        lemma_phases_within_received(v, bytes);
    }
}

/// What is held after the phases is the end of what was held before them.
proof fn lemma_phases_within_received(v: BuilderView, bytes: Seq<u8>)
    requires
        v.error is None,
    ensures
        feed(v, bytes).pending.is_suffix_of(v.pending + bytes),
{
    let v0 = append(v, bytes);
    let v1 = skip_phase(v0);
    let v2 = line_phase(v1);
    let v3 = headers_phase(v2);
    let v4 = body_choice_phase(v3);
    let v5 = body_phase(v4);
    let all = v0.pending;
    assert(all.is_suffix_of(all));
    lemma_skip_from_bounds(all, 0);
    if v1.pending != all {
        let n = skip_empty_lines(all)->Ready_0 as int;
        assert(v1.pending.is_suffix_of(all.skip(n)));
        lemma_suffix_of_skip(v1.pending, all, n);
    }
    lemma_find(v1.pending, crlf());
    if v2.pending != v1.pending {
        let k = find(v1.pending, crlf())->0;
        assert(v2.pending.is_suffix_of(v1.pending.skip(k + 2)));
        lemma_suffix_of_skip(v2.pending, v1.pending, k + 2);
    }
    lemma_suffix_chain(v2.pending, v1.pending, all);
    lemma_find(v2.pending, double_crlf());
    if v3.pending != v2.pending {
        let k = find(v2.pending, double_crlf())->0;
        assert(v3.pending.is_suffix_of(v2.pending.skip(k + 4)));
        lemma_suffix_of_skip(v3.pending, v2.pending, k + 4);
    }
    lemma_suffix_chain(v3.pending, v2.pending, all);
    if v4.error is None {
        match v4.body {
            Some(body) => {
                if body.chunked {
                    lemma_run_chunked_keeps(body, v4.pending);
                } else {
                    let n = if !body.received && body.length <= v4.pending.len() {
                        body.length as int
                    } else {
                        0
                    };
                    assert(v5.pending =~= v4.pending.skip(n));
                    assert(v5.pending.is_suffix_of(v4.pending.skip(n)));
                    lemma_suffix_of_skip(v5.pending, v4.pending, n);
                }
            },
            None => {},
        }
    }
    lemma_suffix_chain(v5.pending, v4.pending, all);
    let done = settle(v5);
    if v5.error is Some {
        assert(done.pending.is_suffix_of(all.skip(all.len() as int)));
        lemma_suffix_of_skip(done.pending, all, all.len() as int);
    }
}

/// The end of the end of a sequence is an end of the sequence.
pub proof fn lemma_suffix_chain(a: Seq<u8>, b: Seq<u8>, c: Seq<u8>)
    requires
        a.is_suffix_of(b),
        b.is_suffix_of(c),
    ensures
        a.is_suffix_of(c),
{
    assert(b =~= c.skip(c.len() - b.len()));
    lemma_suffix_of_skip(a, c, c.len() - b.len());
}

} // verus!
