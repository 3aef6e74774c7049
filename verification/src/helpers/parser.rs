//! Scanning a rope: the search for a delimiter, and the empty lines that may
//! stand before a request.

use crate::errors::{Error, ErrorView};
use crate::helpers::bytes::FragmentedBytes;
use crate::helpers::search::{find, lemma_find_is, lemma_find_none, occurs_at};
use vstd::prelude::*;
use vstd::string::*;

verus! {

/// CR LF.
pub open spec fn crlf() -> Seq<u8> {
    seq![13u8, 10u8]
}

/// CR LF CR LF.
pub open spec fn double_crlf() -> Seq<u8> {
    seq![13u8, 10u8, 13u8, 10u8]
}

/// What the empty lines at the head of the input lead to.
pub enum Skipped {
    /// So many bytes of empty lines, and then a byte that is neither CR nor LF.
    Ready(nat),
    /// Nothing but empty lines so far, the last of them perhaps unfinished.
    NeedMore,
    /// A CR that is followed by something other than LF.
    LoneCr,
}

/// Walks over CR LF pairs and single LFs, from index `i` on.
pub open spec fn skip_from(s: Seq<u8>, i: nat) -> Skipped
    decreases s.len() - i,
{
    if i >= s.len() {
        Skipped::NeedMore
    } else if s[i as int] == 10 {
        skip_from(s, i + 1)
    } else if s[i as int] == 13 {
        if i + 1 >= s.len() {
            Skipped::NeedMore
        } else if s[i as int + 1] == 10 {
            skip_from(s, i + 2)
        } else {
            Skipped::LoneCr
        }
    } else {
        Skipped::Ready(i)
    }
}

/// The byte that ends the empty lines lies within the input.
pub proof fn lemma_skip_from_bounds(s: Seq<u8>, i: nat)
    ensures
        skip_from(s, i) matches Skipped::Ready(n) ==> i <= n < s.len(),
    decreases s.len() - i,
{
    if i >= s.len() {
    } else if s[i as int] == 10 {
        lemma_skip_from_bounds(s, i + 1);
    } else if s[i as int] == 13 {
        if i + 1 < s.len() && s[i as int + 1] == 10 {
            lemma_skip_from_bounds(s, i + 2);
        }
    }
}

/// Walks over the empty lines at the head of `s`.
pub open spec fn skip_empty_lines(s: Seq<u8>) -> Skipped {
    skip_from(s, 0)
}

/// What the error for a CR without LF carries.
pub open spec fn lone_cr_message() -> Seq<char> {
    "a CR is not followed by LF"@
}

/// True when both hold the same bytes.
fn same_bytes(a: &Vec<u8>, b: &Vec<u8>) -> (r: bool)
    ensures
        r == (a@ == b@),
{
    if a.len() != b.len() {
        return false;
    }
    let mut i: usize = 0;
    while i < a.len()
        invariant
            i <= a.len(),
            a.len() == b.len(),
            forall|j: int| 0 <= j < i ==> a@[j] == b@[j],
        decreases a.len() - i,
    {
        if a[i] != b[i] {
            return false;
        }
        i += 1;
    }
    assert(a@ =~= b@);
    true
}

/// Puts `byte` at the end of a window of at most `size` bytes; from a full
/// window the oldest byte leaves.
pub fn push_to_buffer(buf: &mut Vec<u8>, byte: u8, size: usize)
    requires
        size > 0,
        old(buf)@.len() <= size,
    ensures
        final(buf)@ == (if old(buf)@.len() < size {
            old(buf)@.push(byte)
        } else {
            old(buf)@.drop_first().push(byte)
        }),
{
    let len = buf.len();
    if len != size {
        buf.push(byte);
        return ;
    }
    let mut i: usize = 1;
    while i < len
        invariant
            1 <= i <= len,
            len == size,
            buf@.len() == len,
            forall|j: int| 0 <= j < i - 1 ==> buf@[j] == old(buf)@[j + 1],
            forall|j: int| i - 1 <= j < len ==> buf@[j] == old(buf)@[j],
        decreases len - i,
    {
        let moved = buf[i];
        buf.set(i - 1, moved);
        i += 1;
    }
    buf.set(len - 1, byte);
    assert(buf@ =~= old(buf)@.drop_first().push(byte));
}

/// Looks for the earliest occurrence of `delimiter` behind the read cursor.
/// Where there is one, the bytes before it are returned and the read cursor
/// moves just past it; where there is none, the read cursor stays.
pub fn look_for_delimiter(bytes: &mut FragmentedBytes, delimiter: &Vec<u8>) -> (r: Option<
    Vec<u8>,
>)
    requires
        old(bytes).wf(),
        delimiter@.len() > 0,
    ensures
        final(bytes).wf(),
        final(bytes).fragments() == old(bytes).fragments(),
        final(bytes).consumed() >= old(bytes).consumed(),
        match find(old(bytes).remaining(), delimiter@) {
            Some(k) => r matches Some(prefix) && prefix@ == old(bytes).remaining().take(k)
                && final(bytes).consumed() == old(bytes).consumed() + k + delimiter@.len(),
            None => r is None && final(bytes).consumed() == old(bytes).consumed(),
        },
{
    let delimiter_len = delimiter.len();
    let mut outstanding_buffer: Vec<u8> = Vec::with_capacity(delimiter_len);
    let start = bytes.read_pos();
    let ghost content = bytes.content();
    let ghost rest = bytes.remaining();
    proof {
        bytes.lemma_wf();
    }
    let mut delimiter_end: Option<usize> = None;
    let mut bytes_iter = bytes.iter();
    loop
        invariant_except_break
            start <= bytes_iter.position() <= content.len() <= usize::MAX,
            outstanding_buffer@.len() <= delimiter_len,
            outstanding_buffer@.len() <= bytes_iter.position() - start,
            outstanding_buffer@.len() < delimiter_len ==> outstanding_buffer@.len()
                == bytes_iter.position() - start,
            outstanding_buffer@ == content.subrange(
                bytes_iter.position() - outstanding_buffer@.len(),
                bytes_iter.position() as int,
            ),
            forall|j: int| 0 <= j && j + delimiter_len <= bytes_iter.position() - start
                ==> !occurs_at(rest, delimiter@, j),
            delimiter_end is None,
        invariant
            bytes.wf(),
            bytes_iter.rope() == &*bytes,
            content == bytes.content(),
            rest == content.skip(start as int),
            delimiter_len == delimiter@.len(),
            delimiter_len > 0,
        ensures
            match delimiter_end {
                Some(end) => start + delimiter_len <= end <= content.len() && find(
                    rest,
                    delimiter@,
                ) == Some(end - delimiter_len - start),
                None => find(rest, delimiter@) is None,
            },
        decreases content.len() - bytes_iter.position(),
    {
        let ghost pos = bytes_iter.position() as int;
        match bytes_iter.next() {
            None => {
                proof {
                    lemma_find_none(rest, delimiter@);
                }
                break ;
            },
            Some(byte) => {
                push_to_buffer(&mut outstanding_buffer, byte, delimiter_len);
                assert(outstanding_buffer@ =~= content.subrange(
                    pos + 1 - outstanding_buffer@.len(),
                    pos + 1,
                ));
                let matched = same_bytes(delimiter, &outstanding_buffer);
                let ghost k = pos + 1 - delimiter_len - start;
                if matched {
                    proof {
                        assert(rest.subrange(k, k + delimiter_len) =~= content.subrange(
                            pos + 1 - delimiter_len,
                            pos + 1,
                        ));
                        lemma_find_is(rest, delimiter@, k);
                    }
                    delimiter_end = Some(bytes_iter.current_pos());
                    break ;
                }
                proof {
                    if outstanding_buffer@.len() == delimiter_len {
                        assert(rest.subrange(k, k + delimiter_len) =~= content.subrange(
                            pos + 1 - delimiter_len,
                            pos + 1,
                        ));
                        assert(!occurs_at(rest, delimiter@, k));
                    }
                }
            },
        }
    }
    match delimiter_end {
        Some(end) => {
            let prefix_len = end - delimiter_len - start;
            let buffer = bytes.copy_buffer_of_len(prefix_len);
            bytes.set_read_pos(end);
            buffer
        },
        None => None,
    }
}

/// Looks for the end of a line.
pub fn look_for_crlf(bytes: &mut FragmentedBytes) -> (r: Option<Vec<u8>>)
    requires
        old(bytes).wf(),
    ensures
        final(bytes).wf(),
        final(bytes).fragments() == old(bytes).fragments(),
        final(bytes).consumed() >= old(bytes).consumed(),
        match find(old(bytes).remaining(), crlf()) {
            Some(k) => r matches Some(prefix) && prefix@ == old(bytes).remaining().take(k)
                && final(bytes).consumed() == old(bytes).consumed() + k + 2,
            None => r is None && final(bytes).consumed() == old(bytes).consumed(),
        },
{
    let delimiter: Vec<u8> = vec![13u8, 10u8];
    assert(delimiter@ =~= crlf());
    look_for_delimiter(bytes, &delimiter)
}

/// Looks for the empty line that ends a block of lines.
pub fn look_for_double_crlf(bytes: &mut FragmentedBytes) -> (r: Option<Vec<u8>>)
    requires
        old(bytes).wf(),
    ensures
        final(bytes).wf(),
        final(bytes).fragments() == old(bytes).fragments(),
        final(bytes).consumed() >= old(bytes).consumed(),
        match find(old(bytes).remaining(), double_crlf()) {
            Some(k) => r matches Some(prefix) && prefix@ == old(bytes).remaining().take(k)
                && final(bytes).consumed() == old(bytes).consumed() + k + 4,
            None => r is None && final(bytes).consumed() == old(bytes).consumed(),
        },
{
    let delimiter: Vec<u8> = vec![13u8, 10u8, 13u8, 10u8];
    assert(delimiter@ =~= double_crlf());
    look_for_delimiter(bytes, &delimiter)
}

/// Steps over the empty lines at the head of the rope. Returns `true` once a
/// byte that is neither CR nor LF stands under the read cursor; returns
/// `false`, and leaves the read cursor, while no such byte has arrived.
pub fn skip_initial_crlf(bytes: &mut FragmentedBytes) -> (r: Result<bool, Error>)
    requires
        old(bytes).wf(),
    ensures
        final(bytes).wf(),
        final(bytes).fragments() == old(bytes).fragments(),
        final(bytes).consumed() >= old(bytes).consumed(),
        match skip_empty_lines(old(bytes).remaining()) {
            Skipped::Ready(n) => r == Ok::<bool, Error>(true) && final(bytes).consumed() == old(
                bytes,
            ).consumed() + n,
            Skipped::NeedMore => r == Ok::<bool, Error>(false) && final(bytes).consumed() == old(
                bytes,
            ).consumed(),
            Skipped::LoneCr => r matches Err(e) && e@ == ErrorView::InvalidCrlf(lone_cr_message())
                && final(bytes).consumed() == old(bytes).consumed(),
        },
{
    let start = bytes.read_pos();
    let ghost content = bytes.content();
    let ghost rest = bytes.remaining();
    proof {
        bytes.lemma_wf();
    }
    let mut ready: Option<usize> = None;
    let mut failed = false;
    let mut bytes_iter = bytes.iter();
    loop
        invariant_except_break
            start <= bytes_iter.position() <= content.len() <= usize::MAX,
            skip_empty_lines(rest) == skip_from(rest, (bytes_iter.position() - start) as nat),
            ready is None,
            !failed,
        invariant
            bytes.wf(),
            bytes_iter.rope() == &*bytes,
            content == bytes.content(),
            rest == content.skip(start as int),
        ensures
            match skip_empty_lines(rest) {
                Skipped::Ready(n) => ready matches Some(p) && p == start + n && start + n
                    <= content.len() && !failed,
                Skipped::NeedMore => ready is None && !failed,
                Skipped::LoneCr => ready is None && failed,
            },
        decreases content.len() - bytes_iter.position(),
    {
        let byte = bytes_iter.peek();
        match byte {
            None => {
                break ;
            },
            Some(b) => {
                if b == 13 {
                    bytes_iter.next();
                    let next_byte = bytes_iter.next();
                    match next_byte {
                        None => {
                            break ;
                        },
                        Some(n) => {
                            if n != 10 {
                                failed = true;
                                break ;
                            }
                        },
                    }
                } else if b == 10 {
                    bytes_iter.next();
                } else {
                    ready = Some(bytes_iter.current_pos());
                    break ;
                }
            },
        }
    }
    if failed {
        return Err(Error::InvalidCrlf(String::from_str("a CR is not followed by LF")));
    }
    match ready {
        Some(pos) => {
            bytes.set_read_pos(pos);
            Ok(true)
        },
        None => Ok(false),
    }
}

} // verus!
