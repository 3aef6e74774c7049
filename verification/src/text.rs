//! Decoded text: sequences of characters, and the operations on them that the
//! parsers need (folding, trimming, splitting).

use crate::grammar::{is_token_char, is_visible_char, token_char, visible_char};
use crate::helpers::search::{find_from, lemma_find, occurs_at, split};
use vstd::prelude::*;
use vstd::string::*;
use vstd::utf8::{
    decode_utf8, encode_utf8, encode_utf8_decode_utf8, encode_utf8_valid_utf8, is_ascii_chars,
    is_ascii_chars_encode_utf8, valid_utf8,
};

verus! {

/// The octet that stands for a character in the grammar's predicates: its
/// code for a US-ASCII character, and `0xFF`, which belongs to no character
/// class, for every other.
pub open spec fn octet(c: char) -> u8 {
    if (c as u32) < 128 {
        c as u8
    } else {
        0xFFu8
    }
}

/// SP or HT.
pub open spec fn blank(c: char) -> bool {
    c == ' ' || c == '\t'
}

/// The ASCII lower-case fold of one character.
pub open spec fn lower_char(c: char) -> char {
    if 'A' <= c && c <= 'Z' {
        ((c as u8) + 32) as char
    } else {
        c
    }
}

/// The ASCII lower-case fold of a text.
pub open spec fn lower(s: Seq<char>) -> Seq<char> {
    s.map_values(|c: char| lower_char(c))
}

/// Every character is a token character.
pub open spec fn token_text(s: Seq<char>) -> bool {
    forall|i: int| 0 <= i < s.len() ==> token_char(octet(#[trigger] s[i]))
}

/// Every character is a visible character, SP or HT.
pub open spec fn field_text(s: Seq<char>) -> bool {
    forall|i: int| 0 <= i < s.len() ==> visible_char(octet(#[trigger] s[i])) || blank(s[i])
}

/// The text without its leading blanks.
pub open spec fn trim_start(s: Seq<char>) -> Seq<char>
    decreases s.len(),
{
    if s.len() > 0 && blank(s[0]) {
        trim_start(s.drop_first())
    } else {
        s
    }
}

/// The text without its trailing blanks.
pub open spec fn trim_end(s: Seq<char>) -> Seq<char>
    decreases s.len(),
{
    if s.len() > 0 && blank(s.last()) {
        trim_end(s.drop_last())
    } else {
        s
    }
}

/// The text without its leading and trailing blanks.
pub open spec fn trim(s: Seq<char>) -> Seq<char> {
    trim_end(trim_start(s))
}

/// The text with every run of blanks replaced by one SP; `after_blank` says
/// that the character before `s` was a blank, so that a run which `s`
/// continues adds nothing.
pub open spec fn collapse_from(s: Seq<char>, after_blank: bool) -> Seq<char>
    decreases s.len(),
{
    if s.len() == 0 {
        s
    } else if blank(s[0]) {
        if after_blank {
            collapse_from(s.drop_first(), true)
        } else {
            seq![' '] + collapse_from(s.drop_first(), true)
        }
    } else {
        seq![s[0]] + collapse_from(s.drop_first(), false)
    }
}

/// The text with every run of blanks replaced by one SP.
pub open spec fn collapse_blanks(s: Seq<char>) -> Seq<char> {
    collapse_from(s, false)
}

/// The texts that a vector of texts holds.
pub open spec fn texts(v: Seq<Vec<char>>) -> Seq<Seq<char>> {
    v.map_values(|t: Vec<char>| t@)
}

/// The views of a vector of strings.
pub open spec fn string_views(v: Seq<String>) -> Seq<Seq<char>> {
    v.map_values(|t: String| t@)
}

/// Collapsing runs of blanks neither adds nor removes a character that is
/// not a blank, so it keeps a text within, or outside, the field characters.
pub proof fn lemma_collapse_field_text(s: Seq<char>, after_blank: bool)
    ensures
        field_text(collapse_from(s, after_blank)) == field_text(s),
    decreases s.len(),
{
    let out = collapse_from(s, after_blank);
    if s.len() == 0 {
    } else {
        let rest = s.drop_first();
        let next = blank(s[0]);
        lemma_collapse_field_text(rest, next);
        let tail = collapse_from(rest, next);
        if field_text(s) {
            assert forall|i: int| 0 <= i < rest.len() implies visible_char(
                octet(#[trigger] rest[i]),
            ) || blank(rest[i]) by {
                assert(rest[i] == s[i + 1]);
            }
            assert(field_text(tail));
            assert forall|i: int| 0 <= i < out.len() implies visible_char(octet(#[trigger] out[i]))
                || blank(out[i]) by {
                if blank(s[0]) && after_blank {
                } else if i == 0 {
                    assert(out[0] == ' ' || out[0] == s[0]);
                } else {
                    assert(out[i] == tail[i - 1]);
                }
            }
        }
        if field_text(out) {
            assert forall|i: int| 0 <= i < tail.len() implies visible_char(
                octet(#[trigger] tail[i]),
            ) || blank(tail[i]) by {
                if blank(s[0]) && after_blank {
                } else {
                    assert(tail[i] == out[i + 1]);
                }
            }
            assert(field_text(rest));
            assert forall|i: int| 0 <= i < s.len() implies visible_char(octet(#[trigger] s[i]))
                || blank(s[i]) by {
                if i == 0 {
                    if !blank(s[0]) {
                        assert(out[0] == s[0]);
                    }
                } else {
                    assert(s[i] == rest[i - 1]);
                }
            }
        }
    }
}

/// The text of bytes that are all US-ASCII: each byte is one character.
pub open spec fn ascii_text(bytes: Seq<u8>) -> Seq<char> {
    Seq::new(bytes.len(), |i: int| bytes[i] as char)
}

/// Bytes that are all US-ASCII are UTF-8 text, one character for each byte.
pub proof fn lemma_ascii_is_utf8(bytes: Seq<u8>)
    requires
        forall|i: int| 0 <= i < bytes.len() ==> #[trigger] bytes[i] < 128,
    ensures
        valid_utf8(bytes),
        decode_utf8(bytes) == ascii_text(bytes),
{
    let chars = ascii_text(bytes);
    assert(is_ascii_chars(chars)) by {
        assert forall|i: int| 0 <= i < chars.len() implies '\0' <= #[trigger] chars[i]
            <= '\u{7f}' by {
            assert(bytes[i] < 128);
        }
    }
    is_ascii_chars_encode_utf8(chars);
    assert(encode_utf8(chars) =~= bytes) by {
        assert forall|i: int| 0 <= i < bytes.len() implies encode_utf8(chars)[i] == bytes[i] by {
            assert(bytes[i] < 128);
            assert(chars[i] as u8 == bytes[i]);
        }
    }
    encode_utf8_valid_utf8(chars);
    encode_utf8_decode_utf8(chars);
}

/// Decodes bytes as UTF-8 text.
///
/// Trusted: the body calls `String::from_utf8`. The contract claims that it
/// succeeds exactly on well-formed UTF-8, that the string then holds the
/// characters that the bytes encode, and that on failure the bytes come back
/// as they were given.
#[verifier::external_body]
pub(crate) fn utf8_text(bytes: Vec<u8>) -> (r: Result<String, Vec<u8>>)
    ensures
        r is Ok <==> valid_utf8(bytes@),
        r matches Ok(s) ==> s@ == decode_utf8(bytes@),
        r matches Err(b) ==> b@ == bytes@,
{
    match String::from_utf8(bytes) {
        Ok(s) => Ok(s),
        Err(e) => Err(e.into_bytes()),
    }
}

/// True when the bytes are UTF-8 text.
pub fn is_utf8(bytes: &Vec<u8>) -> (r: bool)
    ensures
        r == valid_utf8(bytes@),
{
    let copy = bytes.clone();
    utf8_text(copy).is_ok()
}

/// Makes a string of characters.
///
/// Trusted: the body collects the characters with `String::from_iter`. The
/// contract claims that the string holds exactly these characters, in order.
#[verifier::external_body]
pub(crate) fn string_of(chars: &Vec<char>) -> (s: String)
    ensures
        s@ == chars@,
{
    String::from_iter(chars.iter())
}

/// The string that holds the text of `chars`.
pub fn to_string(chars: &Vec<char>) -> (s: String)
    ensures
        s@ == chars@,
{
    string_of(chars)
}

/// The characters of a string.
pub fn chars_of(s: &str) -> (v: Vec<char>)
    ensures
        v@ == s@,
{
    let mut v: Vec<char> = Vec::new();
    for c in it: s.chars()
        invariant
            v@ == it.seq().take(it.index()),
    {
        v.push(c);
    }
    v
}

pub fn octet_of(c: char) -> (b: u8)
    ensures
        b == octet(c),
{
    let code: u32 = c as u32;
    if code < 128 {
        code as u8
    } else {
        0xFF
    }
}

pub fn is_blank(c: char) -> (r: bool)
    ensures
        r == blank(c),
{
    c == ' ' || c == '\t'
}

pub fn fold_char(c: char) -> (r: char)
    ensures
        r == lower_char(c),
{
    if c >= 'A' && c <= 'Z' {
        let b: u8 = c as u8;
        (b + 32) as char
    } else {
        c
    }
}

/// The ASCII lower-case fold of `s`.
pub fn to_lower(s: &Vec<char>) -> (r: Vec<char>)
    ensures
        r@ == lower(s@),
{
    let mut r: Vec<char> = Vec::with_capacity(s.len());
    let mut i: usize = 0;
    while i < s.len()
        invariant
            i <= s.len(),
            r@ == lower(s@).take(i as int),
        decreases s.len() - i,
    {
        r.push(fold_char(s[i]));
        i += 1;
        assert(r@ =~= lower(s@).take(i as int));
    }
    assert(lower(s@).take(i as int) =~= lower(s@));
    r
}

pub fn is_token_text(s: &Vec<char>) -> (r: bool)
    ensures
        r == token_text(s@),
{
    let mut i: usize = 0;
    while i < s.len()
        invariant
            i <= s.len(),
            forall|j: int| 0 <= j < i ==> token_char(octet(#[trigger] s@[j])),
        decreases s.len() - i,
    {
        if !is_token_char(octet_of(s[i])) {
            return false;
        }
        i += 1;
    }
    true
}

pub fn is_field_text(s: &Vec<char>) -> (r: bool)
    ensures
        r == field_text(s@),
{
    let mut i: usize = 0;
    while i < s.len()
        invariant
            i <= s.len(),
            forall|j: int| 0 <= j < i ==> visible_char(octet(#[trigger] s@[j])) || blank(s@[j]),
        decreases s.len() - i,
    {
        if !(is_visible_char(octet_of(s[i])) || is_blank(s[i])) {
            return false;
        }
        i += 1;
    }
    true
}

/// True when both hold the same text.
pub fn same_text(a: &Vec<char>, b: &Vec<char>) -> (r: bool)
    ensures
        r == (a@ == b@),
{
    if a.len() != b.len() {
        return false;
    }
    let mut i: usize = 0;
    while i < a.len()
        invariant
            i <= a.len(),
            a.len() == b.len(),
            forall|j: int| 0 <= j < i ==> a@[j] == b@[j],
        decreases a.len() - i,
    {
        if a[i] != b[i] {
            return false;
        }
        i += 1;
    }
    assert(a@ =~= b@);
    true
}

/// True when `a` holds the text of `b`.
pub fn is_text(a: &Vec<char>, b: &str) -> (r: bool)
    ensures
        r == (a@ == b@),
{
    let other = chars_of(b);
    same_text(a, &other)
}

/// A copy of `s[from..to]`.
pub fn slice(s: &Vec<char>, from: usize, to: usize) -> (r: Vec<char>)
    requires
        from <= to <= s@.len(),
    ensures
        r@ == s@.subrange(from as int, to as int),
{
    let mut r: Vec<char> = Vec::with_capacity(to - from);
    let mut i: usize = from;
    while i < to
        invariant
            from <= i <= to <= s@.len(),
            r@ == s@.subrange(from as int, i as int),
        decreases to - i,
    {
        r.push(s[i]);
        i += 1;
        assert(r@ =~= s@.subrange(from as int, i as int));
    }
    r
}

proof fn lemma_trim_start_skip(s: Seq<char>, i: int)
    requires
        0 <= i <= s.len(),
        forall|j: int| 0 <= j < i ==> blank(#[trigger] s[j]),
    ensures
        trim_start(s) == trim_start(s.skip(i)),
    decreases i,
{
    if i == 0 {
        assert(s.skip(0) =~= s);
    } else {
        lemma_trim_start_skip(s, i - 1);
        let t = s.skip(i - 1);
        assert(t[0] == s[i - 1]);
        assert(t.drop_first() =~= s.skip(i));
    }
}

proof fn lemma_trim_end_take(s: Seq<char>, i: int)
    requires
        0 <= i <= s.len(),
        forall|j: int| i <= j < s.len() ==> blank(#[trigger] s[j]),
    ensures
        trim_end(s) == trim_end(s.take(i)),
    decreases s.len() - i,
{
    if i == s.len() {
        assert(s.take(i) =~= s);
    } else {
        lemma_trim_end_take(s, i + 1);
        let t = s.take(i + 1);
        assert(t.last() == s[i]);
        assert(t.drop_last() =~= s.take(i));
    }
}

/// `s` without its leading and trailing blanks.
pub fn trim_text(s: &Vec<char>) -> (r: Vec<char>)
    ensures
        r@ == trim(s@),
{
    let mut start: usize = 0;
    while start < s.len() && is_blank(s[start])
        invariant
            start <= s.len(),
            forall|j: int| 0 <= j < start ==> blank(#[trigger] s@[j]),
        decreases s.len() - start,
    {
        start += 1;
    }
    let mut end: usize = s.len();
    while end > start && is_blank(s[end - 1])
        invariant
            start <= end <= s.len(),
            forall|j: int| end <= j < s.len() ==> blank(#[trigger] s@[j]),
        decreases end,
    {
        end -= 1;
    }
    proof {
        lemma_trim_start_skip(s@, start as int);
        let t = s@.skip(start as int);
        assert(trim_start(t) == t) by {
            if t.len() > 0 {
                assert(t[0] == s@[start as int]);
            }
        }
        lemma_trim_end_take(t, end - start);
        let u = t.take(end - start);
        assert(trim_end(u) == u) by {
            if u.len() > 0 {
                assert(u.last() == s@[end - 1]);
            }
        }
        assert(u =~= s@.subrange(start as int, end as int));
    }
    slice(s, start, end)
}

/// Index of the earliest occurrence of `d` in `s` at or after `from`.
pub fn find_text(s: &Vec<char>, d: &Vec<char>, from: usize) -> (r: Option<usize>)
    ensures
        r matches Some(k) ==> find_from(s@, d@, from as int) == Some(k as int),
        r is None ==> find_from(s@, d@, from as int) is None,
{
    let n = s.len();
    let m = d.len();
    if m > n {
        return None;
    }
    let mut i: usize = from;
    while i <= n - m
        invariant
            m <= n,
            n == s@.len(),
            m == d@.len(),
            from <= i,
            find_from(s@, d@, from as int) == find_from(s@, d@, i as int),
        decreases n - i,
    {
        let mut j: usize = 0;
        while j < m && s[i + j] == d[j]
            invariant
                i + m <= n,
                n == s@.len(),
                m == d@.len(),
                j <= m,
                forall|t: int| 0 <= t < j ==> s@[i + t] == d@[t],
            decreases m - j,
        {
            j += 1;
        }
        if j == m {
            assert(s@.subrange(i as int, i + m) =~= d@);
            return Some(i);
        }
        assert(s@.subrange(i as int, i + m) != d@) by {
            assert(s@.subrange(i as int, i + m)[j as int] == s@[i + j]);
        }
        i += 1;
    }
    None
}

/// The pieces of `s` between the occurrences of `d`.
pub fn split_text(s: &Vec<char>, d: &Vec<char>) -> (r: Vec<Vec<char>>)
    requires
        d@.len() > 0,
    ensures
        texts(r@) == split(s@, d@),
{
    let mut r: Vec<Vec<char>> = Vec::new();
    let mut start: usize = 0;
    assert(s@.skip(0) =~= s@);
    assert(texts(r@) + split(s@, d@) =~= split(s@, d@));
    loop
        invariant
            d@.len() > 0,
            start <= s@.len(),
            texts(r@) + split(s@.skip(start as int), d@) == split(s@, d@),
        decreases s@.len() - start,
    {
        let ghost rest = s@.skip(start as int);
        let found = find_text(s, d, start);
        proof {
            lemma_find_shift(s@, d@, start as int, start as int);
            lemma_find(rest, d@);
        }
        match found {
            Some(k) => {
                assert(occurs_at(rest, d@, k - start));
                assert(k + d@.len() <= s@.len() == s.len());
                let piece = slice(s, start, k);
                assert(piece@ =~= rest.take(k - start));
                assert(s@.skip(k + d@.len()) =~= rest.skip(k - start + d@.len()));
                let ghost before = texts(r@);
                r.push(piece);
                assert(texts(r@) =~= before + seq![piece@]);
                assert(before + (seq![piece@] + split(s@.skip(k + d@.len()), d@)) =~= before
                    + seq![piece@] + split(s@.skip(k + d@.len()), d@));
                start = k + d.len();
            },
            None => {
                let piece = slice(s, start, s.len());
                assert(piece@ =~= rest);
                let ghost before = texts(r@);
                r.push(piece);
                assert(texts(r@) =~= before + seq![piece@]);
                return r;
            },
        }
    }
}

/// Searching from `i` on is searching what is left behind `start`, from
/// `i - start` on.
pub proof fn lemma_find_shift<A>(s: Seq<A>, d: Seq<A>, start: int, i: int)
    requires
        0 <= start <= i,
        start <= s.len(),
    ensures
        find_from(s, d, i) == match find_from(s.skip(start), d, i - start) {
            Some(k) => Some(k + start),
            None => None,
        },
    decreases s.len() - i,
{
    let t = s.skip(start);
    if i + d.len() > s.len() {
    } else {
        assert(t.subrange(i - start, i - start + d.len()) =~= s.subrange(i, i + d.len()));
        if d.len() == 0 || s.subrange(i, i + d.len()) == d {
        } else {
            lemma_find_shift(s, d, start, i + 1);
        }
    }
}

/// The texts of `parts`, with `separator` between each two of them.
pub open spec fn join(parts: Seq<Seq<char>>, separator: Seq<char>) -> Seq<char>
    decreases parts.len(),
{
    if parts.len() == 0 {
        Seq::empty()
    } else if parts.len() == 1 {
        parts[0]
    } else {
        join(parts.drop_last(), separator) + separator + parts.last()
    }
}

/// Joins strings, with `separator` between each two of them.
pub fn join_strings(parts: &Vec<String>, separator: &str) -> (r: String)
    ensures
        r@ == join(string_views(parts@), separator@),
{
    let mut r = String::new();
    let ghost all = string_views(parts@);
    let mut i: usize = 0;
    assert(all.take(0) =~= Seq::<Seq<char>>::empty());
    while i < parts.len()
        invariant
            i <= parts.len(),
            all == string_views(parts@),
            r@ == join(all.take(i as int), separator@),
        decreases parts.len() - i,
    {
        assert(all.take(i + 1).drop_last() =~= all.take(i as int));
        assert(all.take(i + 1).last() == parts@[i as int]@);
        if i > 0 {
            r.append(separator);
        } else {
            assert(r@ + parts@[i as int]@ =~= parts@[i as int]@);
        }
        r.append(parts[i].as_str());
        i += 1;
    }
    assert(all.take(i as int) =~= all);
    r
}

} // verus!
