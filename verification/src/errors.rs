//! What can go wrong while a request is received.

use crate::text::{join, join_strings, string_views, to_string};
use vstd::prelude::*;
use vstd::string::*;

verus! {

/// A protocol error. Every error ends the request that it occurs in.
#[derive(Debug)]
pub enum Error {
    /// A bare byte broke the line-ending grammar.
    NewLine,
    /// A character of a request-line token is no token character.
    Token,
    /// The request target was rejected.
    InvalidUri,
    /// The request was asked for before it was complete.
    RequestNotParsed,
    /// The `Content-Length` value is no decimal number.
    InvalidContentLengthValue,
    /// `Transfer-Encoding` is present, but its last coding is not `chunked`.
    NoChunkedCoding,
    /// The version is not `HTTP/1.1`; carries the version as it was read.
    InvalidHttpVersion(String),
    /// The request line does not have its three fields; carries a description.
    InvalidRequestLine(String),
    /// A CR is not followed by LF; carries a description.
    InvalidCrlf(String),
    /// A header line is folded or has no colon; carries a description.
    InvalidHeaderFormat(String),
    /// A field name is no token; carries the name.
    InvalidHeaderField(String),
    /// A field value holds a character that is not allowed; carries the value.
    InvalidHeaderFieldValue(String),
    /// A chunk size is no hexadecimal number; carries the size as it was read.
    ParseIntError(String),
    /// A line is not UTF-8; carries its bytes.
    InvalidUtf8String(Vec<u8>),
    /// A method is no token; carries its bytes.
    InvalidTokenChar(Vec<u8>),
}

/// An [`Error`] as a mathematical value.
pub enum ErrorView {
    NewLine,
    Token,
    InvalidUri,
    RequestNotParsed,
    InvalidContentLengthValue,
    NoChunkedCoding,
    InvalidHttpVersion(Seq<char>),
    InvalidRequestLine(Seq<char>),
    InvalidCrlf(Seq<char>),
    InvalidHeaderFormat(Seq<char>),
    InvalidHeaderField(Seq<char>),
    InvalidHeaderFieldValue(Seq<char>),
    ParseIntError(Seq<char>),
    InvalidUtf8String(Seq<u8>),
    InvalidTokenChar(Seq<u8>),
}

impl View for Error {
    type V = ErrorView;

    open spec fn view(&self) -> ErrorView {
        match self {
            Error::NewLine => ErrorView::NewLine,
            Error::Token => ErrorView::Token,
            Error::InvalidUri => ErrorView::InvalidUri,
            Error::RequestNotParsed => ErrorView::RequestNotParsed,
            Error::InvalidContentLengthValue => ErrorView::InvalidContentLengthValue,
            Error::NoChunkedCoding => ErrorView::NoChunkedCoding,
            Error::InvalidHttpVersion(s) => ErrorView::InvalidHttpVersion(s@),
            Error::InvalidRequestLine(s) => ErrorView::InvalidRequestLine(s@),
            Error::InvalidCrlf(s) => ErrorView::InvalidCrlf(s@),
            Error::InvalidHeaderFormat(s) => ErrorView::InvalidHeaderFormat(s@),
            Error::InvalidHeaderField(s) => ErrorView::InvalidHeaderField(s@),
            Error::InvalidHeaderFieldValue(s) => ErrorView::InvalidHeaderFieldValue(s@),
            Error::ParseIntError(s) => ErrorView::ParseIntError(s@),
            Error::InvalidUtf8String(b) => ErrorView::InvalidUtf8String(b@),
            Error::InvalidTokenChar(b) => ErrorView::InvalidTokenChar(b@),
        }
    }
}

/// A number in decimal digits, without leading zeros.
pub open spec fn decimal_text(n: nat) -> Seq<char>
    decreases n,
{
    if n < 10 {
        seq![(48 + n) as u8 as char]
    } else {
        decimal_text(n / 10).push((48 + n % 10) as u8 as char)
    }
}

/// A list of bytes as text: the bytes in decimal, a comma and a space
/// between each two of them, in square brackets.
pub open spec fn debug_text(bytes: Seq<u8>) -> Seq<char> {
    "["@ + join(bytes.map_values(|b: u8| decimal_text(b as nat)), ", "@) + "]"@
}

/// Writes a byte in decimal digits.
fn decimal_of(byte: u8) -> (r: String)
    ensures
        r@ == decimal_text(byte as nat),
{
    let ones: u8 = byte % 10;
    let tens: u8 = byte / 10 % 10;
    let hundreds: u8 = byte / 100;
    let mut digits: Vec<char> = Vec::new();
    if byte >= 100 {
        digits.push((48 + hundreds) as char);
    }
    if byte >= 10 {
        digits.push((48 + tens) as char);
    }
    digits.push((48 + ones) as char);
    proof {
        reveal_with_fuel(decimal_text, 3);
        assert(digits@ =~= decimal_text(byte as nat));
    }
    to_string(&digits)
}

/// Writes a list of bytes as text.
fn debug_bytes(bytes: &Vec<u8>) -> (s: String)
    ensures
        s@ == debug_text(bytes@),
{
    let mut numbers: Vec<String> = Vec::new();
    let ghost all = bytes@.map_values(|b: u8| decimal_text(b as nat));
    let mut i: usize = 0;
    while i < bytes.len()
        invariant
            i <= bytes.len(),
            all == bytes@.map_values(|b: u8| decimal_text(b as nat)),
            string_views(numbers@) == all.take(i as int),
        decreases bytes.len() - i,
    {
        let number = decimal_of(bytes[i]);
        let ghost before = string_views(numbers@);
        numbers.push(number);
        i += 1;
        assert(string_views(numbers@) =~= before.push(number@));
        assert(string_views(numbers@) =~= all.take(i as int));
    }
    assert(all.take(i as int) =~= all);
    let list = join_strings(&numbers, ", ");
    let mut s = String::from_str("[");
    s.append(list.as_str());
    s.append("]");
    s
}

/// The phrase that introduces an error of each kind.
pub open spec fn phrase(e: ErrorView) -> Seq<char> {
    match e {
        ErrorView::NewLine => "Invalid byte in new line"@,
        ErrorView::Token => "Invalid token character"@,
        ErrorView::InvalidUri => "Invalid token in Uri"@,
        ErrorView::RequestNotParsed => "Trying to get request before it is not parsed completely"@,
        ErrorView::InvalidContentLengthValue => "Content length field contains non digit characters"@,
        ErrorView::NoChunkedCoding => "There was transfer-encoding but the last encoding was not chunked"@,
        ErrorView::InvalidHttpVersion(_) => "Invalid http version"@,
        ErrorView::InvalidRequestLine(_) => "Invalid request line"@,
        ErrorView::InvalidCrlf(_) => "Invalid character after \\r."@,
        ErrorView::InvalidHeaderFormat(_) => "Invalid header format"@,
        ErrorView::InvalidHeaderField(_) => "Invalid header field"@,
        ErrorView::InvalidHeaderFieldValue(_) => "Header field-value contains invalid token character"@,
        ErrorView::ParseIntError(_) => "Parse Int Error"@,
        ErrorView::InvalidUtf8String(_) => "Invalid utf-8 encoding"@,
        ErrorView::InvalidTokenChar(_) => "Invalid token character"@,
    }
}

/// The message of an error: its phrase, and, where it carries something, a
/// colon, a space and what it carries.
pub open spec fn message(e: ErrorView) -> Seq<char> {
    match e {
        ErrorView::InvalidHttpVersion(s) => phrase(e) + ": "@ + s,
        ErrorView::InvalidRequestLine(s) => phrase(e) + ": "@ + s,
        ErrorView::InvalidCrlf(s) => phrase(e) + ": "@ + s,
        ErrorView::InvalidHeaderFormat(s) => phrase(e) + ": "@ + s,
        ErrorView::InvalidHeaderField(s) => phrase(e) + ": "@ + s,
        ErrorView::InvalidHeaderFieldValue(s) => phrase(e) + ": "@ + s,
        ErrorView::ParseIntError(s) => phrase(e) + ": "@ + s,
        ErrorView::InvalidUtf8String(b) => phrase(e) + ": "@ + debug_text(b),
        ErrorView::InvalidTokenChar(b) => phrase(e) + ": "@ + debug_text(b),
        _ => phrase(e),
    }
}

fn with_context(phrase: &str, context: &str) -> (s: String)
    ensures
        s@ == phrase@ + ": "@ + context@,
{
    let mut s = String::from_str(phrase);
    s.append(": ");
    s.append(context);
    s
}

impl Error {
    fn desc(&self) -> (s: String)
        ensures
            s@ == message(self@),
    {
        match self {
            Error::NewLine => String::from_str("Invalid byte in new line"),
            Error::Token => String::from_str("Invalid token character"),
            Error::InvalidUri => String::from_str("Invalid token in Uri"),
            Error::RequestNotParsed => String::from_str(
                "Trying to get request before it is not parsed completely",
            ),
            Error::InvalidContentLengthValue => String::from_str(
                "Content length field contains non digit characters",
            ),
            Error::NoChunkedCoding => String::from_str(
                "There was transfer-encoding but the last encoding was not chunked",
            ),
            Error::InvalidHttpVersion(val) => with_context("Invalid http version", val.as_str()),
            Error::InvalidRequestLine(val) => with_context("Invalid request line", val.as_str()),
            Error::InvalidCrlf(val) => with_context("Invalid character after \\r.", val.as_str()),
            Error::InvalidHeaderFormat(val) => with_context("Invalid header format", val.as_str()),
            Error::InvalidHeaderField(val) => with_context("Invalid header field", val.as_str()),
            Error::InvalidHeaderFieldValue(val) => with_context(
                "Header field-value contains invalid token character",
                val.as_str(),
            ),
            Error::ParseIntError(val) => with_context("Parse Int Error", val.as_str()),
            Error::InvalidUtf8String(val) => {
                let shown = debug_bytes(val);
                with_context("Invalid utf-8 encoding", shown.as_str())
            },
            Error::InvalidTokenChar(val) => {
                let shown = debug_bytes(val);
                with_context("Invalid token character", shown.as_str())
            },
        }
    }

    /// The message of the error.
    pub fn to_string(&self) -> (s: String)
        ensures
            s@ == message(self@),
    {
        self.desc()
    }
}

impl Clone for Error {
    fn clone(&self) -> (r: Error)
        ensures
            r@ == self@,
    {
        match self {
            Error::NewLine => Error::NewLine,
            Error::Token => Error::Token,
            Error::InvalidUri => Error::InvalidUri,
            Error::RequestNotParsed => Error::RequestNotParsed,
            Error::InvalidContentLengthValue => Error::InvalidContentLengthValue,
            Error::NoChunkedCoding => Error::NoChunkedCoding,
            Error::InvalidHttpVersion(s) => Error::InvalidHttpVersion(s.clone()),
            Error::InvalidRequestLine(s) => Error::InvalidRequestLine(s.clone()),
            Error::InvalidCrlf(s) => Error::InvalidCrlf(s.clone()),
            Error::InvalidHeaderFormat(s) => Error::InvalidHeaderFormat(s.clone()),
            Error::InvalidHeaderField(s) => Error::InvalidHeaderField(s.clone()),
            Error::InvalidHeaderFieldValue(s) => Error::InvalidHeaderFieldValue(s.clone()),
            Error::ParseIntError(s) => Error::ParseIntError(s.clone()),
            Error::InvalidUtf8String(b) => Error::InvalidUtf8String(b.clone()),
            Error::InvalidTokenChar(b) => Error::InvalidTokenChar(b.clone()),
        }
    }
}

} // verus!
