//! Responses.

use crate::status::{reason_of, StatusCode};
use crate::text::to_string;
use vstd::prelude::*;
use vstd::string::*;

verus! {

/// The character of a digit.
pub open spec fn digit_char(d: int) -> char {
    (48 + d) as u8 as char
}

/// A number of three digits in decimal.
pub open spec fn three_digits(code: u16) -> Seq<char> {
    seq![digit_char(code as int / 100), digit_char(code as int / 10 % 10), digit_char(code as int % 10)]
}

/// The status line of a response: the version, the code, the reason phrase
/// where the code has one, and CR LF.
pub open spec fn status_line_of(code: u16) -> Seq<char> {
    "HTTP/1.1 "@ + three_digits(code) + " "@ + (match reason_of(code) {
        Some(phrase) => phrase,
        None => Seq::empty(),
    }) + "\r\n"@
}

/// Writes the status line of a response.
pub fn status_line(code: StatusCode) -> (r: String)
    requires
        code.wf(),
    ensures
        r@ == status_line_of(code@),
{
    let number = code.as_u16();
    proof {
        code.lemma_wf();
    }
    let hundreds: u8 = (number / 100) as u8;
    let tens: u8 = (number / 10 % 10) as u8;
    let ones: u8 = (number % 10) as u8;
    let digits: Vec<char> = vec![(48 + hundreds) as char, (48 + tens) as char, (48 + ones) as char];
    assert(digits@ =~= three_digits(number));
    let digits = to_string(&digits);
    let mut line = String::from_str("HTTP/1.1 ");
    line.append(digits.as_str());
    line.append(" ");
    match StatusCode::reason(number) {
        Some(phrase) => {
            line.append(phrase);
        },
        None => {
            assert(line@ + Seq::<char>::empty() =~= line@);
        },
    }
    line.append("\r\n");
    line
}

/// A response under construction: whether it is ready, and whether it was sent.
#[derive(Debug)]
pub struct Response {
    is_response_ready: bool,
    is_sent: bool,
}

impl Response {
    pub closed spec fn ready(&self) -> bool {
        self.is_response_ready
    }

    pub closed spec fn sent(&self) -> bool {
        self.is_sent
    }

    /// A response that is neither ready nor sent.
    pub fn new() -> (r: Response)
        ensures
            !r.ready(),
            !r.sent(),
    {
        Response { is_sent: false, is_response_ready: false }
    }

    /// Takes note of the status code to send. The response stays as it is:
    /// sending is the matter of the connection.
    pub fn send_code(&mut self, code: StatusCode)
        ensures
            *final(self) == *old(self),
    {
    }

    pub fn is_response_ready(&self) -> (r: bool)
        ensures
            r == self.ready(),
    {
        self.is_response_ready
    }

    pub fn is_sent(&self) -> (r: bool)
        ensures
            r == self.sent(),
    {
        self.is_sent
    }
}

} // verus!
