//! Status codes of responses.

use vstd::prelude::*;

verus! {

/// A status code: a number of three digits.
#[derive(Clone, Copy, Debug)]
pub struct StatusCode(u16);

/// What is returned for a number that is no status code.
#[derive(Debug)]
pub struct InvalidStatusCode();

impl View for StatusCode {
    type V = u16;

    closed spec fn view(&self) -> u16 {
        self.0
    }
}

/// The reason phrase of the codes that have one here.
pub open spec fn reason_of(num: u16) -> Option<Seq<char>> {
    if num == 100 {
        Some("Continue"@)
    } else if num == 200 {
        Some("OK"@)
    } else if num == 400 {
        Some("Bad Request"@)
    } else if num == 404 {
        Some("Not Found"@)
    } else if num == 500 {
        Some("Internal Server Error"@)
    } else {
        None
    }
}

impl StatusCode {
    /// The code has three digits.
    pub closed spec fn wf(&self) -> bool {
        100 <= self.0 < 1000
    }

    /// The number of a well-formed status code has three digits.
    pub proof fn lemma_wf(&self)
        requires
            self.wf(),
        ensures
            100 <= self@ < 1000,
    {
    }

    /// Makes a status code of a number from 100 to 999.
    pub fn from_u16(code: u16) -> (r: Result<StatusCode, InvalidStatusCode>)
        ensures
            100 <= code < 1000 ==> (r matches Ok(status) && status@ == code && status.wf()),
            !(100 <= code < 1000) ==> r is Err,
    {
        if code < 100 || code >= 1000 {
            return Err(InvalidStatusCode());
        }
        Ok(StatusCode(code))
    }

    /// The number of the code.
    pub fn as_u16(&self) -> (r: u16)
        ensures
            r == self@,
    {
        self.0
    }

    /// 100 Continue.
    pub fn continue_() -> (r: StatusCode)
        ensures
            r@ == 100,
            r.wf(),
    {
        StatusCode(100)
    }

    /// 200 OK.
    pub fn ok() -> (r: StatusCode)
        ensures
            r@ == 200,
            r.wf(),
    {
        StatusCode(200)
    }

    /// 400 Bad Request.
    pub fn bad_request() -> (r: StatusCode)
        ensures
            r@ == 400,
            r.wf(),
    {
        StatusCode(400)
    }

    /// 404 Not Found.
    pub fn not_found() -> (r: StatusCode)
        ensures
            r@ == 404,
            r.wf(),
    {
        StatusCode(404)
    }

    /// 500 Internal Server Error.
    pub fn internal_server_error() -> (r: StatusCode)
        ensures
            r@ == 500,
            r.wf(),
    {
        StatusCode(500)
    }

    /// The reason phrase of a code.
    pub fn reason(num: u16) -> (r: Option<&'static str>)
        ensures
            match reason_of(num) {
                Some(phrase) => r matches Some(s) && s@ == phrase,
                None => r is None,
            },
    {
        if num == 100 {
            Some("Continue")
        } else if num == 200 {
            Some("OK")
        } else if num == 400 {
            Some("Bad Request")
        } else if num == 404 {
            Some("Not Found")
        } else if num == 500 {
            Some("Internal Server Error")
        } else {
            None
        }
    }
}

} // verus!
