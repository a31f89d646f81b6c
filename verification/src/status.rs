use vstd::prelude::*;

verus! {

/// The closed set of status codes the response producer constructs.
#[derive(Clone, Copy, Debug, PartialEq, Eq, Structural)]
pub enum StatusCode {
    OK,
    BadRequest,
    NotFound,
}

/// The numeric code of each status.
pub open spec fn spec_code(s: StatusCode) -> int {
    match s {
        StatusCode::OK => 200,
        StatusCode::BadRequest => 400,
        StatusCode::NotFound => 404,
    }
}

/// The fixed reason phrase of each status.
pub open spec fn spec_reason(s: StatusCode) -> Seq<char> {
    match s {
        StatusCode::OK => "OK"@,
        StatusCode::BadRequest => "Bad Request"@,
        StatusCode::NotFound => "Not Found"@,
    }
}

impl StatusCode {
    /// The numeric value sent on the status line.
    pub fn code(&self) -> (r: u16)
        ensures
            r as int == spec_code(*self),
    {
        match self {
            StatusCode::OK => 200,
            StatusCode::BadRequest => 400,
            StatusCode::NotFound => 404,
        }
    }

    /// The reason phrase sent after the numeric value.
    pub fn reason_phrase(&self) -> (r: &'static str)
        ensures
            r@ == spec_reason(*self),
    {
        match self {
            StatusCode::OK => "OK",
            StatusCode::BadRequest => "Bad Request",
            StatusCode::NotFound => "Not Found",
        }
    }
}

} // verus!
