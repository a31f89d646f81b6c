use vstd::prelude::*;
use vstd::utf8::encode_utf8;

use crate::date::rfc2822_from_epoch;
use crate::headers::{spec_add, wire_of, Headers, HeadersView};
use crate::status::{spec_code, spec_reason, StatusCode};
use crate::strutil::{dec_str, u64_to_dec};

verus! {

/// An I/O error reported by the output sink.
#[verifier::external_type_specification]
#[verifier::external_body]
pub struct ExIoError(std::io::Error);

/// A moment of the system clock, carried opaquely.
#[verifier::external_type_specification]
#[verifier::external_body]
pub struct ExSystemTime(std::time::SystemTime);

/// Relies on std::time::SystemTime::now for the current moment. It neither
/// panics nor promises anything of a clock reading.
#[verifier::external_body]
fn system_now() -> (t: std::time::SystemTime) {
    std::time::SystemTime::now()
}

/// Relies on std::time::SystemTime::duration_since, measured from the Unix
/// epoch: the moment as whole seconds after the epoch. A clock before the
/// epoch reports an error, converted here to zero; no input panics.
#[verifier::external_body]
fn epoch_seconds_of(t: std::time::SystemTime) -> (r: u64) {
    match t.duration_since(std::time::UNIX_EPOCH) {
        Ok(d) => d.as_secs(),
        Err(_) => 0,
    }
}

/// Relies on std::io::Write::write_all: it writes the whole buffer, or
/// reports the first error and leaves the sink partially written.
#[verifier::external_body]
fn write_str_to<W: std::io::Write>(stream: &mut W, s: &str) -> (r: Result<(), std::io::Error>) {
    stream.write_all(s.as_bytes())
}

/// An HTTP response before it is sent: a status, an optional body, and the
/// caller-supplied headers.
#[derive(Debug)]
pub struct Response {
    status_code: StatusCode,
    body: Option<String>,
    headers: Headers,
}

/// The model of a response.
pub struct ResponseView {
    pub status: StatusCode,
    pub body: Option<Seq<char>>,
    pub headers: HeadersView,
}

impl View for Response {
    type V = ResponseView;

    closed spec fn view(&self) -> ResponseView {
        ResponseView {
            status: self.status_code,
            body: match self.body {
                Some(b) => Some(b@),
                None => None,
            },
            headers: self.headers@,
        }
    }
}

/// The status line of a response.
pub open spec fn spec_status_line(st: StatusCode) -> Seq<char> {
    "HTTP/1.1 "@ + dec_str(spec_code(st)) + " "@ + spec_reason(st) + "\r\n"@
}

/// The body text sent: the body, or nothing.
pub open spec fn spec_body_text(b: Option<Seq<char>>) -> Seq<char> {
    match b {
        Some(s) => s,
        None => Seq::empty(),
    }
}

/// The byte length of the body as sent, exactly: no trailing byte is added.
pub open spec fn spec_content_length(b: Option<Seq<char>>) -> int {
    (encode_utf8(spec_body_text(b)).len() as usize) as int
}

/// The identifying string sent in the `Server` header.
pub open spec fn spec_server_name() -> Seq<char> {
    "eli's rusty server"@
}

/// The exact wire text of a response: the status line; the generated
/// `Date`, `Server` and `Content-Length` lines; the caller-supplied header
/// lines; an empty line; the body.
pub open spec fn spec_response_wire(v: ResponseView, date: Seq<char>) -> Seq<char> {
    spec_status_line(v.status) + "Date: "@ + date + "\r\n"@ + "Server: "@ + spec_server_name()
        + "\r\n"@ + "Content-Length: "@ + dec_str(spec_content_length(v.body)) + "\r\n"@ + wire_of(
        v.headers,
    ) + "\r\n"@ + spec_body_text(v.body)
}

impl Response {
    /// The response is well formed: its header container is.
    pub closed spec fn wf(&self) -> bool {
        self.headers.wf()
    }

    /// Builds a response from its parts.
    pub fn new(status_code: StatusCode, body: Option<String>, headers: Headers) -> (r: Response)
        requires
            headers.wf(),
        ensures
            r.wf(),
            r@.status == status_code,
            r@.body == match body {
                Some(b) => Some(b@),
                None => None::<Seq<char>>,
            },
            r@.headers == headers@,
    {
        Response { status_code, body, headers }
    }

    /// Builds a response with no caller-supplied headers.
    pub fn new_with_default_headers(status_code: StatusCode, body: Option<String>) -> (r: Response)
        ensures
            r.wf(),
            r@.status == status_code,
            r@.body == match body {
                Some(b) => Some(b@),
                None => None::<Seq<char>>,
            },
            r@.headers == Seq::<crate::headers::HeaderEntry>::empty(),
    {
        let h = Headers::new();
        Response::new(status_code, body, h)
    }

    /// Appends one caller-supplied header, as `Headers::add` does.
    pub fn add_header(&mut self, key: &str, val: &str)
        requires
            old(self).wf(),
        ensures
            final(self).wf(),
            final(self)@.headers == spec_add(old(self)@.headers, key@, val@),
            final(self)@.status == old(self)@.status,
            final(self)@.body == old(self)@.body,
    {
        self.headers.add(key, val)
    }

    /// Serializes the response for a given `Date` header value, exactly as
    /// `spec_response_wire` says.
    pub fn to_wire_text(&self, date: &str) -> (r: String)
        ensures
            r@ == spec_response_wire(self@, date@),
    {
        let mut out = String::from_str("HTTP/1.1 ");
        out.append(u64_to_dec(self.status_code.code() as u64).as_str());
        out.append(" ");
        out.append(self.status_code.reason_phrase());
        out.append("\r\n");
        out.append("Date: ");
        out.append(date);
        out.append("\r\n");
        out.append("Server: ");
        out.append("eli's rusty server");
        out.append("\r\n");
        out.append("Content-Length: ");
        let blen: usize = match &self.body {
            Some(b) => b.as_str().len(),
            None => 0,
        };
        out.append(u64_to_dec(blen as u64).as_str());
        out.append("\r\n");
        let hw = self.headers.to_wire_text();
        out.append(hw.as_str());
        out.append("\r\n");
        match &self.body {
            Some(b) => out.append(b.as_str()),
            None => {},
        }
        proof {
            assert(out@ =~= spec_response_wire(self@, date@));
        }
        out
    }

    /// Writes the response onto the sink: the wire text of
    /// `spec_response_wire`, dated at the moment of the call (a clock
    /// before the Unix epoch dates it at the epoch). A write failure is
    /// returned as the sink reported it; the sink may then hold a prefix
    /// of the text.
    pub fn send<W: std::io::Write>(&self, stream: &mut W) -> (r: Result<(), std::io::Error>) {
        let secs = epoch_seconds_of(system_now());
        let date = rfc2822_from_epoch(secs);
        let text = self.to_wire_text(date.as_str());
        write_str_to(stream, text.as_str())
    }
}

} // verus!
