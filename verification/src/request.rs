use vstd::prelude::*;

use crate::headers::{spec_header_block, HeaderEntry, Headers, HeadersView};
use crate::method::{spec_method, Method};
use crate::query_string::{spec_parse_query, QueryString};
use crate::strutil::{find_either, find_or, lemma_find_or, str_eq};

verus! {

/// The reasons a buffer fails to parse as a request.
#[derive(Clone, Copy, Debug, PartialEq, Eq, Structural)]
pub enum ParseError {
    InvalidRequest,
    InvalidEncoding,
    InvalidProtocol,
    InvalidMethod,
}

impl ParseError {
    /// The fixed human-readable message of each kind.
    pub fn message(&self) -> (r: &'static str)
        ensures
            r@ == spec_message(*self),
    {
        match self {
            ParseError::InvalidRequest => "Invalid Request",
            ParseError::InvalidEncoding => "Invalid Encoding",
            ParseError::InvalidProtocol => "Invalid Protocol",
            ParseError::InvalidMethod => "Invalid Method",
        }
    }
}

/// The message text is a pure function of the error kind.
pub open spec fn spec_message(e: ParseError) -> Seq<char> {
    match e {
        ParseError::InvalidRequest => "Invalid Request"@,
        ParseError::InvalidEncoding => "Invalid Encoding"@,
        ParseError::InvalidProtocol => "Invalid Protocol"@,
        ParseError::InvalidMethod => "Invalid Method"@,
    }
}

/// A parsed request, owning copies of the pieces of its source buffer.
#[derive(Debug)]
pub struct Request {
    path: String,
    query_string: Option<QueryString>,
    method: Method,
    headers: Option<Headers>,
}

/// The model of a parsed request.
pub struct RequestView {
    pub method: Method,
    pub path: Seq<char>,
    pub query: Option<Seq<(Seq<char>, Seq<char>)>>,
    pub headers: Option<HeadersView>,
}

impl View for Request {
    type V = RequestView;

    closed spec fn view(&self) -> RequestView {
        RequestView {
            method: self.method,
            path: self.path@,
            query: match self.query_string {
                Some(q) => Some(q@),
                None => None,
            },
            headers: match self.headers {
                Some(h) => Some(h@),
                None => None,
            },
        }
    }
}

/// Index of the first CRLF pair, or -1 if there is none.
pub open spec fn find_crlf(s: Seq<char>) -> int
    decreases s.len(),
{
    if s.len() < 2 {
        -1
    } else if s[0] == '\r' && s[1] == '\n' {
        0
    } else {
        let r = find_crlf(s.drop_first());
        if r < 0 {
            -1
        } else {
            r + 1
        }
    }
}

/// A witness pins `find_crlf`: the least index of a CRLF pair.
pub proof fn lemma_find_crlf_is(s: Seq<char>, i: int)
    requires
        0 <= i,
        i + 2 <= s.len(),
        s[i] == '\r' && s[i + 1] == '\n',
        forall|k: int| 0 <= k < i ==> !(#[trigger] s[k] == '\r' && s[k + 1] == '\n'),
    ensures
        find_crlf(s) == i,
    decreases s.len(),
{
    if i > 0 {
        lemma_find_crlf_is(s.drop_first(), i - 1);
    }
}

/// No CRLF pair anywhere means `find_crlf` is -1.
pub proof fn lemma_find_crlf_none(s: Seq<char>)
    requires
        forall|k: int| 0 <= k && k + 2 <= s.len() ==> !(#[trigger] s[k] == '\r' && s[k + 1] == '\n'),
    ensures
        find_crlf(s) == -1,
    decreases s.len(),
{
    if s.len() >= 2 {
        lemma_find_crlf_none(s.drop_first());
    }
}

/// `find_crlf` points at a CRLF pair and nothing earlier is one.
pub proof fn lemma_find_crlf(s: Seq<char>)
    ensures
        find_crlf(s) == -1 ==> forall|k: int|
            0 <= k && k + 2 <= s.len() ==> !(#[trigger] s[k] == '\r' && s[k + 1] == '\n'),
        find_crlf(s) >= 0 ==> {
            let r = find_crlf(s);
            &&& r + 2 <= s.len()
            &&& s[r] == '\r' && s[r + 1] == '\n'
            &&& forall|k: int| 0 <= k < r ==> !(#[trigger] s[k] == '\r' && s[k + 1] == '\n')
        },
    decreases s.len(),
{
    if s.len() >= 2 && !(s[0] == '\r' && s[1] == '\n') {
        let t = s.drop_first();
        lemma_find_crlf(t);
        let rt = find_crlf(t);
        if rt < 0 {
            assert forall|k: int| 0 <= k && k + 2 <= s.len() implies !(#[trigger] s[k] == '\r' && s[k
                + 1] == '\n') by {
                if k > 0 {
                    assert(s[k] == t[k - 1] && s[k + 1] == t[k]);
                }
            }
        } else {
            let r = find_crlf(s);
            assert(r == rt + 1);
            assert(s[r] == t[rt] && s[r + 1] == t[rt + 1]);
            assert forall|k: int| 0 <= k < r implies !(#[trigger] s[k] == '\r' && s[k + 1] == '\n') by {
                if k > 0 {
                    assert(s[k] == t[k - 1] && s[k + 1] == t[k]);
                }
            }
        }
    }
}

/// The first whitespace-delimited word of a request line: the text up to the
/// first space or carriage return (which is consumed), or the whole text if
/// there is none; an empty text has no word.
pub open spec fn spec_next_word(s: Seq<char>) -> Option<(Seq<char>, Seq<char>)> {
    if s.len() == 0 {
        None
    } else {
        let i = find_or(s, ' ', '\r');
        if i < 0 {
            Some((s, Seq::empty()))
        } else {
            Some((s.take(i), s.skip(i + 1)))
        }
    }
}

/// Splits off the next word of a request line, as `spec_next_word` says.
pub fn get_next_word(s: &str) -> (r: Option<(&str, &str)>)
    ensures
        match (r, spec_next_word(s@)) {
            (Some((w, rest)), Some(p)) => w@ == p.0 && rest@ == p.1,
            (None, None) => true,
            _ => false,
        },
{
    let n = s.unicode_len();
    if n == 0 {
        return None;
    }
    match find_either(s, ' ', '\r') {
        None => {
            let empty = s.substring_char(n, n);
            proof {
                assert(empty@ =~= Seq::<char>::empty());
            }
            Some((s, empty))
        },
        Some(i) => {
            proof {
                lemma_find_or(s@, ' ', '\r');
            }
            let w = s.substring_char(0, i);
            let rest = s.substring_char(i + 1, n);
            proof {
                assert(w@ =~= s@.take(i as int));
                assert(rest@ =~= s@.skip(i as int + 1));
            }
            Some((w, rest))
        },
    }
}

/// What parsing a decoded buffer yields: the request line is the text before
/// the first CRLF (or all of it); it must tokenize into method, target and
/// protocol; the protocol must be `HTTP/1.1`; the method must be known; the
/// target splits at its first `?` into path and query; the text after the
/// first CRLF, if any, is the header block.
pub open spec fn spec_parse_request(text: Seq<char>) -> Result<RequestView, ParseError> {
    let eol = find_crlf(text);
    let first_line = if eol < 0 {
        text
    } else {
        text.take(eol)
    };
    match spec_next_word(first_line) {
        None => Err(ParseError::InvalidRequest),
        Some(w1) => match spec_next_word(w1.1) {
            None => Err(ParseError::InvalidRequest),
            Some(w2) => match spec_next_word(w2.1) {
                None => Err(ParseError::InvalidRequest),
                Some(w3) => {
                    if w3.0 != "HTTP/1.1"@ {
                        Err(ParseError::InvalidProtocol)
                    } else {
                        match spec_method(w1.0) {
                            None => Err(ParseError::InvalidMethod),
                            Some(m) => {
                                let target = w2.0;
                                let qi = find_or(target, '?', '?');
                                Ok(
                                    RequestView {
                                        method: m,
                                        path: if qi < 0 {
                                            target
                                        } else {
                                            target.take(qi)
                                        },
                                        query: if qi < 0 {
                                            None
                                        } else {
                                            Some(spec_parse_query(target.skip(qi + 1)))
                                        },
                                        headers: if eol < 0 {
                                            None
                                        } else {
                                            Some(
                                                spec_header_block(
                                                    text.skip(eol + 2),
                                                    Seq::<HeaderEntry>::empty(),
                                                ),
                                            )
                                        },
                                    },
                                )
                            },
                        }
                    }
                },
            },
        },
    }
}

/// Finds the first CRLF pair of `s`, scanning left to right.
fn find_crlf_at(s: &str) -> (r: Option<usize>)
    ensures
        match r {
            Some(i) => find_crlf(s@) == i as int,
            None => find_crlf(s@) == -1,
        },
{
    let n = s.unicode_len();
    if n < 2 {
        proof {
            lemma_find_crlf_none(s@);
        }
        return None;
    }
    let mut i: usize = 0;
    while i < n - 1
        invariant
            n == s@.len(),
            2 <= n,
            0 <= i,
            i + 2 <= n + 1,
            forall|k: int| 0 <= k < i ==> !(#[trigger] s@[k] == '\r' && s@[k + 1] == '\n'),
        decreases n - i,
    {
        if s.get_char(i) == '\r' && s.get_char(i + 1) == '\n' {
            proof {
                lemma_find_crlf_is(s@, i as int);
            }
            return Some(i);
        }
        i = i + 1;
    }
    proof {
        assert forall|k: int| 0 <= k && k + 2 <= s@.len() implies !(#[trigger] s@[k] == '\r' && s@[k
            + 1] == '\n') by {
            assert(k < i);
        }
        lemma_find_crlf_none(s@);
    }
    None
}

/// For any token of the closed method set, any path free of `?`, space,
/// carriage return and line feed, and the exact `HTTP/1.1` protocol, the
/// request line parses to that method and exactly that path, with no query
/// string and no headers.
pub proof fn lemma_parse_simple_request(m: Seq<char>, mm: Method, p: Seq<char>)
    requires
        spec_method(m) == Some(mm),
        forall|k: int|
            0 <= k < p.len() ==> #[trigger] p[k] != '?' && p[k] != ' ' && p[k] != '\r' && p[k]
                != '\n',
    ensures
        spec_parse_request(m + seq![' '] + p + seq![' '] + "HTTP/1.1"@) == Ok::<
            RequestView,
            ParseError,
        >(RequestView { method: mm, path: p, query: None, headers: None }),
{
    reveal_strlit("GET");
    reveal_strlit("DELETE");
    reveal_strlit("POST");
    reveal_strlit("PUT");
    reveal_strlit("HEAD");
    reveal_strlit("CONNECT");
    reveal_strlit("OPTIONS");
    reveal_strlit("TRACE");
    reveal_strlit("PATCH");
    reveal_strlit("HTTP/1.1");
    let proto = "HTTP/1.1"@;
    let text = m + seq![' '] + p + seq![' '] + proto;
    let ml = m.len() as int;
    let pl = p.len() as int;
    assert(forall|k: int| 0 <= k < m.len() ==> #[trigger] m[k] != ' ' && m[k] != '\r' && m[k] != '\n');
    assert(forall|k: int| 0 <= k < proto.len() ==> #[trigger] proto[k] != ' ' && proto[k] != '\r');
    assert(text.len() == ml + pl + 10);
    assert forall|k: int| 0 <= k && k + 2 <= text.len() implies !(#[trigger] text[k] == '\r'
        && text[k + 1] == '\n') by {
        if k < ml {
            assert(text[k] == m[k]);
        } else if k == ml {
            assert(text[k] == ' ');
        } else if k < ml + 1 + pl {
            assert(text[k] == p[k - ml - 1]);
        } else if k == ml + 1 + pl {
            assert(text[k] == ' ');
        } else {
            assert(text[k] == proto[k - ml - pl - 2]);
        }
    }
    lemma_find_crlf_none(text);
    assert(find_crlf(text) == -1);
    assert(text[ml] == ' ');
    assert forall|k: int| 0 <= k < ml implies text[k] != ' ' && text[k] != '\r' by {
        assert(text[k] == m[k]);
    }
    crate::strutil::lemma_find_or_is(text, ' ', '\r', ml);
    assert(text.take(ml) =~= m);
    let r1 = text.skip(ml + 1);
    assert(r1 =~= p + seq![' '] + proto);
    assert(r1[pl] == ' ');
    assert forall|k: int| 0 <= k < pl implies r1[k] != ' ' && r1[k] != '\r' by {
        assert(r1[k] == p[k]);
    }
    crate::strutil::lemma_find_or_is(r1, ' ', '\r', pl);
    assert(r1.take(pl) =~= p);
    let r2 = r1.skip(pl + 1);
    assert(r2 =~= proto);
    assert(r2.len() > 0);
    assert forall|k: int| 0 <= k < r2.len() implies r2[k] != ' ' && r2[k] != '\r' by {
        assert(r2[k] == proto[k]);
    }
    crate::strutil::lemma_find_or_none(r2, ' ', '\r');
    assert(spec_next_word(r2) == Some((proto, Seq::<char>::empty())));
    crate::strutil::lemma_find_or_none(p, '?', '?');
    assert(find_or(p, '?', '?') == -1);
}

/// Relies on std::str::from_utf8: it succeeds exactly on valid UTF-8 input
/// and decodes it as the UTF-8 specification says.
#[verifier::external_body]
fn decode_text(buf: &[u8]) -> (r: Option<&str>)
    ensures
        r is Some <==> vstd::utf8::valid_utf8(buf@),
        r matches Some(s) ==> s@ == vstd::utf8::decode_utf8(buf@),
{
    std::str::from_utf8(buf).ok()
}

impl Request {
    /// Parses a raw buffer: decodes it as UTF-8, then parses the text as
    /// `spec_parse_request` says; a buffer that is not valid UTF-8 fails
    /// with `InvalidEncoding`.
    pub fn parse(buf: &[u8]) -> (r: Result<Request, ParseError>)
        ensures
            !vstd::utf8::valid_utf8(buf@) ==> r == Err::<Request, ParseError>(
                ParseError::InvalidEncoding,
            ),
            vstd::utf8::valid_utf8(buf@) ==> match (
                r,
                spec_parse_request(vstd::utf8::decode_utf8(buf@)),
            ) {
                (Ok(req), Ok(v)) => req@ == v && req.wf(),
                (Err(e1), Err(e2)) => e1 == e2,
                _ => false,
            },
    {
        match decode_text(buf) {
            None => Err(ParseError::InvalidEncoding),
            Some(text) => Request::from_text(text),
        }
    }

    /// The parsed request is well formed: its header container, when
    /// present, is.
    pub closed spec fn wf(&self) -> bool {
        match self.headers {
            Some(h) => h.wf(),
            None => true,
        }
    }

    /// The path of the request target, without any query-string suffix.
    pub fn path(&self) -> (r: &str)
        ensures
            r@ == self@.path,
    {
        self.path.as_str()
    }

    /// The parsed method.
    pub fn method(&self) -> (r: &Method)
        ensures
            *r == self@.method,
    {
        &self.method
    }

    /// The parsed query string, when the target had a `?`.
    pub fn query_string(&self) -> (r: Option<&QueryString>)
        ensures
            match r {
                Some(q) => self@.query == Some(q@),
                None => self@.query is None,
            },
    {
        self.query_string.as_ref()
    }

    /// The parsed header block, when the buffer had one.
    pub fn headers(&self) -> (r: Option<&Headers>)
        ensures
            match r {
                Some(h) => self@.headers == Some(h@),
                None => self@.headers is None,
            },
    {
        self.headers.as_ref()
    }

    /// Parses decoded request text, exactly as `spec_parse_request` says.
    pub fn from_text(text: &str) -> (r: Result<Request, ParseError>)
        ensures
            match (r, spec_parse_request(text@)) {
                (Ok(req), Ok(v)) => req@ == v && req.wf(),
                (Err(e1), Err(e2)) => e1 == e2,
                _ => false,
            },
    {
        let n = text.unicode_len();
        let ghost eol = find_crlf(text@);
        let mut first_line: &str = text;
        let mut header_text: Option<&str> = None;
        match find_crlf_at(text) {
            None => {},
            Some(i) => {
                proof {
                    lemma_find_crlf(text@);
                }
                first_line = text.substring_char(0, i);
                header_text = Some(text.substring_char(i + 2, n));
                proof {
                    assert(first_line@ =~= text@.take(eol));
                    assert(header_text->0@ =~= text@.skip(eol + 2));
                }
            },
        }
        let (method_tok, rest1) = match get_next_word(first_line) {
            None => {
                return Err(ParseError::InvalidRequest);
            },
            Some(p) => p,
        };
        let (target, rest2) = match get_next_word(rest1) {
            None => {
                return Err(ParseError::InvalidRequest);
            },
            Some(p) => p,
        };
        let (protocol, _rest3) = match get_next_word(rest2) {
            None => {
                return Err(ParseError::InvalidRequest);
            },
            Some(p) => p,
        };
        if !str_eq(protocol, "HTTP/1.1") {
            return Err(ParseError::InvalidProtocol);
        }
        let method = match Method::from_token(method_tok) {
            None => {
                return Err(ParseError::InvalidMethod);
            },
            Some(m) => m,
        };
        let mut path: &str = target;
        let mut query: Option<QueryString> = None;
        match find_either(target, '?', '?') {
            None => {},
            Some(qi) => {
                proof {
                    lemma_find_or(target@, '?', '?');
                }
                let tn = target.unicode_len();
                let query_text = target.substring_char(qi + 1, tn);
                proof {
                    assert(query_text@ =~= target@.skip(qi as int + 1));
                }
                query = Some(QueryString::from(query_text));
                path = target.substring_char(0, qi);
                proof {
                    assert(path@ =~= target@.take(qi as int));
                }
            },
        }
        let headers = match header_text {
            None => None,
            Some(hb) => Some(Headers::from(hb)),
        };
        Ok(Request { path: String::from_str(path), query_string: query, method, headers })
    }
}

} // verus!
