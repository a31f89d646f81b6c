use vstd::prelude::*;

use crate::strutil::str_eq;

verus! {

/// The closed set of HTTP verbs this core understands.
#[derive(Clone, Copy, Debug, PartialEq, Eq, Structural)]
pub enum Method {
    GET,
    DELETE,
    POST,
    PUT,
    HEAD,
    CONNECT,
    OPTIONS,
    TRACE,
    PATCH,
}

/// Which method a token denotes: an exact, case-sensitive match, or none.
pub open spec fn spec_method(tok: Seq<char>) -> Option<Method> {
    if tok == "GET"@ {
        Some(Method::GET)
    } else if tok == "DELETE"@ {
        Some(Method::DELETE)
    } else if tok == "POST"@ {
        Some(Method::POST)
    } else if tok == "PUT"@ {
        Some(Method::PUT)
    } else if tok == "HEAD"@ {
        Some(Method::HEAD)
    } else if tok == "CONNECT"@ {
        Some(Method::CONNECT)
    } else if tok == "OPTIONS"@ {
        Some(Method::OPTIONS)
    } else if tok == "TRACE"@ {
        Some(Method::TRACE)
    } else if tok == "PATCH"@ {
        Some(Method::PATCH)
    } else {
        None
    }
}

impl Method {
    /// Parses a method token by exact match against the closed set.
    pub fn from_token(s: &str) -> (r: Option<Method>)
        ensures
            r == spec_method(s@),
    {
        if str_eq(s, "GET") {
            Some(Method::GET)
        } else if str_eq(s, "DELETE") {
            Some(Method::DELETE)
        } else if str_eq(s, "POST") {
            Some(Method::POST)
        } else if str_eq(s, "PUT") {
            Some(Method::PUT)
        } else if str_eq(s, "HEAD") {
            Some(Method::HEAD)
        } else if str_eq(s, "CONNECT") {
            Some(Method::CONNECT)
        } else if str_eq(s, "OPTIONS") {
            Some(Method::OPTIONS)
        } else if str_eq(s, "TRACE") {
            Some(Method::TRACE)
        } else if str_eq(s, "PATCH") {
            Some(Method::PATCH)
        } else {
            None
        }
    }
}

} // verus!
