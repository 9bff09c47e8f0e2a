//! The response value handed back to the transport.

use vstd::prelude::*;
use crate::params::{ParamMap, assoc_set};

verus! {

/// A wire response: status code, header map, body text.
pub struct Response {
    pub status_code: u16,
    pub headers: ParamMap,
    pub body: String,
}

impl Response {
    /// Build a response; a missing `content-type` header defaults to
    /// `application/json`.
    pub fn new(body: String, status_code: u16, headers: Option<ParamMap>) -> (r: Response)
        requires
            headers is Some ==> headers.unwrap().wf(),
        ensures
            r.status_code == status_code,
            r.body == body,
            r.headers.wf(),
            match headers {
                Some(h) => r.headers@ == if h.spec_contains("content-type"@) {
                    h@
                } else {
                    assoc_set(h@, "content-type"@, "application/json"@)
                },
                None => r.headers@ == assoc_set(
                    Seq::<(Seq<char>, Seq<char>)>::empty(),
                    "content-type"@,
                    "application/json"@,
                ),
            },
    {
        let mut h = match headers {
            Some(h) => h,
            None => ParamMap::new(),
        };
        if !h.contains_key("content-type") {
            h.insert(String::from_str("content-type"), String::from_str("application/json"));
        }
        Response { status_code, headers: h, body }
    }

    /// A JSON response from already-encoded JSON text; status defaults
    /// to 200.
    pub fn json(body: String, status_code: Option<u16>) -> (r: Response)
        ensures
            r.status_code == if status_code is Some {
                status_code.unwrap()
            } else {
                200u16
            },
            r.body == body,
            r.headers.wf(),
            r.headers@ =~= seq![("content-type"@, "application/json"@)],
    {
        let mut headers = ParamMap::new();
        headers.insert(String::from_str("content-type"), String::from_str("application/json"));
        let status = match status_code {
            Some(s) => s,
            None => 200,
        };
        Response { status_code: status, headers, body }
    }

    /// A plain-text response; status defaults to 200.
    pub fn text(text: String, status_code: Option<u16>) -> (r: Response)
        ensures
            r.status_code == if status_code is Some {
                status_code.unwrap()
            } else {
                200u16
            },
            r.body == text,
            r.headers.wf(),
            r.headers@ =~= seq![("content-type"@, "text/plain"@)],
    {
        let mut headers = ParamMap::new();
        headers.insert(String::from_str("content-type"), String::from_str("text/plain"));
        let status = match status_code {
            Some(s) => s,
            None => 200,
        };
        Response { status_code: status, headers, body: text }
    }
}

} // verus!
