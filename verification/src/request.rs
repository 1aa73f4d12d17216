//! Requests.
use crate::headers::{field_text, fields, lemma_read_names, lemma_visible, text_field, visible};
use crate::text::{ascii_lower, before, before_first, lemma_find_first, same_ignoring_case};
use hyper::HeaderMap;
use vstd::prelude::*;
use vstd::utf8::*;

verus! {

/// The method of a request, as far as it matters here.
#[derive(Debug, Clone, Copy, PartialEq, Eq, Structural)]
pub enum Method {
    /// GET
    Get,
    /// HEAD
    Head,
    /// Any other
    Other,
}

/// The head of a request.
#[derive(Debug)]
pub struct RequestHead {
    /// The method
    pub method: Method,
    /// The path of the URI
    pub path: String,
    /// The query of the URI
    pub query: Option<String>,
    /// The path and the query of the URI, as they were sent
    pub path_and_query: Option<String>,
    /// The header fields
    pub headers: HeaderMap,
}

/// The head of a request.
#[verifier::ext_equal]
pub struct HeadView {
    pub method: Method,
    pub path: Seq<char>,
    pub query: Option<Seq<char>>,
    pub path_and_query: Option<Seq<char>>,
    pub headers: Map<Seq<char>, Seq<Seq<u8>>>,
}

/// The characters of a text that may be missing.
pub open spec fn chars_in(s: Option<String>) -> Option<Seq<char>> {
    match s {
        Some(t) => Some(t@),
        None => None,
    }
}

/// The name of the domain that a request is for: the `Host` field without the
/// port, in lower case. Empty if there is none that can be read.
pub open spec fn host_in(f: Map<Seq<char>, Seq<Seq<u8>>>) -> Seq<char> {
    match text_field(f, "host"@) {
        Some(h) => ascii_lower(before_first(h, ':')),
        None => Seq::empty(),
    }
}

/// Whether a request asks for a WebSocket.
pub open spec fn asks_for_websocket(f: Map<Seq<char>, Seq<Seq<u8>>>) -> bool {
    text_field(f, "upgrade"@) matches Some(u) && ascii_lower(u) == ascii_lower("websocket"@)
}

impl RequestHead {
    /// The head.
    pub open spec fn view(&self) -> HeadView {
        HeadView {
            method: self.method,
            path: self.path@,
            query: chars_in(self.query),
            path_and_query: chars_in(self.path_and_query),
            headers: fields(self.headers),
        }
    }

    /// The name of the domain that the request is for.
    pub fn host(&self) -> (r: String)
        ensures
            r@ == host_in(self@.headers),
    {
        proof {
            lemma_read_names();
        }
        match field_text(&self.headers, "host") {
            Some(h) => {
                let name = before(h.as_str(), ':');
                proof {
                    lemma_find_first(h@, ':');
                    assert(visible(name@)) by {
                        assert forall|i: int| 0 <= i < name@.len() implies
                            crate::headers::visible_char(#[trigger] name@[i]) by {
                            assert(name@[i] == h@[i]);
                        }
                    }
                    lemma_visible(name@);
                }
                name.as_str().to_lowercase()
            },
            None => String::new(),
        }
    }
}

/// Whether a request asks for a WebSocket.
pub fn is_websocket_upgrade(headers: &HeaderMap) -> (r: bool)
    ensures
        r == asks_for_websocket(fields(*headers)),
{
    proof {
        lemma_read_names();
    }
    match field_text(headers, "upgrade") {
        Some(u) => same_ignoring_case(u.as_str(), "websocket"),
        None => false,
    }
}

}
