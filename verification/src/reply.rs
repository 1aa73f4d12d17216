//! Replies to requests.
use crate::headers::{fields, has_room, lemma_visible, no_fields, set_field, valid_value, visible};
use hyper::HeaderMap;
use vstd::prelude::*;
use vstd::string::*;
use vstd::utf8::*;

verus! {

/// A reply to a request.
#[derive(Debug)]
pub struct Reply {
    /// The status code
    pub status: u16,
    /// The header fields
    pub headers: HeaderMap,
    /// The body
    pub body: Vec<u8>,
}

/// What a reply says.
#[verifier::ext_equal]
pub struct ReplyView {
    pub status: u16,
    pub headers: Map<Seq<char>, Seq<Seq<u8>>>,
    pub body: Seq<u8>,
}

impl ReplyView {
    /// A reply with a status code, without header fields and body.
    pub open spec fn bare(status: u16) -> Self {
        ReplyView { status, headers: Map::empty(), body: Seq::empty() }
    }

    /// With the one value `value` under `name`.
    pub open spec fn with(self, name: Seq<char>, value: Seq<char>) -> Self {
        ReplyView { headers: self.headers.insert(name, seq![encode_utf8(value)]), ..self }
    }

    /// With a body.
    pub open spec fn carrying(self, body: Seq<u8>) -> Self {
        ReplyView { body, ..self }
    }
}

impl Reply {
    /// What the reply says.
    pub open spec fn view(&self) -> ReplyView {
        ReplyView { status: self.status, headers: fields(self.headers), body: self.body@ }
    }

    /// A reply with a status code, without header fields and body.
    pub fn bare(status: u16) -> (r: Self)
        ensures
            r@ == ReplyView::bare(status),
            has_room(r@.headers, 100),
    {
        let r = Reply { status, headers: no_fields(), body: Vec::new() };
        assert(r@.headers =~= Map::empty());
        assert(r@ =~= ReplyView::bare(status));
        r
    }

    /// Puts a value under a name.
    pub fn set(&mut self, name: &str, value: &str)
        requires
            crate::headers::lower_name(name@),
            valid_value(value@),
            has_room(old(self)@.headers, 1),
        ensures
            final(self)@ == old(self)@.with(name@, value@),
            forall|n: nat| has_room(old(self)@.headers, n + 1) ==> #[trigger] has_room(
                final(self)@.headers,
                n,
            ),
    {
        set_field(&mut self.headers, name, value);
    }
}

/// The plain texts that headers of replies hold.
pub(crate) proof fn lemma_plain_values()
    ensures
        valid_value("text/plain; charset=utf-8"@),
        valid_value("text/html; charset=utf-8"@),
        valid_value("no-store"@),
        valid_value("public, max-age=3600"@),
{
    reveal_strlit("text/plain; charset=utf-8");
    reveal_strlit("text/html; charset=utf-8");
    reveal_strlit("no-store");
    reveal_strlit("public, max-age=3600");
    assert(visible("text/plain; charset=utf-8"@));
    assert(visible("text/html; charset=utf-8"@));
    assert(visible("no-store"@));
    assert(visible("public, max-age=3600"@));
    lemma_visible("text/plain; charset=utf-8"@);
    lemma_visible("text/html; charset=utf-8"@);
    lemma_visible("no-store"@);
    lemma_visible("public, max-age=3600"@);
}

/// What is put on a reply is there, under its name, in place of what was there before,
/// and changes nothing else.
pub proof fn law_replies_hold_what_is_put_on_them(
    r: ReplyView,
    name: Seq<char>,
    value: Seq<char>,
    other: Seq<char>,
    body: Seq<u8>,
)
    requires
        other != name,
    ensures
        r.with(name, value).headers.contains_key(name),
        r.with(name, value).headers[name].len() == 1,
        decode_utf8(r.with(name, value).headers[name][0]) == value,
        r.with(name, value).headers.contains_key(other) == r.headers.contains_key(other),
        r.headers.contains_key(other) ==> r.with(name, value).headers[other] == r.headers[other],
        r.with(name, value).status == r.status,
        r.with(name, value).body == r.body,
        r.carrying(body).body == body,
        r.carrying(body).status == r.status,
        r.carrying(body).headers == r.headers,
{
    encode_utf8_decode_utf8(value);
}

/// A bare reply has its status and nothing else.
pub proof fn law_bare_replies_are_bare(status: u16, name: Seq<char>)
    ensures
        ReplyView::bare(status).status == status,
        !ReplyView::bare(status).headers.contains_key(name),
        ReplyView::bare(status).body.len() == 0,
{
}

}
