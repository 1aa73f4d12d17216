//! Header fields of requests and replies.
use crate::text::{ascii_lower, ascii_lower_char};
use hyper::header::{HeaderName, HeaderValue};
use hyper::HeaderMap;
use std::str::FromStr;
use vstd::prelude::*;
use vstd::utf8::*;

verus! {

/// A value of a header field.
#[verifier::external_type_specification]
#[verifier::external_body]
pub struct ExHeaderValue(HeaderValue);

/// A collection of header fields.
#[verifier::external_type_specification]
#[verifier::external_body]
#[verifier::reject_recursive_types(T)]
pub struct ExHeaderMap<T>(HeaderMap<T>);

/// The fields of a collection: the values under each name, as bytes, in order.
/// Names are in lower case.
pub uninterp spec fn fields(m: HeaderMap<HeaderValue>) -> Map<Seq<char>, Seq<Seq<u8>>>;

/// The number of names that a collection may hold and still take another,
/// whatever its layout.
pub const MANY_NAMES: usize = 6553;

/// The characters of which names of fields are made.
pub open spec fn name_char(c: char) -> bool {
    ||| '0' <= c <= '9'
    ||| 'A' <= c <= 'Z'
    ||| 'a' <= c <= 'z'
    ||| c == '!' || c == '#' || c == '$' || c == '%' || c == '&' || c == '\'' || c == '*'
    ||| c == '+' || c == '-' || c == '.' || c == '^' || c == '_' || c == '`' || c == '|'
    ||| c == '~'
}

/// Whether a text is the name of a field.
pub open spec fn valid_name(s: Seq<char>) -> bool {
    &&& 1 <= s.len() <= 65535
    &&& forall|i: int| 0 <= i < s.len() ==> name_char(#[trigger] s[i])
}

/// Whether a text is the name of a field in lower case.
pub open spec fn lower_name(s: Seq<char>) -> bool {
    &&& valid_name(s)
    &&& forall|i: int| 0 <= i < s.len() ==> !('A' <= #[trigger] s[i] <= 'Z')
}

/// The characters of which values of fields are made.
pub open spec fn value_char(c: char) -> bool {
    c == '\t' || (c >= ' ' && c != '\x7f')
}

/// Whether a text is the value of a field.
pub open spec fn valid_value(s: Seq<char>) -> bool {
    forall|i: int| 0 <= i < s.len() ==> value_char(#[trigger] s[i])
}

/// Whether there are `n` names.
pub open spec fn holds_names(f: Map<Seq<char>, Seq<Seq<u8>>>, n: nat) -> bool {
    f.dom().finite() && f.dom().len() == n
}

/// Whether `n` names may be added to a collection one after the other.
pub open spec fn has_room(f: Map<Seq<char>, Seq<Seq<u8>>>, n: nat) -> bool {
    f.dom().finite() && f.dom().len() + n <= MANY_NAMES + 1
}

/// `HeaderMap::new` makes a collection without any field.
#[verifier::external_body]
pub(crate) fn no_fields() -> (m: HeaderMap)
    ensures
        fields(m) =~= Map::empty(),
{
    HeaderMap::new()
}

/// `HeaderMap::keys_len` counts the names of a collection, which is always
/// finite.
#[verifier::external_body]
fn names_in(m: &HeaderMap) -> (n: usize)
    ensures
        holds_names(fields(*m), n as nat),
{
    m.keys_len()
}

/// `HeaderMap::get` finds the first value under a name, written in lower case.
#[verifier::external_body]
fn first_value(m: &HeaderMap, name: &str) -> (r: Option<Vec<u8>>)
    requires
        lower_name(name@),
    ensures
        r is Some <==> fields(*m).contains_key(name@),
        r matches Some(v) ==> fields(*m)[name@].len() > 0 && v@ == fields(*m)[name@][0],
{
    m.get(name).map(|v| v.as_bytes().to_vec())
}

/// `HeaderName::from_str` reads the name of a field: 1 to 65535 token
/// characters, of which the letters are put in lower case.
#[verifier::external_body]
fn read_name(s: &str) -> (r: Option<String>)
    ensures
        r is Some <==> valid_name(s@),
        r matches Some(name) ==> name@ == ascii_lower(s@),
{
    HeaderName::from_str(s).ok().map(|n| n.as_str().to_string())
}

/// `HeaderValue::from_str` accepts a text that holds no control characters but
/// tabs.
#[verifier::external_body]
fn reads_as_value(s: &str) -> (r: bool)
    ensures
        r == valid_value(s@),
{
    HeaderValue::from_str(s).is_ok()
}

/// `HeaderMap::insert` puts a value under a name, in place of those that are
/// there, and leaves the other fields alone. It panics when the collection
/// cannot grow, which it can while it has room for one more name.
#[verifier::external_body]
fn put_field(m: &mut HeaderMap, name: &str, value: &str)
    requires
        lower_name(name@),
        valid_value(value@),
        has_room(fields(*old(m)), 1),
    ensures
        fields(*final(m)) == fields(*old(m)).insert(name@, seq![encode_utf8(value@)]),
{
    m.insert(HeaderName::from_str(name).unwrap(), HeaderValue::from_str(value).unwrap());
}

/// The text of a value, if it is made of visible ASCII characters, blanks and
/// tabs.
pub open spec fn visible_text(v: Seq<u8>) -> Option<Seq<char>> {
    if forall|i: int| 0 <= i < v.len() ==> visible_byte(#[trigger] v[i]) {
        Some(Seq::new(v.len(), |i: int| v[i] as char))
    } else {
        None
    }
}

/// Whether a byte is a visible ASCII character, a blank or a tab.
pub open spec fn visible_byte(b: u8) -> bool {
    32 <= b < 127 || b == 9
}

/// Whether a character is a visible ASCII character, a blank or a tab.
pub open spec fn visible_char(c: char) -> bool {
    ' ' <= c <= '~' || c == '\t'
}

/// Whether a text is made of visible ASCII characters, blanks and tabs.
pub open spec fn visible(s: Seq<char>) -> bool {
    forall|i: int| 0 <= i < s.len() ==> visible_char(#[trigger] s[i])
}

/// The text of the first field called `name`, if there is one and it is visible.
pub open spec fn text_field(
    f: Map<Seq<char>, Seq<Seq<u8>>>,
    name: Seq<char>,
) -> Option<Seq<char>> {
    if f.contains_key(name) {
        visible_text(f[name][0])
    } else {
        None
    }
}

/// A visible text is the value of a field, and its bytes are its characters.
pub proof fn lemma_visible(s: Seq<char>)
    requires
        visible(s),
    ensures
        valid_value(s),
        is_ascii_chars(s),
        visible_text(encode_utf8(s)) == Some(s),
{
    assert forall|i: int| 0 <= i < s.len() implies '\0' <= #[trigger] s[i] <= '\u{7f}' by {
        assert(visible_char(s[i]));
    }
    is_ascii_chars_encode_utf8(s);
    let v = encode_utf8(s);
    assert forall|i: int| 0 <= i < v.len() implies visible_byte(#[trigger] v[i]) by {
        assert(visible_char(s[i]));
        assert(s[i] as u8 == v[i]);
    }
    assert(Seq::new(v.len(), |i: int| v[i] as char) =~= s) by {
        assert forall|i: int| 0 <= i < s.len() implies (v[i] as char) == s[i] by {
            assert(visible_char(s[i]));
            assert(s[i] as u8 == v[i]);
        }
    }
}

/// The text of a value is visible.
pub proof fn lemma_visible_text(v: Seq<u8>)
    ensures
        visible_text(v) matches Some(s) ==> visible(s),
{
    if let Some(s) = visible_text(v) {
        assert forall|i: int| 0 <= i < s.len() implies visible_char(#[trigger] s[i]) by {
            assert(visible_byte(v[i]));
            assert(s[i] == v[i] as char);
        }
    }
}

/// The text of a value, if it is made of visible ASCII characters, blanks and
/// tabs.
pub fn to_text(v: &Vec<u8>) -> (r: Option<String>)
    ensures
        r is Some <==> visible_text(v@) is Some,
        r matches Some(s) ==> visible_text(v@) == Some(s@),
{
    let mut s = String::new();
    let mut i: usize = 0;
    while i < v.len()
        invariant
            0 <= i <= v@.len(),
            s@.len() == i,
            forall|j: int| 0 <= j < i ==> visible_byte(#[trigger] v@[j]),
            forall|j: int| 0 <= j < i ==> (#[trigger] s@[j]) == v@[j] as char,
        decreases v@.len() - i,
    {
        let b = v[i];
        if !(b >= 32 && b < 127 || b == 9) {
            assert(!visible_byte(v@[i as int]));
            return None;
        }
        s.push(b as char);
        i += 1;
    }
    assert(s@ =~= Seq::new(v@.len(), |i: int| v@[i] as char));
    Some(s)
}

/// The text of the first field called `name`, if there is one and it is visible.
pub fn field_text(m: &HeaderMap, name: &str) -> (r: Option<String>)
    requires
        lower_name(name@),
    ensures
        r is Some <==> text_field(fields(*m), name@) is Some,
        r matches Some(s) ==> text_field(fields(*m), name@) == Some(s@) && visible(s@),
{
    match first_value(m, name) {
        Some(v) => {
            proof {
                lemma_visible_text(v@);
            }
            to_text(&v)
        },
        None => None,
    }
}

/// Whether `n` names may be added to a collection one after the other.
pub fn room_for(m: &HeaderMap, n: usize) -> (r: bool)
    ensures
        r == has_room(fields(*m), n as nat),
{
    let names = names_in(m);
    names <= MANY_NAMES + 1 && n <= MANY_NAMES + 1 - names
}

/// Whether a text is the value of a field.
pub fn is_value(s: &str) -> (r: bool)
    ensures
        r == valid_value(s@),
{
    reads_as_value(s)
}

/// The name of a field, in lower case.
pub fn to_name(s: &str) -> (r: Option<String>)
    ensures
        r is Some <==> valid_name(s@),
        r matches Some(name) ==> name@ == ascii_lower(s@) && lower_name(name@),
{
    proof {
        if valid_name(s@) {
            lemma_lowered_name(s@);
        }
    }
    read_name(s)
}

/// Puts a value under a name, in place of those that are there.
pub fn set_field(m: &mut HeaderMap, name: &str, value: &str)
    requires
        lower_name(name@),
        valid_value(value@),
        has_room(fields(*old(m)), 1),
    ensures
        fields(*final(m)) == fields(*old(m)).insert(name@, seq![encode_utf8(value@)]),
        forall|n: nat| has_room(fields(*old(m)), n + 1) ==> #[trigger] has_room(
            fields(*final(m)),
            n,
        ),
{
    put_field(m, name, value);
}

/// A name whose letters were put in lower case is a name in lower case.
proof fn lemma_lowered_name(s: Seq<char>)
    requires
        valid_name(s),
    ensures
        lower_name(ascii_lower(s)),
{
    let t = ascii_lower(s);
    assert forall|i: int| 0 <= i < t.len() implies name_char(#[trigger] t[i]) && !('A' <= t[i]
        <= 'Z') by {
        assert(name_char(s[i]));
        assert(t[i] == ascii_lower_char(s[i]));
    }
}

/// The names of the fields that are read.
pub proof fn lemma_read_names()
    ensures
        lower_name("host"@),
        lower_name("user-agent"@),
        lower_name("upgrade"@),
        lower_name("if-none-match"@),
        lower_name("if-modified-since"@),
{
    reveal_strlit("host");
    reveal_strlit("user-agent");
    reveal_strlit("upgrade");
    reveal_strlit("if-none-match");
    reveal_strlit("if-modified-since");
}

/// The names of the fields that are written.
pub proof fn lemma_written_names()
    ensures
        lower_name("content-type"@),
        lower_name("content-length"@),
        lower_name("cache-control"@),
        lower_name("etag"@),
        lower_name("last-modified"@),
        lower_name("location"@),
        lower_name("x-forwarded-for"@),
        lower_name("x-forwarded-host"@),
        lower_name("x-real-ip"@),
{
    reveal_strlit("content-type");
    reveal_strlit("content-length");
    reveal_strlit("cache-control");
    reveal_strlit("etag");
    reveal_strlit("last-modified");
    reveal_strlit("location");
    reveal_strlit("x-forwarded-for");
    reveal_strlit("x-forwarded-host");
    reveal_strlit("x-real-ip");
}

}
