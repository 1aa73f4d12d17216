//! Error replies.
use crate::headers::lemma_written_names;
use crate::reply::{lemma_plain_values, Reply, ReplyView};
use crate::text::{decimal, decimal_text, occurs};
use crate::text_laws::lemma_straddle;
use vstd::prelude::*;
use vstd::string::*;
use vstd::utf8::*;

verus! {

/// The body of a plain-text error.
pub open spec fn error_text(status: u16, message: Seq<char>) -> Seq<char> {
    decimal(status as nat) + " "@ + message + "\n"@
}

/// The page of an HTML error.
pub open spec fn error_page(status: u16, title: Seq<char>, body: Seq<char>) -> Seq<char> {
    "<!DOCTYPE html>\n<html>\n<head><title>"@ + decimal(status as nat) + " "@ + title
        + "</title>\n<style>body{font-family:sans-serif;text-align:center;padding:4em}h1{font-size:3em}p{color:#666}</style>\n</head>\n<body>\n<h1>"@
        + decimal(status as nat) + "</h1>\n<p>"@ + body
        + "</p>\n<hr><small>curf</small>\n</body>\n</html>"@
}

/// A plain-text error.
pub open spec fn plain_error(status: u16, message: Seq<char>) -> ReplyView {
    ReplyView::bare(status).with("content-type"@, "text/plain; charset=utf-8"@).with(
        "cache-control"@,
        "no-store"@,
    ).carrying(encode_utf8(error_text(status, message)))
}

/// An HTML error.
pub open spec fn page_error(status: u16, title: Seq<char>, body: Seq<char>) -> ReplyView {
    ReplyView::bare(status).with("content-type"@, "text/html; charset=utf-8"@).with(
        "cache-control"@,
        "no-store"@,
    ).carrying(encode_utf8(error_page(status, title, body)))
}

/// Builds a plain-text error reply.
pub fn error_response(status: u16, message: &str) -> (r: Reply)
    ensures
        r@ == plain_error(status, message@),
{
    proof {
        lemma_written_names();
        lemma_plain_values();
    }
    let mut text = decimal_text(status as u64);
    text.append(" ");
    text.append(message);
    text.append("\n");
    let mut r = Reply::bare(status);
    r.set("content-type", "text/plain; charset=utf-8");
    assert(crate::headers::has_room(r@.headers, 99));
    r.set("cache-control", "no-store");
    r.body = text.as_str().as_bytes_vec();
    r
}

/// Builds a minimal HTML error page.
pub fn html_error(status: u16, title: &str, body: &str) -> (r: Reply)
    ensures
        r@ == page_error(status, title@, body@),
{
    proof {
        lemma_written_names();
        lemma_plain_values();
    }
    let code = decimal_text(status as u64);
    let mut html = "<!DOCTYPE html>\n<html>\n<head><title>".to_string();
    html.append(code.as_str());
    html.append(" ");
    html.append(title);
    html.append(
        "</title>\n<style>body{font-family:sans-serif;text-align:center;padding:4em}h1{font-size:3em}p{color:#666}</style>\n</head>\n<body>\n<h1>",
    );
    html.append(code.as_str());
    html.append("</h1>\n<p>");
    html.append(body);
    html.append("</p>\n<hr><small>curf</small>\n</body>\n</html>");
    let mut r = Reply::bare(status);
    r.set("content-type", "text/html; charset=utf-8");
    assert(crate::headers::has_room(r@.headers, 99));
    r.set("cache-control", "no-store");
    r.body = html.as_str().as_bytes_vec();
    r
}

/// The names of the fields that an error has.
proof fn lemma_error_names()
    ensures
        "content-type"@ != "cache-control"@,
{
    reveal_strlit("content-type");
    reveal_strlit("cache-control");
    assert("content-type"@.len() == 12);
    assert("cache-control"@.len() == 13);
}

/// A plain-text error has its status, is not stored, and its body is one line: the
/// status, a blank and the whole message.
pub proof fn law_plain_errors_tell_their_message(status: u16, message: Seq<char>)
    ensures
        plain_error(status, message).status == status,
        plain_error(status, message).headers["content-type"@] == seq![
            encode_utf8("text/plain; charset=utf-8"@),
        ],
        plain_error(status, message).headers["cache-control"@] == seq![encode_utf8("no-store"@)],
        plain_error(status, message).headers.dom() == set!["content-type"@, "cache-control"@],
        ({
            let line = decode_utf8(plain_error(status, message).body);
            let digits = decimal(status as nat);
            &&& line.len() == digits.len() + message.len() + 2
            &&& line.take(digits.len() as int) == digits
            &&& line[digits.len() as int] == ' '
            &&& line.subrange(digits.len() + 1int, line.len() - 1) == message
            &&& line.last() == '\n'
        }),
{
    lemma_error_names();
    reveal_strlit(" ");
    reveal_strlit("\n");
    let text = error_text(status, message);
    encode_utf8_decode_utf8(text);
    let digits = decimal(status as nat);
    assert(text.take(digits.len() as int) =~= digits);
    assert(text.subrange(digits.len() + 1int, text.len() - 1) =~= message);
    assert(plain_error(status, message).headers.dom() =~= set!["content-type"@, "cache-control"@]);
}

/// An error page has its status, is not stored, and shows the status, the title and the
/// whole text.
pub proof fn law_error_pages_show_their_text(status: u16, title: Seq<char>, body: Seq<char>)
    ensures
        page_error(status, title, body).status == status,
        page_error(status, title, body).headers["content-type"@] == seq![
            encode_utf8("text/html; charset=utf-8"@),
        ],
        page_error(status, title, body).headers["cache-control"@] == seq![
            encode_utf8("no-store"@),
        ],
        page_error(status, title, body).headers.dom() == set!["content-type"@, "cache-control"@],
        ({
            let page = decode_utf8(page_error(status, title, body).body);
            let digits = decimal(status as nat);
            &&& occurs(page, "<title>"@ + digits + " "@ + title + "</title>"@)
            &&& occurs(page, "<h1>"@ + digits + "</h1>"@)
            &&& occurs(page, "<p>"@ + body + "</p>"@)
            &&& "<!DOCTYPE html>"@.is_prefix_of(page)
            &&& "</html>"@.is_suffix_of(page)
        }),
{
    lemma_error_names();
    let page = error_page(status, title, body);
    let digits = decimal(status as nat);
    encode_utf8_decode_utf8(page);
    assert(page_error(status, title, body).headers.dom() =~= set![
        "content-type"@,
        "cache-control"@,
    ]);
    let p1 = "<!DOCTYPE html>\n<html>\n<head><title>"@;
    let p2 = "</title>\n<style>body{font-family:sans-serif;text-align:center;padding:4em}h1{font-size:3em}p{color:#666}</style>\n</head>\n<body>\n<h1>"@;
    let p3 = "</h1>\n<p>"@;
    let p4 = "</p>\n<hr><small>curf</small>\n</body>\n</html>"@;
    let heading = digits + " "@ + title;
    lemma_page_pieces();
    lemma_page_shows(p1, digits, heading, p2, p3, body, p4);
    assert(page =~= p1 + heading + p2 + digits + p3 + body + p4);
    assert("<title>"@ + digits + " "@ + title + "</title>"@ =~= "<title>"@ + heading
        + "</title>"@);
}

/// The pieces of an error page that stand around what it shows.
proof fn lemma_page_pieces()
    ensures
        ({
            let p1 = "<!DOCTYPE html>\n<html>\n<head><title>"@;
            let p2 = "</title>\n<style>body{font-family:sans-serif;text-align:center;padding:4em}h1{font-size:3em}p{color:#666}</style>\n</head>\n<body>\n<h1>"@;
            let p3 = "</h1>\n<p>"@;
            let p4 = "</p>\n<hr><small>curf</small>\n</body>\n</html>"@;
            &&& "<!DOCTYPE html>"@.is_prefix_of(p1)
            &&& "<title>"@.is_suffix_of(p1)
            &&& "</title>"@.is_prefix_of(p2)
            &&& "<h1>"@.is_suffix_of(p2)
            &&& "</h1>"@.is_prefix_of(p3)
            &&& "<p>"@.is_suffix_of(p3)
            &&& "</p>"@.is_prefix_of(p4)
            &&& "</html>"@.is_suffix_of(p4)
        }),
{
    reveal_strlit("<!DOCTYPE html>\n<html>\n<head><title>");
    reveal_strlit("<!DOCTYPE html>");
    reveal_strlit("<title>");
    reveal_strlit("</title>");
    reveal_strlit("<h1>");
    reveal_strlit("</h1>");
    reveal_strlit("<p>");
    reveal_strlit("</p>");
    reveal_strlit("</h1>\n<p>");
    reveal_strlit("</html>");
    reveal_strlit("</p>\n<hr><small>curf</small>\n</body>\n</html>");
    reveal_strlit(
        "</title>\n<style>body{font-family:sans-serif;text-align:center;padding:4em}h1{font-size:3em}p{color:#666}</style>\n</head>\n<body>\n<h1>",
    );
    let p1 = "<!DOCTYPE html>\n<html>\n<head><title>"@;
    let p2 = "</title>\n<style>body{font-family:sans-serif;text-align:center;padding:4em}h1{font-size:3em}p{color:#666}</style>\n</head>\n<body>\n<h1>"@;
    let p3 = "</h1>\n<p>"@;
    let p4 = "</p>\n<hr><small>curf</small>\n</body>\n</html>"@;
    assert(p1.take(15) =~= "<!DOCTYPE html>"@);
    assert(p1.skip(p1.len() - 7) =~= "<title>"@);
    assert(p2.take(8) =~= "</title>"@);
    assert(p2.skip(p2.len() - 4) =~= "<h1>"@);
    assert(p3.take(5) =~= "</h1>"@);
    assert(p3.skip(p3.len() - 3) =~= "<p>"@);
    assert(p4.take(4) =~= "</p>"@);
    assert(p4.skip(p4.len() - 7) =~= "</html>"@);
}

/// What stands where in a text that is made of these pieces.
proof fn lemma_page_shows(
    p1: Seq<char>,
    digits: Seq<char>,
    heading: Seq<char>,
    p2: Seq<char>,
    p3: Seq<char>,
    body: Seq<char>,
    p4: Seq<char>,
)
    requires
        "<!DOCTYPE html>"@.is_prefix_of(p1),
        "<title>"@.is_suffix_of(p1),
        "</title>"@.is_prefix_of(p2),
        "<h1>"@.is_suffix_of(p2),
        "</h1>"@.is_prefix_of(p3),
        "<p>"@.is_suffix_of(p3),
        "</p>"@.is_prefix_of(p4),
        "</html>"@.is_suffix_of(p4),
    ensures
        ({
            let page = p1 + heading + p2 + digits + p3 + body + p4;
            &&& occurs(page, "<title>"@ + heading + "</title>"@)
            &&& occurs(page, "<h1>"@ + digits + "</h1>"@)
            &&& occurs(page, "<p>"@ + body + "</p>"@)
            &&& "<!DOCTYPE html>"@.is_prefix_of(page)
            &&& "</html>"@.is_suffix_of(page)
        }),
{
    let page = p1 + heading + p2 + digits + p3 + body + p4;
    let a = p2 + digits + p3 + body + p4;
    assert(a.take("</title>"@.len() as int) =~= p2.take("</title>"@.len() as int));
    lemma_straddle(p1, "<title>"@, heading, "</title>"@, a);
    assert(page =~= p1 + heading + a);
    let b = p1 + heading + p2;
    let c = p3 + body + p4;
    assert(b.skip(b.len() - "<h1>"@.len()) =~= p2.skip(p2.len() - "<h1>"@.len()));
    assert(c.take("</h1>"@.len() as int) =~= p3.take("</h1>"@.len() as int));
    lemma_straddle(b, "<h1>"@, digits, "</h1>"@, c);
    assert(page =~= b + digits + c);
    let d = b + digits + p3;
    assert(d.skip(d.len() - "<p>"@.len()) =~= p3.skip(p3.len() - "<p>"@.len()));
    lemma_straddle(d, "<p>"@, body, "</p>"@, p4);
    assert(page =~= d + body + p4);
    assert(page.take("<!DOCTYPE html>"@.len() as int) =~= p1.take("<!DOCTYPE html>"@.len() as int));
    assert(page.skip(page.len() - "</html>"@.len()) =~= p4.skip(p4.len() - "</html>"@.len()));
}

}
