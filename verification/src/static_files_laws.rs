//! What holds of the serving of files as a whole.
use crate::headers::{lemma_visible, text_field, visible};
use crate::paths::{joined, resolved};
use crate::reply::ReplyView;
use crate::request::Method;
use crate::static_files::{
    by_name, date_in, dated_reply, entries_view, entry_line, entry_lines, file_step, get_reply,
    head_reply, law_listing_is_sorted, lemma_etag_visible, listing_page, listing_reply, Entry,
    FileMeta, FileStepView, StaticView, StepView,
};
use crate::text::{decimal, digits_value, is_digit, occurs};
use crate::text_laws::{
    law_decimal_stands_for_its_number, law_ends_are_trimmed, law_parts_occur, lemma_straddle,
    repeated,
};
use vstd::prelude::*;
use vstd::string::*;
use vstd::utf8::*;

verus! {

/// The names of the fields that replies with files have.
proof fn lemma_file_names()
    ensures
        "content-type"@.len() == 12,
        "content-length"@.len() == 14,
        "etag"@.len() == 4,
        "last-modified"@.len() == 13,
        "cache-control"@.len() == 13,
        "last-modified"@ != "cache-control"@,
{
    reveal_strlit("content-type");
    reveal_strlit("content-length");
    reveal_strlit("etag");
    reveal_strlit("last-modified");
    reveal_strlit("cache-control");
    assert("cache-control"@[0] == 'c');
    assert("last-modified"@[0] == 'l');
}

proof fn lemma_decimal_is_visible(n: nat)
    ensures
        visible(decimal(n)),
{
    law_decimal_stands_for_its_number(n);
    assert forall|i: int| 0 <= i < decimal(n).len() implies crate::headers::visible_char(
        #[trigger] decimal(n)[i],
    ) by {
        assert(is_digit(decimal(n)[i]));
    }
}

/// The reply to a GET request for a file carries the whole file: its body is the data,
/// byte for byte, and the length that it states is the number of these bytes. Its type,
/// its tag and its date are those of the file, and it may be kept for an hour.
pub proof fn law_the_whole_file_is_sent(
    meta: FileMeta,
    mime: Seq<char>,
    date: Seq<char>,
    data: Seq<u8>,
)
    requires
        visible(mime),
        visible(date),
    ensures
        dated_reply(meta, mime, date, data).status == 200,
        dated_reply(meta, mime, date, data).body.len() == data.len(),
        forall|i: int|
            0 <= i < data.len() ==> dated_reply(meta, mime, date, data).body[i] == data[i],
        text_field(dated_reply(meta, mime, date, data).headers, "content-length"@) matches Some(n)
            && digits_value(n) == data.len() && (forall|i: int|
            0 <= i < n.len() ==> is_digit(#[trigger] n[i])),
        text_field(dated_reply(meta, mime, date, data).headers, "content-type"@) == Some(mime),
        text_field(dated_reply(meta, mime, date, data).headers, "etag"@) == Some(
            meta.spec_etag(),
        ),
        text_field(dated_reply(meta, mime, date, data).headers, "last-modified"@) == Some(date),
        text_field(dated_reply(meta, mime, date, data).headers, "cache-control"@) == Some(
            "public, max-age=3600"@,
        ),
        dated_reply(meta, mime, date, data).headers.dom() == set![
            "content-type"@,
            "content-length"@,
            "etag"@,
            "last-modified"@,
            "cache-control"@,
        ],
        get_reply(meta, mime, data) == dated_reply(meta, mime, meta.date(), data),
{
    lemma_file_names();
    law_decimal_stands_for_its_number(data.len());
    lemma_decimal_is_visible(data.len());
    lemma_visible(decimal(data.len()));
    lemma_visible(mime);
    lemma_visible(date);
    lemma_etag_visible(meta);
    lemma_visible(meta.spec_etag());
    reveal_strlit("public, max-age=3600");
    assert(visible("public, max-age=3600"@));
    lemma_visible("public, max-age=3600"@);
    assert(dated_reply(meta, mime, date, data).headers.dom() =~= set![
        "content-type"@,
        "content-length"@,
        "etag"@,
        "last-modified"@,
        "cache-control"@,
    ]);
}

/// The date of a file is the date of the second in which it was last changed, nothing if
/// that is not known.
pub proof fn law_date_is_that_of_the_last_change(meta: FileMeta)
    ensures
        meta.modified matches Some(secs) ==> meta.date() == crate::dates::date_text(secs as u64),
        meta.modified is None ==> meta.date().len() == 0,
{
    reveal_strlit("");
}

/// The reply to a HEAD request states the length of the file and its type and tag, and
/// carries nothing.
pub proof fn law_head_states_the_length(meta: FileMeta, mime: Seq<char>)
    requires
        visible(mime),
    ensures
        head_reply(meta, mime).status == 200,
        head_reply(meta, mime).body.len() == 0,
        text_field(head_reply(meta, mime).headers, "content-length"@) matches Some(n)
            && digits_value(n) == meta.len && (forall|i: int|
            0 <= i < n.len() ==> is_digit(#[trigger] n[i])),
        text_field(head_reply(meta, mime).headers, "content-type"@) == Some(mime),
        text_field(head_reply(meta, mime).headers, "etag"@) == Some(meta.spec_etag()),
        head_reply(meta, mime).headers.dom() == set![
            "content-type"@,
            "content-length"@,
            "etag"@,
        ],
{
    lemma_file_names();
    law_decimal_stands_for_its_number(meta.len as nat);
    lemma_decimal_is_visible(meta.len as nat);
    lemma_visible(decimal(meta.len as nat));
    lemma_visible(mime);
    lemma_etag_visible(meta);
    lemma_visible(meta.spec_etag());
    assert(head_reply(meta, mime).headers.dom() =~= set![
        "content-type"@,
        "content-length"@,
        "etag"@,
    ]);
}

/// The tag of a file stands in quotes. Times from the Unix epoch on count in it as they
/// are.
pub proof fn law_tag_stands_in_quotes(meta: FileMeta)
    ensures
        meta.spec_etag().len() >= 5,
        meta.spec_etag()[0] == '"',
        meta.spec_etag().last() == '"',
        meta.modified matches Some(secs) ==> (secs >= 0 ==> meta.spec_mtime() == secs),
        !(meta.modified matches Some(secs) && secs >= 0) ==> meta.spec_mtime() == 0,
{
    reveal_strlit("\"");
    reveal_strlit("-");
    law_decimal_stands_for_its_number(meta.len as nat);
    law_decimal_stands_for_its_number(meta.spec_mtime() as nat);
}

/// A client is told that it has the file exactly if it names the tag of the file, or a
/// date not before the second of the last change. Otherwise a HEAD request gets the head
/// of the reply, and any other the file.
pub proof fn law_files_are_sent_unless_known(
    f: Map<Seq<char>, Seq<Seq<u8>>>,
    method: Method,
    meta: FileMeta,
    mime: Seq<char>,
)
    ensures
        ({
            let tagged = text_field(f, "if-none-match"@) == Some(meta.spec_etag());
            let dated = date_in(text_field(f, "if-modified-since"@)) matches Some(secs)
                && meta.modified matches Some(changed) && changed <= secs;
            match file_step(f, method, meta, mime) {
                FileStepView::Answer(reply) => if tagged || dated {
                    reply == ReplyView::bare(304)
                } else {
                    method == Method::Head && reply == head_reply(meta, mime)
                },
                FileStepView::Read(kind) => !tagged && !dated && method != Method::Head && kind
                    == mime,
            }
        }),
{
}

/// A request without conditions is never told that it has the file.
pub proof fn law_requests_without_conditions_get_the_file(
    f: Map<Seq<char>, Seq<Seq<u8>>>,
    meta: FileMeta,
    mime: Seq<char>,
)
    requires
        !f.contains_key("if-none-match"@),
        !f.contains_key("if-modified-since"@),
    ensures
        file_step(f, Method::Get, meta, mime) == FileStepView::Read(mime),
        file_step(f, Method::Head, meta, mime) == FileStepView::Answer(head_reply(meta, mime)),
{
}

/// GET and HEAD requests look at the file that their URL stands for. Other requests, and
/// those whose URL stands for none, are left to the backends.
pub proof fn law_get_and_head_look_at_their_file(server: StaticView, url_path: Seq<char>)
    ensures
        server.start(url_path, Method::Other) == StepView::Skip,
        server.start(url_path, Method::Get) == server.start(url_path, Method::Head),
        match resolved(server.root, url_path) {
            Some(path) => server.start(url_path, Method::Get) == StepView::Stat(path),
            None => server.start(url_path, Method::Get) == StepView::Skip,
        },
{
}

/// In a directory the index files are looked for one after the other, in the order of
/// the configuration, each in the directory itself, until one is there. Only then is the
/// directory listed, if that is wanted.
pub proof fn law_index_files_are_looked_for_in_order(server: StaticView, dir: Seq<char>, i: int)
    requires
        0 <= i < server.index.len(),
    ensures
        server.stated(dir, Some(true)) == (StepView::Probe {
            dir,
            index: 0,
            path: joined(dir, server.index[0]),
        }),
        server.probed(dir, i, true) == StepView::File(joined(dir, server.index[i])),
        i + 1 < server.index.len() ==> server.probed(dir, i, false) == (StepView::Probe {
            dir,
            index: i + 1,
            path: joined(dir, server.index[i + 1]),
        }),
        i + 1 == server.index.len() && server.autoindex ==> server.probed(dir, i, false)
            == StepView::List(dir),
        i + 1 == server.index.len() && !server.autoindex ==> server.probed(dir, i, false)
            == StepView::Skip,
{
}

/// Where no index files are configured a directory is listed, if that is wanted, or left
/// to the backends.
pub proof fn law_directories_without_index_files(server: StaticView, dir: Seq<char>)
    requires
        server.index.len() == 0,
    ensures
        server.autoindex ==> server.stated(dir, Some(true)) == StepView::List(dir),
        !server.autoindex ==> server.stated(dir, Some(true)) == StepView::Skip,
{
}

/// A listing of entries is that of the first ones and that of the others behind it.
pub proof fn law_listings_are_put_together(
    base: Seq<char>,
    a: Seq<(Seq<char>, bool)>,
    b: Seq<(Seq<char>, bool)>,
)
    ensures
        entry_lines(base, a + b) == entry_lines(base, a) + entry_lines(base, b),
    decreases b.len(),
{
    if b.len() == 0 {
        assert(a + b =~= a);
        assert(entry_lines(base, a) + Seq::empty() =~= entry_lines(base, a));
    } else {
        let c = b.drop_last();
        law_listings_are_put_together(base, a, c);
        assert((a + b).drop_last() =~= a + c);
        assert((a + b).last() == b.last());
        assert(entry_lines(base, a + b) =~= entry_lines(base, a) + entry_lines(base, b));
    }
}

/// The line of an entry shows its name and links to it. A directory is shown and linked
/// with a slash behind its name.
pub proof fn law_entries_are_linked(base: Seq<char>, name: Seq<char>)
    ensures
        entry_lines(base, seq![(name, false)]) == "<a href=\""@ + base + "/"@ + name + "\">"@ + name
            + "</a>"@,
        entry_lines(base, seq![(name, true)]) == entry_lines(base, seq![(name + "/"@, false)]),
{
    reveal_strlit("");
    let none = Seq::<(Seq<char>, bool)>::empty();
    let plain = seq![(name, false)];
    let folder = seq![(name, true)];
    let slashed = seq![(name + "/"@, false)];
    assert(plain.drop_last() =~= none);
    assert(folder.drop_last() =~= none);
    assert(slashed.drop_last() =~= none);
    assert(entry_lines(base, none) =~= Seq::empty());
    assert(entry_lines(base, plain) =~= "<a href=\""@ + base + "/"@ + name + "\">"@ + name
        + "</a>"@);
    assert(entry_lines(base, folder) =~= entry_lines(base, slashed));
}

proof fn lemma_one_line(base: Seq<char>, entry: (Seq<char>, bool))
    ensures
        entry_lines(base, seq![entry]) == entry_line(base, entry),
{
    let none = Seq::<(Seq<char>, bool)>::empty();
    assert(seq![entry].drop_last() =~= none);
    assert(entry_lines(base, none) =~= Seq::empty());
    assert(seq![entry].last() == entry);
    assert(entry_lines(base, seq![entry]) =~= entry_line(base, entry));
}

proof fn lemma_line_occurs(base: Seq<char>, entries: Seq<(Seq<char>, bool)>, i: int)
    requires
        0 <= i < entries.len(),
    ensures
        occurs(entry_lines(base, entries), entry_line(base, entries[i])),
{
    let a = entries.take(i);
    let b = entries.skip(i + 1);
    let one = seq![entries[i]];
    assert(entries =~= a + one + b);
    law_listings_are_put_together(base, a + one, b);
    law_listings_are_put_together(base, a, one);
    lemma_one_line(base, entries[i]);
    law_parts_occur(entry_lines(base, a), entry_line(base, entries[i]), entry_lines(base, b));
}

/// Every entry of a directory stands in its listing, under the path of the directory
/// without the slashes at its end, and so does the way up, except at the top. Nothing else
/// stands between the heading and the end of the page, and the entries are in the order
/// of their names.
pub proof fn law_every_entry_is_listed(
    base: Seq<char>,
    slashes: nat,
    entries: Seq<(Seq<char>, bool)>,
    i: int,
)
    requires
        base.len() == 0 || base.last() != '/',
        0 <= i < entries.len(),
    ensures
        ({
            let page = listing_page(base + repeated('/', slashes), entries);
            let up = if base.len() > 0 {
                "<a href=\"../\">../</a>"@
            } else {
                Seq::empty()
            };
            let middle = "</h1><hr>"@ + up + entry_lines(base, by_name(entries))
                + "<hr></body></html>"@;
            &&& occurs(page, entry_lines(base, seq![entries[i]]))
            &&& middle.is_suffix_of(page)
            &&& occurs(page, "<title>Index of "@ + base + "</title>"@)
            &&& occurs(page, "<h1>Index of "@ + base + "</h1>"@)
            &&& listing_page(base + repeated('/', slashes), entries) == listing_page(base, entries)
        }),
{
    law_ends_are_trimmed(base, '/', slashes);
    law_ends_are_trimmed(base, '/', 0);
    assert(base + repeated('/', 0) =~= base);
    let sorted = by_name(entries);
    law_listing_is_sorted(entries);
    broadcast use vstd::seq_lib::group_to_multiset_ensures;

    assert(entries.contains(entries[i]));
    assert(sorted.to_multiset().count(entries[i]) > 0);
    assert(sorted.contains(entries[i]));
    let k = choose|k: int| 0 <= k < sorted.len() && sorted[k] == entries[i];
    lemma_line_occurs(base, sorted, k);
    lemma_one_line(base, entries[i]);
    lemma_listing(base, entry_lines(base, sorted), entry_line(base, entries[i]));
}

proof fn lemma_listing(base: Seq<char>, lines: Seq<char>, line: Seq<char>)
    requires
        occurs(lines, line),
    ensures
        ({
            let up = if base.len() > 0 {
                "<a href=\"../\">../</a>"@
            } else {
                Seq::empty()
            };
            let page = "<!DOCTYPE html><html><head><title>Index of "@ + base
                + "</title><style>body{font-family:monospace;padding:1em}a{display:block;margin:.2em 0}</style></head><body><h1>Index of "@
                + base + "</h1><hr>"@ + up + lines + "<hr></body></html>"@;
            let middle = "</h1><hr>"@ + up + lines + "<hr></body></html>"@;
            &&& occurs(page, line)
            &&& middle.is_suffix_of(page)
            &&& occurs(page, "<title>Index of "@ + base + "</title>"@)
            &&& occurs(page, "<h1>Index of "@ + base + "</h1>"@)
        }),
{
    let up = if base.len() > 0 {
        "<a href=\"../\">../</a>"@
    } else {
        Seq::empty()
    };
    let p1 = "<!DOCTYPE html><html><head><title>Index of "@;
    let p2 = "</title><style>body{font-family:monospace;padding:1em}a{display:block;margin:.2em 0}</style></head><body><h1>Index of "@;
    let p3 = "</h1><hr>"@;
    let p4 = "<hr></body></html>"@;
    let page = p1 + base + p2 + base + p3 + up + lines + p4;
    let middle = p3 + up + lines + p4;
    let (a, b) = crate::text_laws::law_occurrence_is_a_part(lines, line);
    assert(page =~= (p1 + base + p2 + base + p3 + up + a) + line + (b + p4));
    law_parts_occur(p1 + base + p2 + base + p3 + up + a, line, b + p4);
    assert(page.skip(page.len() - middle.len()) =~= middle);
    lemma_listing_pieces();
    let c = p2 + base + middle;
    assert(c.take("</title>"@.len() as int) =~= p2.take("</title>"@.len() as int));
    lemma_straddle(p1, "<title>Index of "@, base, "</title>"@, c);
    assert(page =~= p1 + base + c);
    let d = p1 + base + p2;
    assert(d.skip(d.len() - "<h1>Index of "@.len()) =~= p2.skip(p2.len() - "<h1>Index of "@.len()));
    assert(middle.take("</h1>"@.len() as int) =~= p3.take("</h1>"@.len() as int));
    lemma_straddle(d, "<h1>Index of "@, base, "</h1>"@, middle);
    assert(page =~= d + base + middle);
}

/// The pieces of a listing that stand around what it shows.
proof fn lemma_listing_pieces()
    ensures
        ({
            let p1 = "<!DOCTYPE html><html><head><title>Index of "@;
            let p2 = "</title><style>body{font-family:monospace;padding:1em}a{display:block;margin:.2em 0}</style></head><body><h1>Index of "@;
            &&& "<title>Index of "@.is_suffix_of(p1)
            &&& "</title>"@.is_prefix_of(p2)
            &&& "<h1>Index of "@.is_suffix_of(p2)
            &&& "</h1>"@.is_prefix_of("</h1><hr>"@)
        }),
{
    reveal_strlit("<!DOCTYPE html><html><head><title>Index of ");
    reveal_strlit("<title>Index of ");
    reveal_strlit("</title>");
    reveal_strlit("<h1>Index of ");
    reveal_strlit("</h1>");
    reveal_strlit("</h1><hr>");
    reveal_strlit(
        "</title><style>body{font-family:monospace;padding:1em}a{display:block;margin:.2em 0}</style></head><body><h1>Index of ",
    );
    let p1 = "<!DOCTYPE html><html><head><title>Index of "@;
    let p2 = "</title><style>body{font-family:monospace;padding:1em}a{display:block;margin:.2em 0}</style></head><body><h1>Index of "@;
    assert(p1.skip(p1.len() - 16) =~= "<title>Index of "@);
    assert(p2.take(8) =~= "</title>"@);
    assert(p2.skip(p2.len() - 13) =~= "<h1>Index of "@);
    assert("</h1><hr>"@.take(5) =~= "</h1>"@);
}

/// A listing is an HTML page that is sent whole.
pub proof fn law_listings_are_sent_whole(url_path: Seq<char>, entries: Seq<(Seq<char>, bool)>)
    ensures
        listing_reply(url_path, entries).status == 200,
        decode_utf8(listing_reply(url_path, entries).body) == listing_page(url_path, entries),
        listing_reply(url_path, entries).headers.dom() == set!["content-type"@],
        listing_reply(url_path, entries).headers["content-type"@] == seq![
            encode_utf8("text/html; charset=utf-8"@),
        ],
{
    encode_utf8_decode_utf8(listing_page(url_path, entries));
    assert(listing_reply(url_path, entries).headers.dom() =~= set!["content-type"@]);
}

/// All entries of a directory are taken, in their order.
pub proof fn law_entries_are_taken_whole(entries: Seq<Entry>, i: int)
    requires
        0 <= i < entries.len(),
    ensures
        entries_view(entries).len() == entries.len(),
        entries_view(entries)[i] == (entries[i].0@, entries[i].1),
{
}

/// A file has a date in a header field exactly if its time is not known or lies between
/// the Unix epoch and the year 10000, which begins 253402300800 seconds behind it.
pub proof fn law_times_before_the_year_10000_have_dates(meta: FileMeta)
    ensures
        meta.datable() <==> match meta.modified {
            Some(secs) => 0 <= secs < 253402300800,
            None => true,
        },
{
}

}
