//! Static file server.
//!
//! Serves files from a local directory:
//!   - no path leads out of the directory
//!   - index files are looked for in directories
//!   - `ETag` with `If-None-Match`, and `Last-Modified` with `If-Modified-Since`
//!   - MIME types by the names of the files
//!   - optional directory listings
//!   - HEAD requests
//!
//! The server decides; looking at the disk is left to the caller, who tells it
//! what is there.
use crate::dates::{date_text, date_value, read_date, write_date, END_OF_DATES};
use crate::headers::{
    field_text, fields, has_room, lemma_read_names, lemma_visible, lemma_written_names, text_field,
    valid_value, visible, visible_char,
};
use crate::paths::{
    join, joined, law_resolved_lies_below_root, lies_below, resolve, resolved,
};
use crate::reply::{lemma_plain_values, Reply, ReplyView};
use crate::request::{chars_in, Method};
use crate::text::{
    decimal, decimal_text, digit_char, lemma_bytes_le_total, lemma_bytes_le_transitive,
    lemma_decimal_differs, lemma_decimal_digits, not_after,
    same_text, text_le, trim_end, trimmed_end,
};
use hyper::HeaderMap;
use vstd::prelude::*;
use vstd::string::*;
use vstd::utf8::*;

verus! {

/// The directory that is served, and how.
#[verifier::ext_equal]
pub struct StaticView {
    /// The directory
    pub root: Seq<char>,
    /// The files to look for in a directory
    pub index: Seq<Seq<char>>,
    /// Whether directories are listed
    pub autoindex: bool,
}

/// What to do next for a request.
#[derive(Debug)]
pub enum StaticStep {
    /// Leave the request to the backends.
    Skip,
    /// See what the path is: tell [`StaticFileServer::on_stat`].
    Stat(String),
    /// See whether the path exists, that of index file number `index` of the
    /// directory: tell [`StaticFileServer::on_probe`].
    Probe { dir: String, index: usize, path: String },
    /// Serve the file: see [`StaticFileServer::serve_file`].
    File(String),
    /// List the directory: see [`directory_listing`].
    List(String),
}

/// What to do next for a request.
#[verifier::ext_equal]
pub enum StepView {
    Skip,
    Stat(Seq<char>),
    Probe { dir: Seq<char>, index: int, path: Seq<char> },
    File(Seq<char>),
    List(Seq<char>),
}

impl StaticStep {
    /// What to do next.
    pub open spec fn view(&self) -> StepView {
        match self {
            StaticStep::Skip => StepView::Skip,
            StaticStep::Stat(path) => StepView::Stat(path@),
            StaticStep::Probe { dir, index, path } => StepView::Probe {
                dir: dir@,
                index: *index as int,
                path: path@,
            },
            StaticStep::File(path) => StepView::File(path@),
            StaticStep::List(dir) => StepView::List(dir@),
        }
    }
}

/// What is known of a file.
#[derive(Debug, Clone, Copy, PartialEq, Eq, Structural)]
pub struct FileMeta {
    /// Its length in bytes
    pub len: u64,
    /// When it was last changed, in whole seconds since the Unix epoch, rounded down
    pub modified: Option<i64>,
}

impl FileMeta {
    /// The whole seconds since the Unix epoch at which the file was last changed,
    /// 0 if that is not known or was before the epoch.
    pub open spec fn spec_mtime(self) -> u64 {
        match self.modified {
            Some(secs) => if secs >= 0 {
                secs as u64
            } else {
                0
            },
            None => 0,
        }
    }

    /// The whole seconds since the Unix epoch at which the file was last changed.
    pub fn mtime(&self) -> (r: u64)
        ensures
            r == self.spec_mtime(),
    {
        match self.modified {
            Some(secs) => if secs >= 0 {
                secs as u64
            } else {
                0
            },
            None => 0,
        }
    }

    /// The entity tag of the file.
    pub open spec fn spec_etag(self) -> Seq<char> {
        "\""@ + decimal(self.len as nat) + "-"@ + decimal(self.spec_mtime() as nat) + "\""@
    }

    /// The entity tag of the file: its length and the time of its last change.
    pub fn etag(&self) -> (r: String)
        ensures
            r@ == self.spec_etag(),
    {
        let mut r = "\"".to_string();
        r.append(decimal_text(self.len).as_str());
        r.append("-");
        r.append(decimal_text(self.mtime()).as_str());
        r.append("\"");
        r
    }

    /// Whether the file was not changed after the second `secs`.
    pub open spec fn unchanged_since(self, secs: u64) -> bool {
        match self.modified {
            Some(changed) => changed <= secs,
            None => false,
        }
    }

    /// Whether a client has the file already that has seen it with the tag `tag`, or
    /// has not seen it since `since`.
    pub open spec fn spec_known(self, tag: Option<Seq<char>>, since: Option<u64>) -> bool {
        tag == Some(self.spec_etag()) || (since matches Some(secs) && self.unchanged_since(secs))
    }

    /// Whether a client has the file already that has seen it with the tag `tag`, or
    /// has not seen it since `since`.
    pub fn is_known(&self, tag: &Option<String>, since: Option<u64>) -> (r: bool)
        ensures
            r == self.spec_known(chars_in(*tag), since),
    {
        if let Some(t) = tag {
            if same_text(t.as_str(), self.etag().as_str()) {
                return true;
            }
        }
        match (since, self.modified) {
            (Some(secs), Some(changed)) => changed < 0 || changed as u64 <= secs,
            _ => false,
        }
    }

    /// Whether the time of the last change has a date in a header field.
    pub open spec fn datable(self) -> bool {
        self.modified matches Some(secs) ==> 0 <= secs < END_OF_DATES
    }

    /// Whether the time of the last change has a date in a header field.
    pub fn is_datable(&self) -> (r: bool)
        ensures
            r == self.datable(),
    {
        match self.modified {
            Some(secs) => secs >= 0 && (secs as u64) < END_OF_DATES,
            None => true,
        }
    }

    /// The date of the last change, nothing if it is not known.
    pub open spec fn date(self) -> Seq<char> {
        match self.modified {
            Some(secs) => date_text(secs as u64),
            None => ""@,
        }
    }
}

/// The seconds that a date reads as, if there is one that can be read.
pub open spec fn date_in(s: Option<Seq<char>>) -> Option<u64> {
    match s {
        Some(text) => date_value(text),
        None => None,
    }
}

/// Whether a request that carries the fields `f` has the file already.
pub open spec fn not_modified(f: Map<Seq<char>, Seq<Seq<u8>>>, meta: FileMeta) -> bool {
    meta.spec_known(
        text_field(f, "if-none-match"@),
        date_in(text_field(f, "if-modified-since"@)),
    )
}

/// The MIME type of a file as `mime_guess` tells it from its path.
pub uninterp spec fn mime_type(path: Seq<char>) -> Seq<char>;

/// `mime_guess::from_path` with `first_or_octet_stream` tells the MIME type of a
/// file from its path, named [`mime_type`]. The text of a MIME type is visible.
#[verifier::external_body]
fn guess_mime(path: &str) -> (r: String)
    ensures
        r@ == mime_type(path@),
        visible(r@),
{
    mime_guess::from_path(path).first_or_octet_stream().to_string()
}

/// What to do for a file.
#[derive(Debug)]
pub enum FileStep {
    /// Send this reply.
    Answer(Reply),
    /// Read the file, and send what [`file_reply`] makes of it. Leave the request
    /// to the backends if it cannot be read.
    Read(String),
}

/// What to do for a file.
#[verifier::ext_equal]
pub enum FileStepView {
    Answer(ReplyView),
    /// With the MIME type of the file
    Read(Seq<char>),
}

impl FileStep {
    /// What to do.
    pub open spec fn view(&self) -> FileStepView {
        match self {
            FileStep::Answer(r) => FileStepView::Answer(r@),
            FileStep::Read(mime) => FileStepView::Read(mime@),
        }
    }
}

/// The reply to a HEAD request for a file.
pub open spec fn head_reply(meta: FileMeta, mime: Seq<char>) -> ReplyView {
    ReplyView::bare(200).with("content-type"@, mime).with(
        "content-length"@,
        decimal(meta.len as nat),
    ).with("etag"@, meta.spec_etag())
}

/// The reply to a GET request for a file.
pub open spec fn get_reply(meta: FileMeta, mime: Seq<char>, data: Seq<u8>) -> ReplyView {
    dated_reply(meta, mime, meta.date(), data)
}

/// The reply to a GET request for a file that was last changed on `date`.
pub open spec fn dated_reply(
    meta: FileMeta,
    mime: Seq<char>,
    date: Seq<char>,
    data: Seq<u8>,
) -> ReplyView {
    ReplyView::bare(200).with("content-type"@, mime).with(
        "content-length"@,
        decimal(data.len()),
    ).with("etag"@, meta.spec_etag()).with("last-modified"@, date).with(
        "cache-control"@,
        "public, max-age=3600"@,
    ).carrying(data)
}

/// What to do for a file whose MIME type is `mime`.
pub open spec fn file_step(
    f: Map<Seq<char>, Seq<Seq<u8>>>,
    method: Method,
    meta: FileMeta,
    mime: Seq<char>,
) -> FileStepView {
    if not_modified(f, meta) {
        FileStepView::Answer(ReplyView::bare(304))
    } else if method == Method::Head {
        FileStepView::Answer(head_reply(meta, mime))
    } else {
        FileStepView::Read(mime)
    }
}

impl StaticView {
    /// What to do about the index files of a directory from number `i` on.
    pub open spec fn look_from(self, dir: Seq<char>, i: int) -> StepView {
        if i < self.index.len() {
            StepView::Probe { dir, index: i, path: joined(dir, self.index[i]) }
        } else if self.autoindex {
            StepView::List(dir)
        } else {
            StepView::Skip
        }
    }

    /// What to do first for a request.
    pub open spec fn start(self, url_path: Seq<char>, method: Method) -> StepView {
        if method != Method::Get && method != Method::Head {
            StepView::Skip
        } else {
            match resolved(self.root, url_path) {
                Some(path) => StepView::Stat(path),
                None => StepView::Skip,
            }
        }
    }

    /// What to do about a path that is a directory (`Some(true)`), something else,
    /// or not there.
    pub open spec fn stated(self, path: Seq<char>, is_dir: Option<bool>) -> StepView {
        match is_dir {
            None => StepView::Skip,
            Some(false) => StepView::File(path),
            Some(true) => self.look_from(path, 0),
        }
    }

    /// What to do once it is known whether index file number `i` of a directory
    /// exists.
    pub open spec fn probed(self, dir: Seq<char>, i: int, exists: bool) -> StepView {
        if exists {
            StepView::File(joined(dir, self.index[i]))
        } else {
            self.look_from(dir, i + 1)
        }
    }
}

/// Serves the files of a directory.
#[derive(Debug)]
pub struct StaticFileServer {
    root: String,
    index_files: Vec<String>,
    autoindex: bool,
}

impl StaticFileServer {
    /// The directory that is served, and how.
    pub closed spec fn view(&self) -> StaticView {
        StaticView {
            root: self.root@,
            index: Seq::new(self.index_files@.len(), |i: int| self.index_files@[i]@),
            autoindex: self.autoindex,
        }
    }

    /// A server for the files below `root`.
    pub fn new(root: String, index_files: Vec<String>, autoindex: bool) -> (r: Self)
        ensures
            r@ == (StaticView {
                root: root@,
                index: Seq::new(index_files@.len(), |i: int| index_files@[i]@),
                autoindex,
            }),
    {
        StaticFileServer { root, index_files, autoindex }
    }

    /// The file that the path of a URL stands for. None if the path would leave
    /// the root directory.
    pub fn safe_path(&self, url_path: &str) -> (r: Option<String>)
        ensures
            r is Some <==> resolved(self@.root, url_path@) is Some,
            r matches Some(path) ==> resolved(self@.root, url_path@) == Some(path@),
    {
        resolve(self.root.as_str(), url_path)
    }

    /// What to do first for a request. Requests with other methods than GET and
    /// HEAD, and those that stand for no file, are left to the backends.
    pub fn serve(&self, url_path: &str, method: Method) -> (r: StaticStep)
        ensures
            r@ == self@.start(url_path@, method),
    {
        if method != Method::Get && method != Method::Head {
            return StaticStep::Skip;
        }
        match self.safe_path(url_path) {
            Some(path) => StaticStep::Stat(path),
            None => StaticStep::Skip,
        }
    }

    /// What to do about the index files of a directory from number `i` on.
    fn look(&self, dir: String, i: usize) -> (r: StaticStep)
        ensures
            r@ == self@.look_from(dir@, i as int),
    {
        if i < self.index_files.len() {
            assert(self@.index[i as int] == self.index_files@[i as int]@);
            let path = join(dir.as_str(), self.index_files[i].as_str());
            StaticStep::Probe { dir, index: i, path }
        } else if self.autoindex {
            StaticStep::List(dir)
        } else {
            StaticStep::Skip
        }
    }

    /// What to do about a path that is a directory (`Some(true)`), something else,
    /// or not there.
    pub fn on_stat(&self, path: String, is_dir: Option<bool>) -> (r: StaticStep)
        ensures
            r@ == self@.stated(path@, is_dir),
    {
        match is_dir {
            None => StaticStep::Skip,
            Some(false) => StaticStep::File(path),
            Some(true) => self.look(path, 0),
        }
    }

    /// What to do once it is known whether index file number `index` of a
    /// directory exists.
    pub fn on_probe(&self, dir: String, index: usize, exists: bool) -> (r: StaticStep)
        requires
            index < self@.index.len(),
        ensures
            r@ == self@.probed(dir@, index as int, exists),
    {
        if exists {
            assert(self@.index[index as int] == self.index_files@[index as int]@);
            StaticStep::File(join(dir.as_str(), self.index_files[index].as_str()))
        } else {
            let count = self.index_files.len();
            assert(index < count);
            self.look(dir, index + 1)
        }
    }

    /// What to do for a file: a client that has it already is told so, a HEAD
    /// request is answered without reading it.
    pub fn serve_file(&self, path: &str, method: Method, headers: &HeaderMap, meta: &FileMeta)
        -> (r: FileStep)
        ensures
            r@ == file_step(fields(*headers), method, *meta, mime_type(path@)),
            r matches FileStep::Read(mime) ==> valid_value(mime@),
    {
        let mime = guess_mime(path);
        proof {
            lemma_visible(mime@);
        }
        decide_file(mime, method, headers, meta)
    }
}

/// A decimal number is visible.
proof fn lemma_decimal_visible(n: nat)
    ensures
        visible(decimal(n)),
    decreases n,
{
    assert(visible_char(digit_char(n % 10)));
    if n >= 10 {
        lemma_decimal_visible(n / 10);
    }
}

/// Two visible texts make a visible text.
proof fn lemma_visible_sum(a: Seq<char>, b: Seq<char>)
    requires
        visible(a),
        visible(b),
    ensures
        visible(a + b),
{
    assert forall|i: int| 0 <= i < (a + b).len() implies visible_char(#[trigger] (a + b)[i]) by {
        if i < a.len() {
            assert((a + b)[i] == a[i]);
        } else {
            assert((a + b)[i] == b[i - a.len()]);
        }
    }
}

/// An entity tag is visible.
pub proof fn lemma_etag_visible(meta: FileMeta)
    ensures
        visible(meta.spec_etag()),
{
    reveal_strlit("\"");
    reveal_strlit("-");
    assert(visible("\""@));
    assert(visible("-"@));
    lemma_decimal_visible(meta.len as nat);
    lemma_decimal_visible(meta.spec_mtime() as nat);
    lemma_visible_sum("\""@, decimal(meta.len as nat));
    lemma_visible_sum("\""@ + decimal(meta.len as nat), "-"@);
    lemma_visible_sum(
        "\""@ + decimal(meta.len as nat) + "-"@,
        decimal(meta.spec_mtime() as nat),
    );
    lemma_visible_sum(
        "\""@ + decimal(meta.len as nat) + "-"@ + decimal(meta.spec_mtime() as nat),
        "\""@,
    );
}

/// Whether a request has the file already.
fn has_file(headers: &HeaderMap, meta: &FileMeta) -> (r: bool)
    ensures
        r == not_modified(fields(*headers), *meta),
{
    proof {
        lemma_read_names();
    }
    let tag = field_text(headers, "if-none-match");
    let since: Option<u64> = match field_text(headers, "if-modified-since") {
        Some(date) => read_date(date.as_str()),
        None => None,
    };
    meta.is_known(&tag, since)
}

/// What to do for a file whose MIME type is `mime`.
pub fn decide_file(mime: String, method: Method, headers: &HeaderMap, meta: &FileMeta) -> (r:
    FileStep)
    requires
        valid_value(mime@),
    ensures
        r@ == file_step(fields(*headers), method, *meta, mime@),
{
    if has_file(headers, meta) {
        return FileStep::Answer(Reply::bare(304));
    }
    if method == Method::Head {
        let etag = meta.etag();
        proof {
            lemma_written_names();
            lemma_decimal_visible(meta.len as nat);
            lemma_visible(decimal(meta.len as nat));
            lemma_etag_visible(*meta);
            lemma_visible(etag@);
        }
        let mut r = Reply::bare(200);
        r.set("content-type", mime.as_str());
        assert(has_room(r@.headers, 99));
        r.set("content-length", decimal_text(meta.len).as_str());
        assert(has_room(r@.headers, 98));
        r.set("etag", etag.as_str());
        return FileStep::Answer(r);
    }
    FileStep::Read(mime)
}

/// The reply to a GET request for a file that holds `data`.
pub fn file_reply(mime: &str, meta: &FileMeta, data: Vec<u8>) -> (r: Reply)
    requires
        valid_value(mime@),
        meta.datable(),
    ensures
        r@ == get_reply(*meta, mime@, data@),
        meta.modified is Some ==> forall|f: Map<Seq<char>, Seq<Seq<u8>>>| #[trigger]
            echoes(f, "if-modified-since"@, r@.headers, "last-modified"@) ==> not_modified(
                f,
                *meta,
            ),
        meta.modified matches Some(then) ==> forall|
            f: Map<Seq<char>, Seq<Seq<u8>>>,
            newer: FileMeta,
        |
            #![trigger not_modified(f, newer)]
            echoes(f, "if-modified-since"@, r@.headers, "last-modified"@) && text_field(
                f,
                "if-none-match"@,
            ) != Some(newer.spec_etag()) && (newer.modified matches Some(secs) && secs > then)
                ==> !not_modified(f, newer),
{
    let date = match meta.modified {
        Some(secs) => write_date(secs as u64),
        None => "".to_string(),
    };
    proof {
        reveal_strlit("");
        lemma_visible(date@);
        lemma_get_fields(*meta, mime@, data@);
        assert(text_field(get_reply(*meta, mime@, data@).headers, "last-modified"@) == Some(
            date@,
        ));
    }
    reply_with_date(mime, meta, date.as_str(), data)
}

/// The reply to a GET request for a file that holds `data` and was last changed on
/// `date`.
pub fn reply_with_date(mime: &str, meta: &FileMeta, date: &str, data: Vec<u8>) -> (r: Reply)
    requires
        valid_value(mime@),
        valid_value(date@),
    ensures
        r@ == dated_reply(*meta, mime@, date@, data@),
{
    let etag = meta.etag();
    proof {
        lemma_written_names();
        lemma_plain_values();
        lemma_decimal_visible(data@.len());
        lemma_visible(decimal(data@.len()));
        lemma_etag_visible(*meta);
        lemma_visible(etag@);
    }
    let mut r = Reply::bare(200);
    r.set("content-type", mime);
    assert(has_room(r@.headers, 99));
    r.set("content-length", decimal_text(data.len() as u64).as_str());
    assert(has_room(r@.headers, 98));
    r.set("etag", etag.as_str());
    assert(has_room(r@.headers, 97));
    r.set("last-modified", date);
    assert(has_room(r@.headers, 96));
    r.set("cache-control", "public, max-age=3600");
    r.body = data;
    r
}

/// Whether the field `name` of `f` carries what the field `source` of `sent` did.
pub open spec fn echoes(
    f: Map<Seq<char>, Seq<Seq<u8>>>,
    name: Seq<char>,
    sent: Map<Seq<char>, Seq<Seq<u8>>>,
    source: Seq<char>,
) -> bool {
    &&& f.contains_key(name)
    &&& sent.contains_key(source)
    &&& f[name] == sent[source]
}

/// The fields of the reply to a GET request.
proof fn lemma_get_fields(meta: FileMeta, mime: Seq<char>, data: Seq<u8>)
    ensures
        get_reply(meta, mime, data).headers.contains_key("content-type"@),
        get_reply(meta, mime, data).headers["content-type"@] == seq![encode_utf8(mime)],
        get_reply(meta, mime, data).headers.contains_key("content-length"@),
        get_reply(meta, mime, data).headers["content-length"@] == seq![
            encode_utf8(decimal(data.len())),
        ],
        get_reply(meta, mime, data).headers.contains_key("etag"@),
        get_reply(meta, mime, data).headers["etag"@] == seq![encode_utf8(meta.spec_etag())],
        get_reply(meta, mime, data).headers.contains_key("last-modified"@),
        get_reply(meta, mime, data).headers["last-modified"@] == seq![encode_utf8(meta.date())],
{
    reveal_strlit("content-type");
    reveal_strlit("content-length");
    reveal_strlit("etag");
    reveal_strlit("last-modified");
    reveal_strlit("cache-control");
    assert("content-type"@.len() == 12);
    assert("content-length"@.len() == 14);
    assert("etag"@.len() == 4);
    assert("last-modified"@.len() == 13);
    assert("cache-control"@.len() == 13);
    assert("cache-control"@[0] == 'c');
    assert("last-modified"@[0] == 'l');
}

/// The fields of the reply to a HEAD request.
proof fn lemma_head_fields(meta: FileMeta, mime: Seq<char>)
    ensures
        head_reply(meta, mime).headers.contains_key("content-type"@),
        head_reply(meta, mime).headers["content-type"@] == seq![encode_utf8(mime)],
        head_reply(meta, mime).headers.contains_key("content-length"@),
        head_reply(meta, mime).headers["content-length"@] == seq![
            encode_utf8(decimal(meta.len as nat)),
        ],
        head_reply(meta, mime).headers.contains_key("etag"@),
        head_reply(meta, mime).headers["etag"@] == seq![encode_utf8(meta.spec_etag())],
{
    reveal_strlit("content-type");
    reveal_strlit("content-length");
    reveal_strlit("etag");
    assert("content-type"@.len() == 12);
    assert("content-length"@.len() == 14);
    assert("etag"@.len() == 4);
}

/// A client that sends the `ETag` of a file back in `If-None-Match` is told that
/// it has the file already, as long as the file stays as it was.
pub proof fn law_etag_saves_a_transfer(
    meta: FileMeta,
    mime: Seq<char>,
    data: Seq<u8>,
    f: Map<Seq<char>, Seq<Seq<u8>>>,
    method: Method,
)
    requires
        echoes(f, "if-none-match"@, get_reply(meta, mime, data).headers, "etag"@) || echoes(
            f,
            "if-none-match"@,
            head_reply(meta, mime).headers,
            "etag"@,
        ),
    ensures
        file_step(f, method, meta, mime) == FileStepView::Answer(ReplyView::bare(304)),
{
    lemma_get_fields(meta, mime, data);
    lemma_head_fields(meta, mime);
    lemma_etag_visible(meta);
    lemma_visible(meta.spec_etag());
}

/// Files have the same tag only if they have the same length and were last changed in
/// the same second. Times before the Unix epoch, and times that are not known, count as
/// the epoch.
pub proof fn law_tags_tell_versions_apart(a: FileMeta, b: FileMeta)
    ensures
        a.spec_etag() == b.spec_etag() <==> a.len == b.len && a.spec_mtime() == b.spec_mtime(),
{
    if a.spec_etag() == b.spec_etag() {
        let (al, am) = (decimal(a.len as nat), decimal(a.spec_mtime() as nat));
        let (bl, bm) = (decimal(b.len as nat), decimal(b.spec_mtime() as nat));
        let (s, t) = (a.spec_etag(), b.spec_etag());
        reveal_strlit("\"");
        reveal_strlit("-");
        lemma_decimal_digits(a.len as nat);
        lemma_decimal_digits(b.len as nat);
        assert(s[1int + al.len()] == '-');
        assert(t[1int + bl.len()] == '-');
        if al.len() < bl.len() {
            assert(t[1int + al.len()] == bl[al.len() as int]);
        } else if bl.len() < al.len() {
            assert(s[1int + bl.len()] == al[bl.len() as int]);
        }
        assert(al =~= bl) by {
            assert forall|i: int| 0 <= i < al.len() implies al[i] == bl[i] by {
                assert(s[1 + i] == al[i]);
                assert(t[1 + i] == bl[i]);
            }
        }
        assert(s.len() == 3 + al.len() + am.len());
        assert(t.len() == 3 + bl.len() + bm.len());
        assert(am =~= bm) by {
            assert forall|i: int| 0 <= i < am.len() implies am[i] == bm[i] by {
                assert(s[2 + al.len() + i] == am[i]);
                assert(t[2 + bl.len() + i] == bm[i]);
            }
        }
        lemma_decimal_differs(a.len as nat, b.len as nat);
        lemma_decimal_differs(a.spec_mtime() as nat, b.spec_mtime() as nat);
    }
}

/// A client that sends the `ETag` of a file back is sent the file again once its length
/// or the second of its last change is another, unless the client also names a date
/// since which the file was not changed.
pub proof fn law_changed_file_is_sent_again(
    meta: FileMeta,
    changed: FileMeta,
    mime: Seq<char>,
    data: Seq<u8>,
    f: Map<Seq<char>, Seq<Seq<u8>>>,
    method: Method,
)
    requires
        echoes(f, "if-none-match"@, get_reply(meta, mime, data).headers, "etag"@) || echoes(
            f,
            "if-none-match"@,
            head_reply(meta, mime).headers,
            "etag"@,
        ),
        changed.len != meta.len || changed.spec_mtime() != meta.spec_mtime(),
        date_in(text_field(f, "if-modified-since"@)) matches Some(secs)
            ==> !changed.unchanged_since(secs),
    ensures
        file_step(f, method, changed, mime) == if method == Method::Head {
            FileStepView::Answer(head_reply(changed, mime))
        } else {
            FileStepView::Read(mime)
        },
{
    lemma_get_fields(meta, mime, data);
    lemma_head_fields(meta, mime);
    lemma_etag_visible(meta);
    lemma_visible(meta.spec_etag());
    law_tags_tell_versions_apart(meta, changed);
}

/// The reply to a HEAD request has the type, the length and the tag that the
/// reply to a GET request has, and no body.
pub proof fn law_head_agrees_with_get(meta: FileMeta, mime: Seq<char>, data: Seq<u8>)
    requires
        data.len() == meta.len,
    ensures
        head_reply(meta, mime).status == get_reply(meta, mime, data).status,
        head_reply(meta, mime).headers["content-type"@] == get_reply(
            meta,
            mime,
            data,
        ).headers["content-type"@],
        head_reply(meta, mime).headers["content-length"@] == get_reply(
            meta,
            mime,
            data,
        ).headers["content-length"@],
        head_reply(meta, mime).headers["etag"@] == get_reply(meta, mime, data).headers["etag"@],
        head_reply(meta, mime).body.len() == 0,
{
    lemma_get_fields(meta, mime, data);
    lemma_head_fields(meta, mime);
}

/// No step leads out of the root: what is looked at first lies below it.
pub proof fn law_only_files_below_root_are_looked_at(
    server: StaticView,
    url_path: Seq<char>,
    method: Method,
)
    ensures
        match server.start(url_path, method) {
            StepView::Stat(path) => lies_below(server.root, path),
            other => other == StepView::Skip,
        },
{
    law_resolved_lies_below_root(server.root, url_path);
}

/// A path that is not there is left to the backends, and one that is no directory is
/// served.
pub proof fn law_missing_files_are_left_to_the_backends(server: StaticView, path: Seq<char>)
    ensures
        server.stated(path, None) == StepView::Skip,
        server.stated(path, Some(false)) == StepView::File(path),
{
}

/// Where the search for an index file ends, from number `i` on, when `present`
/// tells which paths exist.
pub open spec fn searched(
    server: StaticView,
    dir: Seq<char>,
    i: int,
    present: spec_fn(Seq<char>) -> bool,
) -> StepView
    decreases server.index.len() - i,
{
    match server.look_from(dir, i) {
        StepView::Probe { dir: d, index, path } => if present(path) {
            server.probed(d, index, true)
        } else if 0 <= i {
            searched(server, dir, i + 1, present)
        } else {
            StepView::Skip
        },
        other => other,
    }
}

/// In a directory the first index file that exists is served. Without one the
/// directory is listed, if that is wanted, or else left to the backends.
pub proof fn law_first_index_file_is_served(
    server: StaticView,
    dir: Seq<char>,
    present: spec_fn(Seq<char>) -> bool,
    k: int,
)
    ensures
        0 <= k < server.index.len() && present(joined(dir, server.index[k])) && (forall|i: int|
            0 <= i < k ==> !present(joined(dir, #[trigger] server.index[i]))) ==> searched(
            server,
            dir,
            0,
            present,
        ) == StepView::File(joined(dir, server.index[k])),
        (forall|i: int|
            0 <= i < server.index.len() ==> !present(joined(dir, #[trigger] server.index[i])))
            ==> searched(server, dir, 0, present) == if server.autoindex {
            StepView::List(dir)
        } else {
            StepView::Skip
        },
{
    if 0 <= k < server.index.len() && present(joined(dir, server.index[k])) && (forall|i: int|
        0 <= i < k ==> !present(joined(dir, #[trigger] server.index[i]))) {
        lemma_searched(server, dir, 0, present, k);
    }
    if forall|i: int|
        0 <= i < server.index.len() ==> !present(joined(dir, #[trigger] server.index[i])) {
        lemma_searched(server, dir, 0, present, server.index.len() as int);
    }
}

proof fn lemma_searched(
    server: StaticView,
    dir: Seq<char>,
    i: int,
    present: spec_fn(Seq<char>) -> bool,
    k: int,
)
    requires
        0 <= i <= k <= server.index.len(),
        forall|j: int| i <= j < k ==> !present(joined(dir, #[trigger] server.index[j])),
        k < server.index.len() ==> present(joined(dir, server.index[k])),
    ensures
        searched(server, dir, i, present) == if k < server.index.len() {
            StepView::File(joined(dir, server.index[k]))
        } else {
            server.look_from(dir, k)
        },
    decreases k - i,
{
    if i < k {
        assert(!present(joined(dir, server.index[i])));
        lemma_searched(server, dir, i + 1, present, k);
    }
}

/// An entry of a directory: its name, and whether it is a directory.
pub type Entry = (String, bool);

/// The names of entries, and whether they are directories.
pub open spec fn entries_view(entries: Seq<Entry>) -> Seq<(Seq<char>, bool)> {
    Seq::new(entries.len(), |i: int| (entries[i].0@, entries[i].1))
}

/// `x` put behind the last of the `sorted` entries that does not come after it.
pub open spec fn placed(sorted: Seq<(Seq<char>, bool)>, x: (Seq<char>, bool)) -> Seq<
    (Seq<char>, bool),
>
    decreases sorted.len(),
{
    if sorted.len() == 0 || text_le(sorted.last().0, x.0) {
        sorted.push(x)
    } else {
        placed(sorted.drop_last(), x).push(sorted.last())
    }
}

/// The entries in the order of their names. Those with the same name keep their
/// order.
pub open spec fn by_name(entries: Seq<(Seq<char>, bool)>) -> Seq<(Seq<char>, bool)>
    decreases entries.len(),
{
    if entries.len() == 0 {
        entries
    } else {
        placed(by_name(entries.drop_last()), entries.last())
    }
}

/// Whether the names never go back in the order of texts.
pub open spec fn names_in_order(entries: Seq<(Seq<char>, bool)>) -> bool {
    forall|i: int, j: int|
        0 <= i <= j < entries.len() ==> text_le((#[trigger] entries[i]).0, (#[trigger] entries[j]).0)
}

/// The line of an entry in the listing of `base`.
pub open spec fn entry_line(base: Seq<char>, entry: (Seq<char>, bool)) -> Seq<char> {
    let suffix = if entry.1 {
        "/"@
    } else {
        ""@
    };
    "<a href=\""@ + base + "/"@ + entry.0 + suffix + "\">"@ + entry.0 + suffix + "</a>"@
}

/// The lines of entries in the listing of `base`.
pub open spec fn entry_lines(base: Seq<char>, entries: Seq<(Seq<char>, bool)>) -> Seq<char>
    decreases entries.len(),
{
    if entries.len() == 0 {
        Seq::empty()
    } else {
        entry_lines(base, entries.drop_last()) + entry_line(base, entries.last())
    }
}

/// The page that lists the entries of a directory.
pub open spec fn listing_page(url_path: Seq<char>, entries: Seq<(Seq<char>, bool)>) -> Seq<char> {
    let base = trimmed_end(url_path, '/');
    "<!DOCTYPE html><html><head><title>Index of "@ + base
        + "</title><style>body{font-family:monospace;padding:1em}a{display:block;margin:.2em 0}</style></head><body><h1>Index of "@
        + base + "</h1><hr>"@ + (if base.len() > 0 {
        "<a href=\"../\">../</a>"@
    } else {
        Seq::empty()
    }) + entry_lines(base, by_name(entries)) + "<hr></body></html>"@
}

/// The reply that lists the entries of a directory.
pub open spec fn listing_reply(url_path: Seq<char>, entries: Seq<(Seq<char>, bool)>) -> ReplyView {
    ReplyView::bare(200).with("content-type"@, "text/html; charset=utf-8"@).carrying(
        encode_utf8(listing_page(url_path, entries)),
    )
}

/// Putting an entry in its place keeps the order.
proof fn lemma_placed_in_order(sorted: Seq<(Seq<char>, bool)>, x: (Seq<char>, bool))
    requires
        names_in_order(sorted),
    ensures
        names_in_order(placed(sorted, x)),
        placed(sorted, x).len() == sorted.len() + 1,
        forall|y: Seq<char>|
            (forall|i: int| 0 <= i < sorted.len() ==> text_le((#[trigger] sorted[i]).0, y))
                && text_le(x.0, y) ==> #[trigger] all_before(placed(sorted, x), y),
        placed(sorted, x).to_multiset() == sorted.to_multiset().insert(x),
    decreases sorted.len(),
{
    broadcast use vstd::seq_lib::group_to_multiset_ensures;

    let r = placed(sorted, x);
    lemma_bytes_le_total(encode_utf8(x.0), encode_utf8(x.0));
    if sorted.len() == 0 || text_le(sorted.last().0, x.0) {
        assert forall|i: int, j: int| 0 <= i <= j < r.len() implies text_le(
            (#[trigger] r[i]).0,
            (#[trigger] r[j]).0,
        ) by {
            if i < sorted.len() && j == sorted.len() {
                assert(text_le(sorted[i].0, sorted[sorted.len() - 1].0));
                lemma_bytes_le_transitive(
                    encode_utf8(sorted[i].0),
                    encode_utf8(sorted.last().0),
                    encode_utf8(x.0),
                );
            }
        }
        assert forall|y: Seq<char>|
            (forall|i: int| 0 <= i < sorted.len() ==> text_le((#[trigger] sorted[i]).0, y))
                && text_le(x.0, y) implies #[trigger] all_before(r, y) by {
            assert forall|i: int| 0 <= i < r.len() implies text_le((#[trigger] r[i]).0, y) by {
                if i < sorted.len() {
                    assert(r[i] == sorted[i]);
                }
            }
        }
    } else {
        let last = sorted.last();
        let s = sorted.drop_last();
        assert(names_in_order(s)) by {
            assert forall|i: int, j: int| 0 <= i <= j < s.len() implies text_le(
                (#[trigger] s[i]).0,
                (#[trigger] s[j]).0,
            ) by {
                assert(s[i] == sorted[i] && s[j] == sorted[j]);
            }
        }
        lemma_placed_in_order(s, x);
        lemma_bytes_le_total(encode_utf8(last.0), encode_utf8(x.0));
        lemma_bytes_le_total(encode_utf8(last.0), encode_utf8(last.0));
        assert forall|i: int| 0 <= i < s.len() implies text_le((#[trigger] s[i]).0, last.0) by {
            assert(s[i] == sorted[i] && last == sorted[sorted.len() - 1]);
        }
        assert(all_before(placed(s, x), last.0));
        assert forall|i: int, j: int| 0 <= i <= j < r.len() implies text_le(
            (#[trigger] r[i]).0,
            (#[trigger] r[j]).0,
        ) by {
            if j < r.len() - 1 {
                assert(r[i] == placed(s, x)[i] && r[j] == placed(s, x)[j]);
            } else if i < r.len() - 1 {
                assert(r[i] == placed(s, x)[i]);
            }
        }
        assert forall|y: Seq<char>|
            (forall|i: int| 0 <= i < sorted.len() ==> text_le((#[trigger] sorted[i]).0, y))
                && text_le(x.0, y) implies #[trigger] all_before(r, y) by {
            assert(text_le(sorted[sorted.len() - 1].0, y));
            assert forall|i: int| 0 <= i < s.len() implies text_le((#[trigger] s[i]).0, y) by {
                assert(s[i] == sorted[i]);
            }
            assert(all_before(placed(s, x), y));
            assert forall|i: int| 0 <= i < r.len() implies text_le((#[trigger] r[i]).0, y) by {
                if i < r.len() - 1 {
                    assert(r[i] == placed(s, x)[i]);
                }
            }
        }
        assert(s.push(last) =~= sorted);
        assert(r.to_multiset() =~= sorted.to_multiset().insert(x));
    }
}

/// Whether no entry comes after `y`.
pub open spec fn all_before(entries: Seq<(Seq<char>, bool)>, y: Seq<char>) -> bool {
    forall|i: int| 0 <= i < entries.len() ==> text_le((#[trigger] entries[i]).0, y)
}

/// A listing holds the same entries as the directory, in the order of their
/// names.
pub proof fn law_listing_is_sorted(entries: Seq<(Seq<char>, bool)>)
    ensures
        names_in_order(by_name(entries)),
        by_name(entries).to_multiset() == entries.to_multiset(),
        by_name(entries).len() == entries.len(),
    decreases entries.len(),
{
    broadcast use vstd::seq_lib::group_to_multiset_ensures;

    if entries.len() > 0 {
        law_listing_is_sorted(entries.drop_last());
        lemma_placed_in_order(by_name(entries.drop_last()), entries.last());
        assert(entries.drop_last().push(entries.last()) =~= entries);
    }
}

/// The place of an entry among sorted ones is behind those that do not come after
/// it.
proof fn lemma_place(sorted: Seq<(Seq<char>, bool)>, x: (Seq<char>, bool), at: int)
    requires
        0 <= at <= sorted.len(),
        forall|i: int| 0 <= i < at ==> text_le((#[trigger] sorted[i]).0, x.0),
        forall|i: int| at <= i < sorted.len() ==> !text_le((#[trigger] sorted[i]).0, x.0),
    ensures
        placed(sorted, x) == sorted.insert(at, x),
    decreases sorted.len(),
{
    if at < sorted.len() {
        assert(!text_le(sorted[sorted.len() - 1].0, x.0));
        lemma_place(sorted.drop_last(), x, at);
        assert(placed(sorted, x) =~= sorted.insert(at, x));
    } else {
        assert(sorted.len() > 0 ==> text_le(sorted[sorted.len() - 1].0, x.0));
        assert(placed(sorted, x) =~= sorted.insert(at, x));
    }
}

/// Where an entry called `name` belongs among sorted ones.
fn place_of(sorted: &Vec<Entry>, name: &str) -> (at: usize)
    requires
        names_in_order(entries_view(sorted@)),
    ensures
        0 <= at <= sorted@.len(),
        forall|i: int|
            0 <= i < at ==> text_le((#[trigger] entries_view(sorted@)[i]).0, name@),
        forall|i: int|
            at <= i < sorted@.len() ==> !text_le((#[trigger] entries_view(sorted@)[i]).0, name@),
{
    let ghost v = entries_view(sorted@);
    let mut low: usize = 0;
    let mut high: usize = sorted.len();
    while low < high
        invariant
            v == entries_view(sorted@),
            names_in_order(v),
            0 <= low <= high <= sorted@.len(),
            forall|i: int| 0 <= i < low ==> text_le((#[trigger] v[i]).0, name@),
            forall|i: int| high <= i < sorted@.len() ==> !text_le((#[trigger] v[i]).0, name@),
        decreases high - low,
    {
        let mid: usize = low + (high - low) / 2;
        assert(v[mid as int].0 == sorted@[mid as int].0@);
        if not_after(sorted[mid].0.as_str(), name) {
            assert forall|i: int| 0 <= i < mid + 1 implies text_le((#[trigger] v[i]).0, name@) by {
                assert(text_le(v[i].0, v[mid as int].0));
                lemma_bytes_le_transitive(
                    encode_utf8(v[i].0),
                    encode_utf8(v[mid as int].0),
                    encode_utf8(name@),
                );
            }
            low = mid + 1;
        } else {
            assert forall|i: int| mid <= i < sorted@.len() implies !text_le(
                (#[trigger] v[i]).0,
                name@,
            ) by {
                if text_le(v[i].0, name@) {
                    assert(text_le(v[mid as int].0, v[i].0));
                    lemma_bytes_le_transitive(
                        encode_utf8(v[mid as int].0),
                        encode_utf8(v[i].0),
                        encode_utf8(name@),
                    );
                }
            }
            high = mid;
        }
    }
    low
}

/// The entries in the order of their names.
pub fn sort_entries(entries: Vec<Entry>) -> (r: Vec<Entry>)
    ensures
        entries_view(r@) == by_name(entries_view(entries@)),
{
    let ghost all = entries_view(entries@);
    let mut sorted: Vec<Entry> = Vec::new();
    let mut i: usize = 0;
    assert(entries_view(sorted@) =~= by_name(all.take(0)));
    while i < entries.len()
        invariant
            0 <= i <= entries@.len(),
            all == entries_view(entries@),
            entries_view(sorted@) == by_name(all.take(i as int)),
        decreases entries@.len() - i,
    {
        proof {
            law_listing_is_sorted(all.take(i as int));
        }
        let at = place_of(&sorted, entries[i].0.as_str());
        let ghost before = entries_view(sorted@);
        let entry: Entry = (entries[i].0.clone(), entries[i].1);
        proof {
            assert(all[i as int] == (entry.0@, entry.1));
            lemma_place(before, all[i as int], at as int);
            assert(all.take(i + 1).drop_last() =~= all.take(i as int));
        }
        sorted.insert(at, entry);
        assert(entries_view(sorted@) =~= before.insert(at as int, all[i as int]));
        i += 1;
    }
    assert(all.take(i as int) =~= all);
    sorted
}

/// Builds the reply that lists the entries of a directory.
pub fn directory_listing(entries: Vec<Entry>, url_path: &str) -> (r: Reply)
    ensures
        r@ == listing_reply(url_path@, entries_view(entries@)),
{
    let ghost given = entries_view(entries@);
    let sorted = sort_entries(entries);
    let ghost all = entries_view(sorted@);
    let base = trim_end(url_path, '/');
    let mut html = "<!DOCTYPE html><html><head><title>Index of ".to_string();
    html.append(base.as_str());
    html.append(
        "</title><style>body{font-family:monospace;padding:1em}a{display:block;margin:.2em 0}</style></head><body><h1>Index of ",
    );
    html.append(base.as_str());
    html.append("</h1><hr>");
    if !same_text(base.as_str(), "") {
        html.append("<a href=\"../\">../</a>");
    }
    proof {
        reveal_strlit("");
        if base@.len() == 0 {
            assert(base@ =~= ""@);
        }
    }
    let ghost top = html@;
    let ghost expected = "<!DOCTYPE html><html><head><title>Index of "@ + base@
        + "</title><style>body{font-family:monospace;padding:1em}a{display:block;margin:.2em 0}</style></head><body><h1>Index of "@
        + base@ + "</h1><hr>"@ + (if base@.len() > 0 {
        "<a href=\"../\">../</a>"@
    } else {
        Seq::empty()
    });
    assert(top =~= expected);
    let mut i: usize = 0;
    assert(html@ =~= top + entry_lines(base@, all.take(0)));
    while i < sorted.len()
        invariant
            0 <= i <= sorted@.len(),
            all == entries_view(sorted@),
            html@ == top + entry_lines(base@, all.take(i as int)),
        decreases sorted@.len() - i,
    {
        let ghost before = html@;
        let suffix: &str = if sorted[i].1 {
            "/"
        } else {
            ""
        };
        html.append("<a href=\"");
        html.append(base.as_str());
        html.append("/");
        html.append(sorted[i].0.as_str());
        html.append(suffix);
        html.append("\">");
        html.append(sorted[i].0.as_str());
        html.append(suffix);
        html.append("</a>");
        proof {
            assert(all.take(i + 1).drop_last() =~= all.take(i as int));
            assert(all[i as int] == (sorted@[i as int].0@, sorted@[i as int].1));
            assert(html@ =~= before + entry_line(base@, all[i as int]));
            assert(html@ =~= top + entry_lines(base@, all.take(i + 1)));
        }
        i += 1;
    }
    html.append("<hr></body></html>");
    proof {
        assert(all.take(i as int) =~= all);
        assert(html@ =~= listing_page(url_path@, given));
        lemma_written_names();
        lemma_plain_values();
    }
    let mut r = Reply::bare(200);
    r.set("content-type", "text/html; charset=utf-8");
    r.body = html.as_str().as_bytes_vec();
    r
}

}
