use curf::error::{error_response, html_error};
use curf::headers::{field_text, is_value, room_for, set_field, to_name, to_text};
use curf::paths::{join, resolve};
use curf::reply::Reply;
use curf::request::Method;
use curf::static_files::{
    decide_file, directory_listing, file_reply, reply_with_date, sort_entries, FileMeta, FileStep,
    StaticFileServer, StaticStep,
};
use hyper::header::HeaderValue;
use hyper::HeaderMap;

fn value<'a>(r: &'a Reply, name: &str) -> Option<&'a str> {
    r.headers.get(name).map(|v| v.to_str().unwrap())
}

fn body(r: &Reply) -> String {
    String::from_utf8(r.body.clone()).unwrap()
}

fn meta(len: u64, secs: i64) -> FileMeta {
    FileMeta { len, modified: Some(secs) }
}

fn answer(step: FileStep) -> Reply {
    match step {
        FileStep::Answer(r) => r,
        FileStep::Read(_) => panic!("the file is to be read"),
    }
}

fn read(step: FileStep) -> String {
    match step {
        FileStep::Answer(_) => panic!("the file is not to be read"),
        FileStep::Read(mime) => mime,
    }
}

fn server(root: &str, index: &[&str], autoindex: bool) -> StaticFileServer {
    let index = index.iter().map(|s| s.to_string()).collect();
    StaticFileServer::new(root.to_string(), index, autoindex)
}

#[test]
fn plain_errors_are_exact() {
    let r = error_response(429, "Too Many Requests");
    assert_eq!(r.status, 429);
    assert_eq!(value(&r, "content-type"), Some("text/plain; charset=utf-8"));
    assert_eq!(value(&r, "cache-control"), Some("no-store"));
    assert_eq!(r.headers.len(), 2);
    assert_eq!(body(&r), "429 Too Many Requests\n");
}

#[test]
fn html_errors_are_exact() {
    let r = html_error(403, "Forbidden", "why");
    assert_eq!(r.status, 403);
    assert_eq!(value(&r, "content-type"), Some("text/html; charset=utf-8"));
    assert_eq!(value(&r, "cache-control"), Some("no-store"));
    let page = r#"<!DOCTYPE html>
<html>
<head><title>403 Forbidden</title>
<style>body{font-family:sans-serif;text-align:center;padding:4em}h1{font-size:3em}p{color:#666}</style>
</head>
<body>
<h1>403</h1>
<p>why</p>
<hr><small>curf</small>
</body>
</html>"#;
    assert_eq!(body(&r), page);
}

#[test]
fn values_are_visible_or_not() {
    assert_eq!(to_text(&b"a b\tc~".to_vec()).as_deref(), Some("a b\tc~"));
    assert_eq!(to_text(&vec![b'a', 127]), None);
    assert_eq!(to_text(&vec![b'a', 200]), None);
    assert_eq!(to_text(&vec![10]), None);
    assert_eq!(to_text(&Vec::new()).as_deref(), Some(""));
}

#[test]
fn names_and_values_are_checked() {
    assert_eq!(to_name("X-Frame-Options").as_deref(), Some("x-frame-options"));
    assert_eq!(to_name(""), None);
    assert_eq!(to_name("a b"), None);
    assert_eq!(to_name("a:"), None);
    assert_eq!(to_name("\u{e4}"), None);
    assert!(to_name(&"a".repeat(65535)).is_some());
    assert!(to_name(&"a".repeat(65536)).is_none());
    for n in 0..256u32 {
        let c = char::from_u32(n).unwrap();
        let token = c.is_ascii_alphanumeric() || "!#$%&'*+-.^_`|~".contains(c);
        assert_eq!(to_name(&c.to_string()).is_some(), token);
        let fine = c == '\t' || (n >= 32 && n != 127);
        assert_eq!(is_value(&c.to_string()), fine);
    }
}

#[test]
fn fields_are_set_and_read() {
    let mut m = HeaderMap::new();
    assert_eq!(field_text(&m, "host"), None);
    m.append("host", HeaderValue::from_static("a"));
    m.append("host", HeaderValue::from_static("b"));
    assert_eq!(field_text(&m, "host").as_deref(), Some("a"));
    set_field(&mut m, "host", "c");
    assert_eq!(field_text(&m, "host").as_deref(), Some("c"));
    assert_eq!(m.len(), 1);
    m.insert("etag", HeaderValue::from_bytes(&[0xe4]).unwrap());
    assert_eq!(field_text(&m, "etag"), None);
    set_field(&mut m, "etag", "\u{e4}");
    assert_eq!(m.get("etag").unwrap().as_bytes(), [0xc3, 0xa4]);
}

#[test]
fn room_is_counted_by_names() {
    let mut m = HeaderMap::new();
    m.append("a", HeaderValue::from_static("1"));
    m.append("a", HeaderValue::from_static("2"));
    assert!(room_for(&m, 6553));
    assert!(!room_for(&m, 6554));
    for i in 0..6553 {
        set_field(&mut m, &format!("h{}", i), "x");
    }
    assert!(!room_for(&m, 1));
    assert!(room_for(&m, 0));
}

#[test]
fn paths_are_joined_as_std_joins_them() {
    for dir in ["", "/", "/srv", "/srv/", "srv"] {
        for name in ["a", "", "/abs", "a/b", ".."] {
            let expected = std::path::Path::new(dir).join(name);
            assert_eq!(join(dir, name), expected.to_str().unwrap());
        }
    }
}

#[test]
fn urls_lead_below_the_root() {
    let root = "/var/www";
    assert_eq!(resolve(root, "/").as_deref(), Some("/var/www"));
    assert_eq!(resolve(root, "").as_deref(), Some("/var/www"));
    assert_eq!(resolve(root, "/a/b.html").as_deref(), Some("/var/www/a/b.html"));
    assert_eq!(resolve(root, "//a///./b/").as_deref(), Some("/var/www/a/b"));
    assert_eq!(resolve("/var/www/", "/a").as_deref(), Some("/var/www/a"));
    assert_eq!(resolve("", "/a/b").as_deref(), Some("a/b"));
    assert_eq!(resolve(root, "/a?x=../y").as_deref(), Some("/var/www/a"));
    assert_eq!(resolve(root, "/...").as_deref(), Some("/var/www/..."));
}

#[test]
fn percent_encoding_is_undone() {
    let root = "/r";
    assert_eq!(resolve(root, "/a%20b").as_deref(), Some("/r/a b"));
    assert_eq!(resolve(root, "/%C3%a4").as_deref(), Some("/r/\u{e4}"));
    assert_eq!(resolve(root, "/100%").as_deref(), Some("/r/100%"));
    assert_eq!(resolve(root, "/%zz%4").as_deref(), Some("/r/%zz%4"));
    assert_eq!(resolve(root, "/%2541").as_deref(), Some("/r/%41"));
    assert_eq!(resolve(root, "/a%3Fb").as_deref(), Some("/r/a"));
    assert_eq!(resolve(root, "/%ff"), None);
}

#[test]
fn going_up_is_refused() {
    for url in ["/..", "/a/../b", "/../../etc/passwd", "/%2e%2e/x", "/a%2f..%2fb", "..", "/a/.."] {
        assert_eq!(resolve("/var/www", url), None);
    }
}

#[test]
fn only_get_and_head_are_for_files() {
    let s = server("/r", &[], false);
    assert!(matches!(s.serve("/a", Method::Other), StaticStep::Skip));
    assert!(matches!(s.serve("/..", Method::Get), StaticStep::Skip));
    for m in [Method::Get, Method::Head] {
        match s.serve("/a", m) {
            StaticStep::Stat(path) => assert_eq!(path, "/r/a"),
            other => panic!("{:?}", other),
        }
    }
    assert_eq!(s.safe_path("/a").as_deref(), Some("/r/a"));
}

#[test]
fn missing_files_are_left_to_the_backends() {
    let s = server("/r", &["index.html"], true);
    assert!(matches!(s.on_stat("/r/a".to_string(), None), StaticStep::Skip));
    match s.on_stat("/r/a".to_string(), Some(false)) {
        StaticStep::File(path) => assert_eq!(path, "/r/a"),
        other => panic!("{:?}", other),
    }
}

#[test]
fn first_index_file_is_served() {
    let s = server("/r", &["a.html", "b.html"], true);
    let (dir, index) = match s.on_stat("/r/d".to_string(), Some(true)) {
        StaticStep::Probe { dir, index, path } => {
            assert_eq!((index, path.as_str()), (0, "/r/d/a.html"));
            (dir, index)
        }
        other => panic!("{:?}", other),
    };
    let (dir, index) = match s.on_probe(dir, index, false) {
        StaticStep::Probe { dir, index, path } => {
            assert_eq!((index, path.as_str()), (1, "/r/d/b.html"));
            (dir, index)
        }
        other => panic!("{:?}", other),
    };
    match s.on_probe(dir.clone(), index, true) {
        StaticStep::File(path) => assert_eq!(path, "/r/d/b.html"),
        other => panic!("{:?}", other),
    }
    match s.on_probe(dir, index, false) {
        StaticStep::List(path) => assert_eq!(path, "/r/d"),
        other => panic!("{:?}", other),
    }
}

#[test]
fn directories_are_listed_only_when_wanted() {
    let s = server("/r", &[], false);
    assert!(matches!(s.on_stat("/r".to_string(), Some(true)), StaticStep::Skip));
    let s = server("/r", &[], true);
    assert!(matches!(s.on_stat("/r".to_string(), Some(true)), StaticStep::List(_)));
}

#[test]
fn tags_tell_length_and_time() {
    assert_eq!(meta(12, 345).etag(), "\"12-345\"");
    assert_eq!(meta(0, -1).etag(), "\"0-0\"");
    assert_eq!(FileMeta { len: 7, modified: None }.etag(), "\"7-0\"");
}

#[test]
fn get_reply_is_exact() {
    let s = server("/r", &[], false);
    let m = meta(5, 784_111_777);
    let mime = read(s.serve_file("/r/a.html", Method::Get, &HeaderMap::new(), &m));
    assert_eq!(mime, "text/html");
    let r = file_reply(&mime, &m, b"hello".to_vec());
    assert_eq!(r.status, 200);
    assert_eq!(value(&r, "content-type"), Some("text/html"));
    assert_eq!(value(&r, "content-length"), Some("5"));
    assert_eq!(value(&r, "etag"), Some("\"5-784111777\""));
    assert_eq!(value(&r, "last-modified"), Some("Sun, 06 Nov 1994 08:49:37 GMT"));
    assert_eq!(value(&r, "cache-control"), Some("public, max-age=3600"));
    assert_eq!(r.headers.len(), 5);
    assert_eq!(r.body, b"hello");
}

#[test]
fn head_reply_is_exact() {
    let s = server("/r", &[], false);
    let r = answer(s.serve_file("/r/x.unknown", Method::Head, &HeaderMap::new(), &meta(9, 3)));
    assert_eq!(r.status, 200);
    assert_eq!(value(&r, "content-type"), Some("application/octet-stream"));
    assert_eq!(value(&r, "content-length"), Some("9"));
    assert_eq!(value(&r, "etag"), Some("\"9-3\""));
    assert_eq!(r.headers.len(), 3);
    assert!(r.body.is_empty());
}

#[test]
fn tag_saves_a_transfer() {
    let m = meta(5, 100);
    let r = file_reply("text/css", &m, b"hello".to_vec());
    let mut h = HeaderMap::new();
    h.insert("if-none-match", r.headers.get("etag").unwrap().clone());
    let again = answer(decide_file("text/css".to_string(), Method::Get, &h, &m));
    assert_eq!(again.status, 304);
    assert!(again.headers.is_empty() && again.body.is_empty());
    read(decide_file("text/css".to_string(), Method::Get, &h, &meta(5, 101)));
}

#[test]
fn changed_files_are_sent_again() {
    let m = meta(11, 100);
    let r = file_reply("text/css", &m, b"hello, file".to_vec());
    let mut h = HeaderMap::new();
    h.insert("if-none-match", r.headers.get("etag").unwrap().clone());
    for changed in [meta(12, 100), meta(11, 101), meta(1, 1100), meta(11, 99), meta(111, 0)] {
        read(decide_file("text/css".to_string(), Method::Get, &h, &changed));
        let head = answer(decide_file("text/css".to_string(), Method::Head, &h, &changed));
        assert_eq!(head.status, 200);
    }
    // A date since which the file was not changed is enough.
    h.insert("if-modified-since", HeaderValue::from_static("Thu, 01 Jan 1970 00:01:40 GMT"));
    assert_eq!(
        answer(decide_file("text/css".to_string(), Method::Get, &h, &meta(12, 100))).status,
        304
    );
    read(decide_file("text/css".to_string(), Method::Get, &h, &meta(12, 101)));
}

#[test]
fn date_saves_a_transfer() {
    for secs in [0, 1, 951_782_399, 951_782_400, 1_700_000_000, 4_102_444_800, 253_402_300_799] {
        let m = meta(5, secs);
        let r = file_reply("text/css", &m, b"hello".to_vec());
        let mut h = HeaderMap::new();
        h.insert("if-modified-since", r.headers.get("last-modified").unwrap().clone());
        let again = answer(decide_file("text/css".to_string(), Method::Get, &h, &m));
        assert_eq!(again.status, 304);
        // A change after that second is seen, one before it is not.
        read(decide_file("text/css".to_string(), Method::Get, &h, &meta(5, secs + 1)));
        let older = answer(decide_file("text/css".to_string(), Method::Get, &h, &meta(5, secs - 1)));
        assert_eq!(older.status, 304);
    }
}

#[test]
fn known_files_are_recognised() {
    let m = meta(5, 100);
    let tag = Some("\"5-100\"".to_string());
    assert!(m.is_known(&tag, None));
    assert!(!m.is_known(&Some("5-100".to_string()), None));
    assert!(!m.is_known(&None, None));
    assert!(!m.is_known(&None, Some(99)));
    assert!(m.is_known(&None, Some(100)));
    assert!(m.is_known(&None, Some(101)));
    assert!(m.is_known(&tag, Some(0)));
    assert_eq!(m.mtime(), 100);
}

#[test]
fn replies_carry_any_date() {
    let r = reply_with_date("a/b", &meta(3, 0), "some day", vec![1, 2]);
    assert_eq!(value(&r, "last-modified"), Some("some day"));
    assert_eq!(value(&r, "content-length"), Some("2"));
    assert_eq!(value(&r, "etag"), Some("\"3-0\""));
}

#[test]
fn unreadable_dates_are_ignored() {
    let m = meta(5, 0);
    let mut h = HeaderMap::new();
    h.insert("if-modified-since", HeaderValue::from_static("yesterday"));
    read(decide_file("text/css".to_string(), Method::Get, &h, &m));
    h.insert("if-modified-since", HeaderValue::from_static("Sun, 06 Nov 1994 08:49:37 GMT"));
    assert_eq!(answer(decide_file("a/b".to_string(), Method::Get, &h, &m)).status, 304);
    let unknown = FileMeta { len: 5, modified: None };
    read(decide_file("a/b".to_string(), Method::Get, &h, &unknown));
    let old = meta(5, -5);
    assert_eq!(answer(decide_file("a/b".to_string(), Method::Get, &h, &old)).status, 304);
}

#[test]
fn unknown_times_have_no_date() {
    let unknown = FileMeta { len: 1, modified: None };
    assert!(unknown.is_datable());
    let r = file_reply("a/b", &unknown, vec![1]);
    assert_eq!(value(&r, "last-modified"), Some(""));
    assert!(!meta(1, -1).is_datable());
    assert!(!meta(1, 253_402_300_800).is_datable());
    assert!(meta(1, 253_402_300_799).is_datable());
}

#[test]
fn entries_are_sorted_by_name() {
    let names = ["b", "a", "B", "\u{e4}", "", "aa", "b"];
    let entries: Vec<(String, bool)> =
        names.iter().enumerate().map(|(i, n)| (n.to_string(), i == 0)).collect();
    let mut expected = entries.clone();
    expected.sort_by(|a, b| a.0.cmp(&b.0));
    assert_eq!(sort_entries(entries), expected);
}

#[test]
fn listing_is_exact() {
    let entries = vec![("x.txt".to_string(), false), ("d".to_string(), true)];
    let r = directory_listing(entries, "/sub/");
    assert_eq!(r.status, 200);
    assert_eq!(value(&r, "content-type"), Some("text/html; charset=utf-8"));
    assert_eq!(r.headers.len(), 1);
    let page = "<!DOCTYPE html><html><head><title>Index of /sub</title>\
        <style>body{font-family:monospace;padding:1em}a{display:block;margin:.2em 0}</style></head>\
        <body><h1>Index of /sub</h1><hr>\
        <a href=\"../\">../</a>\
        <a href=\"/sub/d/\">d/</a><a href=\"/sub/x.txt\">x.txt</a>\
        <hr></body></html>";
    assert_eq!(body(&r), page);
}

#[test]
fn listing_of_the_root_leads_nowhere_up() {
    let page = body(&directory_listing(Vec::new(), "/"));
    assert!(page.contains("<h1>Index of </h1><hr><hr></body></html>"));
    assert!(!page.contains("../"));
}
