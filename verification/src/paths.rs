//! From the path of a URL to the path of a file.
//!
//! Paths of files are those of Unix: their pieces are parted by slashes, and a path
//! that begins with a slash is absolute.
use crate::text::{before_first, chars_of, find_first, lemma_find_first, same_text, string_of};
use vstd::prelude::*;
use vstd::string::*;
use vstd::utf8::*;

verus! {

/// The value of a hexadecimal digit.
pub open spec fn hex_digit(b: u8) -> Option<u8> {
    if 48 <= b <= 57 {
        Some((b - 48) as u8)
    } else if 65 <= b <= 70 {
        Some((b - 55) as u8)
    } else if 97 <= b <= 102 {
        Some((b - 87) as u8)
    } else {
        None
    }
}

/// The bytes in which each percent sign with two hexadecimal digits behind it
/// has become the byte that they write.
pub open spec fn unescaped(b: Seq<u8>) -> Seq<u8>
    decreases b.len(),
{
    if b.len() == 0 {
        b
    } else if b[0] == 37 && b.len() >= 3 && hex_digit(b[1]) is Some && hex_digit(b[2]) is Some {
        seq![(16 * hex_digit(b[1])->0 + hex_digit(b[2])->0) as u8] + unescaped(b.skip(3))
    } else {
        seq![b[0]] + unescaped(b.skip(1))
    }
}

/// The text that a percent-encoded text stands for, if it is UTF-8.
pub open spec fn decoded(s: Seq<char>) -> Option<Seq<char>> {
    let b = unescaped(encode_utf8(s));
    if valid_utf8(b) {
        Some(decode_utf8(b))
    } else {
        None
    }
}

/// `percent_encoding::percent_decode_str` with `decode_utf8` turns every `%XX`
/// into a byte, leaves other percent signs alone, and fails when the bytes are
/// not UTF-8.
#[verifier::external_body]
fn percent_decode(s: &str) -> (r: Option<String>)
    ensures
        r is Some <==> valid_utf8(unescaped(encode_utf8(s@))),
        r matches Some(t) ==> encode_utf8(t@) == unescaped(encode_utf8(s@)),
{
    percent_encoding::percent_decode_str(s).decode_utf8().ok().map(|t| t.into_owned())
}

/// The pieces of a text between its slashes.
pub open spec fn pieces(s: Seq<char>) -> Seq<Seq<char>>
    decreases s.len(),
{
    let k = find_first(s, '/');
    if 0 <= k < s.len() {
        seq![s.take(k)] + pieces(s.skip(k + 1))
    } else {
        seq![s]
    }
}

/// The path of `name` in the directory `dir`. An absolute `name` stands for
/// itself.
pub open spec fn joined(dir: Seq<char>, name: Seq<char>) -> Seq<char> {
    if name.len() > 0 && name[0] == '/' {
        name
    } else if dir.len() == 0 || dir.last() == '/' {
        dir + name
    } else {
        dir.push('/') + name
    }
}

/// One step down from a directory. Nothing and a single dot lead nowhere.
pub open spec fn step(dir: Seq<char>, piece: Seq<char>) -> Seq<char> {
    if piece.len() == 0 || piece == "."@ {
        dir
    } else {
        joined(dir, piece)
    }
}

/// The steps down from a directory, one for each piece.
pub open spec fn descended(dir: Seq<char>, parts: Seq<Seq<char>>) -> Seq<char>
    decreases parts.len(),
{
    if parts.len() == 0 {
        dir
    } else {
        step(descended(dir, parts.drop_last()), parts.last())
    }
}

/// The file below `root` that the path of a URL stands for. None if it is not
/// UTF-8, or if any of its pieces is `..`.
pub open spec fn resolved(root: Seq<char>, url: Seq<char>) -> Option<Seq<char>> {
    match decoded(url) {
        None => None,
        Some(text) => {
            let parts = pieces(before_first(text, '?'));
            if parts.contains(".."@) {
                None
            } else {
                Some(descended(root, parts))
            }
        },
    }
}

/// The path of `name` in the directory `dir`.
pub fn join(dir: &str, name: &str) -> (r: String)
    ensures
        r@ == joined(dir@, name@),
{
    let d = chars_of(dir);
    let n = chars_of(name);
    if n.len() > 0 && n[0] == '/' {
        return name.to_string();
    }
    let mut r = dir.to_string();
    if d.len() > 0 && d[d.len() - 1] != '/' {
        r.push('/');
    }
    r.append(name);
    r
}

/// One step down from a directory.
fn step_down(dir: String, piece: &str) -> (r: String)
    ensures
        r@ == step(dir@, piece@),
{
    if same_text(piece, "") || same_text(piece, ".") {
        proof {
            reveal_strlit("");
            assert(piece@ == ""@ ==> piece@.len() == 0);
        }
        return dir;
    }
    proof {
        reveal_strlit("");
        assert(piece@.len() == 0 ==> piece@ =~= ""@);
    }
    join(dir.as_str(), piece)
}

/// The file below `root` that the path of a URL stands for. None if it is not
/// UTF-8, or if any of its pieces is `..`.
pub fn resolve(root: &str, url: &str) -> (r: Option<String>)
    ensures
        r is Some <==> resolved(root@, url@) is Some,
        r matches Some(path) ==> resolved(root@, url@) == Some(path@),
{
    let text = match percent_decode(url) {
        Some(t) => t,
        None => {
            return None;
        },
    };
    proof {
        encode_utf8_decode_utf8(text@);
    }
    let clean = crate::text::before(text.as_str(), '?');
    walk(root, clean.as_str())
}

/// The steps down from `root` along the pieces of `clean`. None if any of them
/// is `..`.
fn walk(root: &str, clean: &str) -> (r: Option<String>)
    ensures
        r is Some <==> !pieces(clean@).contains(".."@),
        r matches Some(path) ==> path@ == descended(root@, pieces(clean@)),
{
    let v = chars_of(clean);
    let mut path = root.to_string();
    let ghost mut done: Seq<Seq<char>> = Seq::empty();
    let mut i: usize = 0;
    assert(v@.skip(0) =~= v@);
    assert(pieces(v@) =~= done + pieces(v@.skip(0)));
    loop
        invariant
            v@ == clean@,
            0 <= i <= v@.len(),
            pieces(v@) == done + pieces(v@.skip(i as int)),
            !done.contains(".."@),
            path@ == descended(root@, done),
        decreases v@.len() - i,
    {
        let ghost rest = v@.skip(i as int);
        let mut j: usize = i;
        while j < v.len() && v[j] != '/'
            invariant
                i <= j <= v@.len(),
                forall|k: int| i <= k < j ==> v@[k] != '/',
            decreases v@.len() - j,
        {
            j += 1;
        }
        let piece = string_of(&v, i, j);
        proof {
            lemma_find_first(rest, '/');
            let k = find_first(rest, '/');
            if k < j - i {
                assert(v@[i + k] == rest[k]);
            } else if k > j - i {
                assert(rest[j - i] == v@[j as int]);
            }
            assert(k == j - i);
            assert(piece@ =~= rest.take(k));
            assert(pieces(rest)[0] == piece@) by {
                if k == rest.len() {
                    assert(rest.take(k) =~= rest);
                }
            }
        }
        if same_text(piece.as_str(), "..") {
            proof {
                let n = done.len() as int;
                assert((done + pieces(rest))[n] == pieces(rest)[0]);
                assert(pieces(v@)[n] == ".."@);
            }
            return None;
        }
        let ghost before = done;
        proof {
            done = done.push(piece@);
            assert(done.drop_last() =~= before);
            assert forall|k: int| 0 <= k < done.len() implies done[k] != ".."@ by {
                if k < before.len() {
                    assert(before.contains(before[k]));
                }
            }
        }
        path = step_down(path, piece.as_str());
        if j == v.len() {
            proof {
                assert(rest.take(j - i) =~= rest);
                assert(pieces(rest) == seq![rest]);
                assert(pieces(v@) =~= done);
            }
            return Some(path);
        }
        proof {
            assert(rest.skip(j - i + 1) =~= v@.skip(j + 1));
            assert(pieces(v@) =~= done + pieces(v@.skip(j + 1)));
        }
        i = j + 1;
    }
}

/// Whether a text holds no slash.
pub open spec fn unslashed(s: Seq<char>) -> bool {
    forall|i: int| 0 <= i < s.len() ==> s[i] != '/'
}

/// There is at least one piece, and none holds a slash.
proof fn lemma_pieces(s: Seq<char>)
    ensures
        pieces(s).len() > 0,
        forall|i: int| 0 <= i < pieces(s).len() ==> unslashed(#[trigger] pieces(s)[i]),
    decreases s.len(),
{
    let k = find_first(s, '/');
    lemma_find_first(s, '/');
    if k < s.len() {
        lemma_pieces(s.skip(k + 1));
        assert forall|i: int| 0 <= i < pieces(s).len() implies unslashed(
            #[trigger] pieces(s)[i],
        ) by {
            if i > 0 {
                assert(pieces(s)[i] == pieces(s.skip(k + 1))[i - 1]);
            }
        }
    }
}

/// A text without a slash, put behind another, lengthens its last piece.
proof fn lemma_pieces_lengthened(a: Seq<char>, x: Seq<char>)
    requires
        unslashed(x),
    ensures
        pieces(a + x) == pieces(a).drop_last().push(pieces(a).last() + x),
    decreases a.len(),
{
    let k = find_first(a, '/');
    let l = find_first(a + x, '/');
    lemma_find_first(a, '/');
    lemma_find_first(a + x, '/');
    lemma_pieces(a);
    if k < a.len() {
        assert((a + x)[k] == '/');
        assert(l == k) by {
            if l < k {
                assert((a + x)[l] == a[l]);
            }
        }
        assert((a + x).take(k) =~= a.take(k));
        assert((a + x).skip(k + 1) =~= a.skip(k + 1) + x);
        lemma_pieces_lengthened(a.skip(k + 1), x);
        lemma_pieces(a.skip(k + 1));
        assert(pieces(a + x) =~= pieces(a).drop_last().push(pieces(a).last() + x));
    } else {
        assert(l == (a + x).len()) by {
            if l < a.len() {
                assert((a + x)[l] == a[l]);
            } else if l < (a + x).len() {
                assert((a + x)[l] == x[l - a.len()]);
            }
        }
        assert(pieces(a + x) =~= pieces(a).drop_last().push(pieces(a).last() + x));
    }
}

/// A slash behind a text opens an empty piece.
proof fn lemma_pieces_opened(a: Seq<char>)
    ensures
        pieces(a.push('/')) == pieces(a).push(Seq::empty()),
    decreases a.len(),
{
    let b = a.push('/');
    let k = find_first(a, '/');
    let l = find_first(b, '/');
    lemma_find_first(a, '/');
    lemma_find_first(b, '/');
    if k < a.len() {
        assert(b[k] == '/');
        assert(l == k) by {
            if l < k {
                assert(b[l] == a[l]);
            }
        }
        assert(b.take(k) =~= a.take(k));
        assert(b.skip(k + 1) =~= a.skip(k + 1).push('/'));
        lemma_pieces_opened(a.skip(k + 1));
        assert(pieces(b) =~= pieces(a).push(Seq::empty()));
    } else {
        assert(b[a.len() as int] == '/');
        assert(l == a.len()) by {
            if l < a.len() {
                assert(b[l] == a[l]);
            }
        }
        assert(b.take(l) =~= a);
        assert(b.skip(l + 1) =~= Seq::empty());
        lemma_find_first(Seq::empty(), '/');
        assert(pieces(b.skip(l + 1)) =~= seq![Seq::empty()]);
        assert(pieces(b) =~= pieces(a).push(Seq::empty()));
    }
}

/// The piece of an empty text, and the last one of a text that ends in a slash,
/// is empty.
proof fn lemma_last_piece(a: Seq<char>)
    requires
        a.len() == 0 || a.last() == '/',
    ensures
        pieces(a).last() == Seq::<char>::empty(),
{
    lemma_find_first(a, '/');
    if a.len() > 0 {
        assert(a.drop_last().push('/') =~= a);
        lemma_pieces_opened(a.drop_last());
    } else {
        assert(a =~= Seq::empty());
    }
}

/// Whether `path` is `root`, or lies below it and never goes up on the way.
pub open spec fn lies_below(root: Seq<char>, path: Seq<char>) -> bool {
    let rest = path.skip(root.len() as int);
    &&& root.is_prefix_of(path)
    &&& !pieces(rest).contains(".."@)
    &&& rest.len() == 0 || root.len() == 0 || root.last() == '/' || rest[0] == '/'
}

/// Whatever a URL says, the file it stands for lies below the root.
pub proof fn law_resolved_lies_below_root(root: Seq<char>, url: Seq<char>)
    ensures
        resolved(root, url) matches Some(path) ==> lies_below(root, path),
{
    if let Some(text) = decoded(url) {
        let parts = pieces(before_first(text, '?'));
        if !parts.contains(".."@) {
            lemma_pieces(before_first(text, '?'));
            assert forall|i: int| 0 <= i < parts.len() implies (#[trigger] parts[i]) != ".."@ by {
                assert(parts.contains(parts[i]));
            }
            lemma_descended(root, parts);
        }
    }
}

proof fn lemma_descended(root: Seq<char>, parts: Seq<Seq<char>>)
    requires
        forall|i: int| 0 <= i < parts.len() ==> unslashed(#[trigger] parts[i]),
        forall|i: int| 0 <= i < parts.len() ==> (#[trigger] parts[i]) != ".."@,
    ensures
        lies_below(root, descended(root, parts)),
    decreases parts.len(),
{
    let path = descended(root, parts);
    if parts.len() == 0 {
        assert(path.skip(root.len() as int) =~= Seq::empty());
        lemma_find_first(Seq::empty(), '/');
        reveal_strlit("..");
        assert(pieces(Seq::empty()) =~= seq![Seq::empty()]);
    } else {
        let before = descended(root, parts.drop_last());
        lemma_descended(root, parts.drop_last());
        let x = parts.last();
        assert(x == parts[parts.len() - 1]);
        if x.len() > 0 && x != "."@ {
            let a = before.skip(root.len() as int);
            let rest = path.skip(root.len() as int);
            assert(x[0] != '/');
            lemma_pieces(a);
            assert forall|i: int| 0 <= i < pieces(a).len() implies (#[trigger] pieces(a)[i])
                != ".."@ by {
                assert(pieces(a).contains(pieces(a)[i]));
            }
            if before.len() == 0 || before.last() == '/' {
                assert(rest =~= a + x);
                if a.len() > 0 {
                    assert(a.last() == before.last());
                }
                lemma_last_piece(a);
                lemma_pieces_lengthened(a, x);
                assert(pieces(a).last() + x =~= x);
                assert(rest.len() > 0 && a.len() > 0 ==> rest[0] == a[0]);
            } else {
                let b = a.push('/');
                assert(rest =~= b + x);
                lemma_pieces_opened(a);
                lemma_pieces_lengthened(b, x);
                assert(Seq::<char>::empty() + x =~= x);
                assert(rest[0] == b[0]);
                assert(a.len() == 0 ==> before =~= root);
            }
            assert(pieces(rest).last() == x);
            assert forall|i: int| 0 <= i < pieces(rest).len() implies (#[trigger] pieces(rest)[i])
                != ".."@ by {
                if i < pieces(rest).len() - 1 {
                    assert(pieces(rest)[i] == pieces(a)[i]);
                }
            }
            assert(root.is_prefix_of(path)) by {
                assert(path.take(root.len() as int) =~= before.take(root.len() as int));
            }
        }
    }
}

/// A URL with a piece `..` stands for no file, whether or not it would lead
/// back below the root, and however its characters are encoded.
pub proof fn law_going_up_is_refused(root: Seq<char>, url: Seq<char>, text: Seq<char>)
    requires
        decoded(url) == Some(text),
        pieces(before_first(text, '?')).contains(".."@),
    ensures
        resolved(root, url) is None,
{
}

/// No byte of a text without a percent sign is one.
proof fn lemma_no_percent(s: Seq<char>)
    requires
        !s.contains('%'),
    ensures
        !encode_utf8(s).contains(37),
    decreases s.len(),
{
    if s.len() > 0 {
        let rest = s.drop_first();
        let c = s[0] as u32;
        assert(s.contains(s[0]));
        assert(!rest.contains('%')) by {
            assert forall|i: int| 0 <= i < rest.len() implies rest[i] != '%' by {
                assert(s.contains(s[i + 1]));
            }
        }
        lemma_no_percent(rest);
        assert(s[0] != '%');
        char_u32_cast(s[0], c);
        char_u32_cast('%', 37);
        if c < 128 {
            assert((c & 0x7f) as u8 != 37u8) by (bit_vector)
                requires
                    c < 128,
                    c != 37,
            ;
        }
        let x = ((c >> 6) & 0x1f) as u8;
        let y = ((c >> 12) & 0x0f) as u8;
        let z = ((c >> 18) & 0x7) as u8;
        let u = (c & 0x3f) as u8;
        let v = ((c >> 6) & 0x3f) as u8;
        let w = ((c >> 12) & 0x3f) as u8;
        assert(0xc0 | x != 37 && 0xe0 | y != 37 && 0xf0 | z != 37) by (bit_vector);
        assert(0x80 | u != 37 && 0x80 | v != 37 && 0x80 | w != 37) by (bit_vector);
        let head = encode_scalar(c);
        let tail = encode_utf8(rest);
        assert forall|i: int| 0 <= i < encode_utf8(s).len() implies encode_utf8(s)[i] != 37 by {
            if i < head.len() {
                assert(encode_utf8(s)[i] == head[i]);
            } else {
                assert(encode_utf8(s)[i] == tail[i - head.len()]);
                assert(tail.contains(tail[i - head.len()]));
            }
        }
    }
}

/// Bytes without a percent sign stand for themselves.
proof fn lemma_unescaped_alone(b: Seq<u8>)
    requires
        !b.contains(37),
    ensures
        unescaped(b) == b,
    decreases b.len(),
{
    if b.len() > 0 {
        assert(b.contains(b[0]));
        let rest = b.skip(1);
        assert(!rest.contains(37)) by {
            assert forall|i: int| 0 <= i < rest.len() implies rest[i] != 37 by {
                assert(b.contains(b[i + 1]));
            }
        }
        lemma_unescaped_alone(rest);
        assert(unescaped(b) =~= b);
    }
}

/// A text without a percent sign stands for itself.
proof fn lemma_decoded_alone(s: Seq<char>)
    requires
        !s.contains('%'),
    ensures
        decoded(s) == Some(s),
{
    lemma_no_percent(s);
    lemma_unescaped_alone(encode_utf8(s));
    encode_utf8_valid_utf8(s);
    encode_utf8_decode_utf8(s);
}

/// A URL leads to the same file however it is escaped: only the text that it stands for
/// counts.
pub proof fn law_escapes_do_not_matter(root: Seq<char>, url: Seq<char>, text: Seq<char>)
    requires
        unescaped(encode_utf8(url)) == encode_utf8(text),
        !text.contains('%'),
    ensures
        resolved(root, url) == resolved(root, text),
{
    encode_utf8_valid_utf8(text);
    encode_utf8_decode_utf8(text);
    lemma_decoded_alone(text);
}

/// A percent sign with two hexadecimal digits is read as the byte that they write, in
/// capitals or not. All other bytes stay.
pub proof fn law_escapes_are_undone(high: int, low: int, rest: Seq<u8>, other: u8)
    requires
        0 <= high < 16,
        0 <= low < 16,
        other != 37,
    ensures
        unescaped(
            seq![37u8] + encode_utf8(seq!["0123456789ABCDEF"@[high], "0123456789abcdef"@[low]])
                + rest,
        ) == seq![(16 * high + low) as u8] + unescaped(rest),
        unescaped(
            seq![37u8] + encode_utf8(seq!["0123456789abcdef"@[high], "0123456789ABCDEF"@[low]])
                + rest,
        ) == seq![(16 * high + low) as u8] + unescaped(rest),
        unescaped(seq![other] + rest) == seq![other] + unescaped(rest),
{
    reveal_strlit("0123456789ABCDEF");
    reveal_strlit("0123456789abcdef");
    let a = seq!["0123456789ABCDEF"@[high], "0123456789abcdef"@[low]];
    let b = seq!["0123456789abcdef"@[high], "0123456789ABCDEF"@[low]];
    assert(is_ascii_chars(a));
    assert(is_ascii_chars(b));
    is_ascii_chars_encode_utf8(a);
    is_ascii_chars_encode_utf8(b);
    let x = seq![37u8] + encode_utf8(a) + rest;
    let y = seq![37u8] + encode_utf8(b) + rest;
    assert(x[1] == a[0] as u8 && x[2] == a[1] as u8);
    assert(y[1] == b[0] as u8 && y[2] == b[1] as u8);
    assert(x.skip(3) =~= rest);
    assert(y.skip(3) =~= rest);
    assert((seq![other] + rest).skip(1) =~= rest);
}

/// What stands behind a question mark does not matter.
pub proof fn law_query_does_not_matter(root: Seq<char>, path: Seq<char>, query: Seq<char>)
    requires
        !path.contains('%'),
        !path.contains('?'),
        !query.contains('%'),
    ensures
        resolved(root, path.push('?') + query) == resolved(root, path),
{
    let url = path.push('?') + query;
    assert(!url.contains('%')) by {
        assert forall|i: int| 0 <= i < url.len() implies url[i] != '%' by {
            if i < path.len() {
                assert(path.contains(path[i]));
                assert(url[i] == path[i]);
            } else if i > path.len() {
                assert(query.contains(query[i - path.len() - 1]));
                assert(url[i] == query[i - path.len() - 1]);
            }
        }
    }
    lemma_decoded_alone(url);
    lemma_decoded_alone(path);
    crate::text_laws::law_cut_at_the_first(path, '?', query);
}

/// The path in which each of `names` stands behind a slash.
pub open spec fn slashed(names: Seq<Seq<char>>) -> Seq<char>
    decreases names.len(),
{
    if names.len() == 0 {
        Seq::empty()
    } else {
        slashed(names.drop_last()) + seq!['/'] + names.last()
    }
}

/// Whether a text can stand in a URL as one piece of its path, as it is.
pub open spec fn plain_piece(s: Seq<char>) -> bool {
    !s.contains('/') && !s.contains('%') && !s.contains('?')
}

/// The pieces that lead on: not nothing, and not a single dot.
pub open spec fn leading_on(names: Seq<Seq<char>>) -> Seq<Seq<char>>
    decreases names.len(),
{
    if names.len() == 0 {
        names
    } else if names.last().len() == 0 || names.last() == "."@ {
        leading_on(names.drop_last())
    } else {
        leading_on(names.drop_last()).push(names.last())
    }
}

proof fn lemma_slashed(names: Seq<Seq<char>>)
    requires
        forall|i: int| 0 <= i < names.len() ==> plain_piece(#[trigger] names[i]),
    ensures
        pieces(slashed(names)) == seq![Seq::<char>::empty()] + names,
        !slashed(names).contains('%'),
        !slashed(names).contains('?'),
    decreases names.len(),
{
    let s = slashed(names);
    let none = Seq::<char>::empty();
    if names.len() == 0 {
        lemma_find_first(none, '/');
        assert(pieces(s) =~= seq![none] + names);
    } else {
        let before = names.drop_last();
        let last = names.last();
        assert(last == names[names.len() - 1]);
        assert forall|i: int| 0 <= i < before.len() implies plain_piece(#[trigger] before[i]) by {
            assert(before[i] == names[i]);
        }
        lemma_slashed(before);
        let a = slashed(before);
        lemma_pieces_opened(a);
        assert(unslashed(last)) by {
            assert forall|i: int| 0 <= i < last.len() implies last[i] != '/' by {
                assert(last.contains(last[i]));
            }
        }
        lemma_pieces_lengthened(a.push('/'), last);
        assert(s =~= a.push('/') + last);
        assert(none + last =~= last);
        assert(pieces(s) =~= seq![none] + names);
        assert forall|i: int| 0 <= i < s.len() implies s[i] != '%' && s[i] != '?' by {
            if i < a.len() {
                assert(s[i] == a[i]);
                assert(a.contains(a[i]));
            } else if i > a.len() {
                assert(s[i] == last[i - a.len() - 1]);
                assert(last.contains(last[i - a.len() - 1]));
            }
        }
    }
}

proof fn lemma_down(root: Seq<char>, names: Seq<Seq<char>>)
    requires
        root.len() > 0,
        root.last() != '/',
        forall|i: int| 0 <= i < names.len() ==> plain_piece(#[trigger] names[i]),
    ensures
        descended(root, seq![Seq::<char>::empty()] + names) == root + slashed(leading_on(names)),
        descended(root, seq![Seq::<char>::empty()] + names).len() > 0,
        descended(root, seq![Seq::<char>::empty()] + names).last() != '/',
    decreases names.len(),
{
    let none = Seq::<char>::empty();
    let all = seq![none] + names;
    if names.len() == 0 {
        assert(all.drop_last() =~= Seq::<Seq<char>>::empty());
        assert(all.last() == none);
        assert(descended(root, all.drop_last()) == root);
        assert(root + slashed(leading_on(names)) =~= root);
    } else {
        let before = names.drop_last();
        let last = names.last();
        assert(last == names[names.len() - 1]);
        assert forall|i: int| 0 <= i < before.len() implies plain_piece(#[trigger] before[i]) by {
            assert(before[i] == names[i]);
        }
        lemma_down(root, before);
        assert(all.drop_last() =~= seq![none] + before);
        assert(all.last() == last);
        if last.len() > 0 && last != "."@ {
            let dir = descended(root, seq![none] + before);
            assert(last.contains(last[0]));
            assert(last.contains(last.last()));
            let kept = leading_on(before);
            assert(leading_on(names).drop_last() =~= kept);
            assert(joined(dir, last) =~= dir.push('/') + last);
            assert(dir.push('/') + last =~= root + (slashed(kept) + seq!['/'] + last));
        }
    }
}

/// A URL leads to the file of the same path below the root. Pieces that are empty or a
/// single dot lead nowhere, so slashes may be doubled or stand at the end.
pub proof fn law_urls_lead_to_their_files(root: Seq<char>, names: Seq<Seq<char>>)
    requires
        root.len() > 0,
        root.last() != '/',
        forall|i: int| 0 <= i < names.len() ==> plain_piece(#[trigger] names[i]),
    ensures
        resolved(root, slashed(names)) == if names.contains(".."@) {
            None
        } else {
            Some(root + slashed(leading_on(names)))
        },
{
    let none = Seq::<char>::empty();
    let s = slashed(names);
    let all = seq![none] + names;
    lemma_slashed(names);
    lemma_decoded_alone(s);
    crate::text_laws::law_cut_at_the_first(s, '?', none);
    lemma_down(root, names);
    reveal_strlit("..");
    if names.contains(".."@) {
        let i = choose|i: int| 0 <= i < names.len() && names[i] == ".."@;
        assert(all[i + 1] == ".."@);
        assert(all.contains(".."@));
    } else {
        assert(!all.contains(".."@)) by {
            assert forall|i: int| 0 <= i < all.len() implies all[i] != ".."@ by {
                if i > 0 {
                    assert(all[i] == names[i - 1]);
                    assert(names.contains(names[i - 1]));
                }
            }
        }
    }
}

/// A file in a directory is called by the directory, one slash and its name.
pub proof fn law_names_stand_behind_one_slash(dir: Seq<char>, name: Seq<char>)
    requires
        name.len() == 0 || name[0] != '/',
        dir.len() == 0 || dir.last() != '/',
    ensures
        dir.len() > 0 ==> joined(dir, name) == dir + seq!['/'] + name,
        dir.len() == 0 ==> joined(dir, name) == name,
        joined(dir.push('/'), name) == dir + seq!['/'] + name,
        joined(dir, seq!['/'] + name) == seq!['/'] + name,
{
    assert(dir.push('/') + name =~= dir + seq!['/'] + name);
    if dir.len() == 0 {
        assert(dir + name =~= name);
    }
}

/// A URL that stands for no text stands for no file.
pub proof fn law_no_text_is_no_file(root: Seq<char>, url: Seq<char>)
    requires
        !valid_utf8(unescaped(encode_utf8(url))),
    ensures
        resolved(root, url) is None,
{
}

}
