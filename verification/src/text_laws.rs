//! What holds of the text primitives as a whole.
use crate::text::{
    ascii_lower, ascii_lower_char, before_first, bytes_le, decimal, digits_value, find_first,
    find_last, is_digit, lemma_decimal_digits, lemma_find_first, lemma_find_last, occurs,
    occurs_at, read_u16, run_length, second_word, second_word_bounds, text_le, trimmed_end,
    white_space, without_plus,
};
use vstd::arithmetic::power::*;
use vstd::prelude::*;
use vstd::string::*;
use vstd::utf8::*;

verus! {

/// The text that holds `c` `n` times.
pub open spec fn repeated(c: char, n: nat) -> Seq<char> {
    Seq::new(n, |i: int| c)
}

/// A text holds whatever it was put together with.
pub proof fn law_parts_occur(before: Seq<char>, p: Seq<char>, behind: Seq<char>)
    ensures
        occurs(before + p + behind, p),
{
    let t = before + p + behind;
    let i = before.len() as int;
    assert(t.subrange(i, i + p.len()) =~= p);
    assert(occurs_at(t, p, i));
}

/// What occurs in a text is a part of it: something stands before it, and something
/// behind it.
pub proof fn law_occurrence_is_a_part(t: Seq<char>, p: Seq<char>) -> (around: (
    Seq<char>,
    Seq<char>,
))
    requires
        occurs(t, p),
    ensures
        t == around.0 + p + around.1,
{
    let i = choose|i: int| occurs_at(t, p, i);
    assert(occurs_at(t, p, i));
    let around = (t.take(i), t.skip(i + p.len()));
    assert(t =~= around.0 + p + around.1) by {
        assert forall|k: int| i <= k < i + p.len() implies t[k] == p[k - i] by {
            assert(t.subrange(i, i + p.len())[k - i] == t[k]);
        }
    }
    around
}

/// A text is cut at the first `c`: what stands before it is kept, whatever stands
/// behind. A text without one is kept whole.
pub proof fn law_cut_at_the_first(a: Seq<char>, c: char, rest: Seq<char>)
    requires
        !a.contains(c),
    ensures
        before_first(a, c) == a,
        before_first(a.push(c) + rest, c) == a,
        find_first(a, c) == a.len(),
        find_first(a.push(c) + rest, c) == a.len(),
{
    let s = a.push(c) + rest;
    lemma_find_first(a, c);
    lemma_find_first(s, c);
    let k = find_first(s, c);
    if k < a.len() {
        assert(s[k] == a[k]);
    } else if k > a.len() {
        assert(s[a.len() as int] == c);
    }
    let l = find_first(a, c);
    if l < a.len() {
        assert(a.contains(a[l]));
    }
    assert(s.take(k) =~= a);
    assert(a.take(l) =~= a);
}

/// The last `c` of a text is the one with none behind it.
pub proof fn law_last_is_found(a: Seq<char>, c: char, rest: Seq<char>)
    requires
        !rest.contains(c),
    ensures
        find_last(a.push(c) + rest, c) == a.len(),
        find_last(rest, c) == -1,
{
    let s = a.push(c) + rest;
    lemma_find_last(s, c);
    lemma_find_last(rest, c);
    let k = find_last(s, c);
    assert(s[a.len() as int] == c);
    if k > a.len() {
        assert(s[k] == rest[k - a.len() - 1]);
        assert(rest.contains(rest[k - a.len() - 1]));
    }
    let l = find_last(rest, c);
    if l >= 0 {
        assert(rest.contains(rest[l]));
    }
}

/// However many `c` stand at the end of a text, they are all taken away, and nothing
/// else is.
pub proof fn law_ends_are_trimmed(s: Seq<char>, c: char, n: nat)
    requires
        s.len() == 0 || s.last() != c,
    ensures
        trimmed_end(s + repeated(c, n), c) == s,
    decreases n,
{
    let t = s + repeated(c, n);
    if n == 0 {
        assert(t =~= s);
    } else {
        law_ends_are_trimmed(s, c, (n - 1) as nat);
        assert(t.drop_last() =~= s + repeated(c, (n - 1) as nat));
        assert(t.last() == c);
    }
}

/// Whether all characters of a text are white space, or all something else.
pub open spec fn all_white(s: Seq<char>, white: bool) -> bool {
    forall|i: int| 0 <= i < s.len() ==> white_space(#[trigger] s[i]) == white
}

proof fn lemma_run(w: Seq<char>, rest: Seq<char>, white: bool)
    requires
        all_white(w, white),
        rest.len() == 0 || white_space(rest[0]) != white,
    ensures
        run_length(w + rest, white) == w.len(),
    decreases w.len(),
{
    let s = w + rest;
    if w.len() == 0 {
        assert(s =~= rest);
    } else {
        assert(s[0] == w[0]);
        assert(s.drop_first() =~= w.drop_first() + rest);
        assert(all_white(w.drop_first(), white)) by {
            assert forall|i: int| 0 <= i < w.drop_first().len() implies white_space(
                #[trigger] w.drop_first()[i],
            ) == white by {
                assert(w.drop_first()[i] == w[i + 1]);
            }
        }
        lemma_run(w.drop_first(), rest, white);
    }
}

/// The second word of a text is found wherever it stands: behind any white space, a
/// first word and more white space, and before white space or the end.
pub proof fn law_second_word_is_found(
    lead: Seq<char>,
    first: Seq<char>,
    gap: Seq<char>,
    word: Seq<char>,
    tail: Seq<char>,
)
    requires
        all_white(lead, true),
        first.len() > 0,
        all_white(first, false),
        gap.len() > 0,
        all_white(gap, true),
        word.len() > 0,
        all_white(word, false),
        tail.len() == 0 || white_space(tail[0]),
    ensures
        second_word(lead + first + gap + word + tail) == Some(word),
{
    let s = lead + first + gap + word + tail;
    let a = lead.len() as int;
    let b = a + first.len();
    let c = b + gap.len();
    let d = c + word.len();
    assert(s =~= lead + (first + gap + word + tail));
    assert((first + gap + word + tail)[0] == first[0]);
    lemma_run(lead, first + gap + word + tail, true);
    assert(s.skip(a) =~= first + (gap + word + tail));
    assert((gap + word + tail)[0] == gap[0]);
    lemma_run(first, gap + word + tail, false);
    assert(s.skip(b) =~= gap + (word + tail));
    assert((word + tail)[0] == word[0]);
    lemma_run(gap, word + tail, true);
    assert(s.skip(c) =~= word + tail);
    lemma_run(word, tail, false);
    assert(second_word_bounds(s) == (c, d));
    assert(s.subrange(c, d) =~= word);
}

/// A text with one word, or none, has no second word.
pub proof fn law_one_word_is_not_two(lead: Seq<char>, first: Seq<char>, gap: Seq<char>)
    requires
        all_white(lead, true),
        all_white(first, false),
        all_white(gap, true),
        first.len() > 0 || gap.len() == 0,
    ensures
        second_word(lead + first + gap) is None,
{
    let s = lead + first + gap;
    let none = Seq::<char>::empty();
    let a = lead.len() as int;
    let b = a + first.len();
    assert(s =~= lead + (first + gap));
    if first.len() > 0 {
        assert((first + gap)[0] == first[0]);
    }
    lemma_run(lead, first + gap, true);
    assert(s.skip(a) =~= first + gap);
    lemma_run(first, gap, false);
    assert(s.skip(b) =~= gap + none);
    lemma_run(gap, none, true);
    assert(s.skip(s.len() as int) =~= none);
}

/// The capital letters.
pub open spec fn capitals() -> Seq<char> {
    "ABCDEFGHIJKLMNOPQRSTUVWXYZ"@
}

/// In lower case each of the 26 capital letters is the small letter of the same place
/// in the alphabet, and every other character is as it was. Nothing is added or lost.
pub proof fn law_lower_case_is_letter_by_letter(s: Seq<char>, i: int)
    requires
        0 <= i < s.len(),
    ensures
        ascii_lower(s).len() == s.len(),
        !capitals().contains(s[i]) ==> ascii_lower(s)[i] == s[i],
        forall|k: int|
            0 <= k < 26 && s[i] == #[trigger] capitals()[k] ==> ascii_lower(s)[i]
                == "abcdefghijklmnopqrstuvwxyz"@[k],
{
    reveal_strlit("ABCDEFGHIJKLMNOPQRSTUVWXYZ");
    reveal_strlit("abcdefghijklmnopqrstuvwxyz");
    let c = s[i];
    assert(ascii_lower(s)[i] == ascii_lower_char(c));
    if 'A' <= c && c <= 'Z' {
        let k = c as int - 'A' as int;
        assert(capitals()[k] == c);
    }
}

/// The lower-case form of a text is put together from those of its parts.
pub proof fn law_lower_case_of_parts(a: Seq<char>, b: Seq<char>)
    ensures
        ascii_lower(a + b) == ascii_lower(a) + ascii_lower(b),
{
    assert(ascii_lower(a + b) =~= ascii_lower(a) + ascii_lower(b));
}

/// The ten digits stand for the numbers from 0 to 9.
pub proof fn law_digits_count_from_zero(d: int)
    requires
        0 <= d < 10,
    ensures
        digits_value(seq!["0123456789"@[d]]) == d,
        is_digit("0123456789"@[d]),
{
    reveal_strlit("0123456789");
    let s = seq!["0123456789"@[d]];
    assert(s.drop_last() =~= Seq::empty());
    assert(digits_value(s.drop_last()) == 0);
}

/// Digits count by their place: each digit behind others makes them worth ten times as
/// much.
pub proof fn law_digits_count_by_place(a: Seq<char>, b: Seq<char>)
    ensures
        digits_value(a + b) == digits_value(a) * pow(10, b.len()) + digits_value(b),
    decreases b.len(),
{
    if b.len() == 0 {
        assert(a + b =~= a);
        lemma_pow0(10);
    } else {
        let d = b.drop_last();
        law_digits_count_by_place(a, d);
        assert((a + b).drop_last() =~= a + d);
        assert((a + b).last() == b.last());
        lemma_pow1(10);
        lemma_pow_adds(10, d.len(), 1);
        assert((digits_value(a) * pow(10, d.len())) * 10 == digits_value(a) * (pow(10, d.len())
            * 10)) by (nonlinear_arith);
    }
}

/// The decimal form of a number stands for that number, and has no zero before it.
pub proof fn law_decimal_stands_for_its_number(n: nat)
    ensures
        digits_value(decimal(n)) == n,
        decimal(n).len() > 0,
        forall|i: int| 0 <= i < decimal(n).len() ==> is_digit(#[trigger] decimal(n)[i]),
        decimal(n)[0] == '0' <==> n == 0,
        n == 0 ==> decimal(n).len() == 1,
    decreases n,
{
    lemma_decimal_digits(n);
    if n >= 10 {
        law_decimal_stands_for_its_number(n / 10);
        assert(decimal(n).drop_last() =~= decimal(n / 10));
        assert(decimal(n)[0] == decimal(n / 10)[0]);
    } else {
        assert(decimal(n).drop_last() =~= Seq::empty());
        assert(digits_value(decimal(n).drop_last()) == 0);
    }
}

proof fn lemma_zeros(n: nat)
    ensures
        digits_value(repeated('0', n)) == 0,
    decreases n,
{
    let s = repeated('0', n);
    if n > 0 {
        assert(s.drop_last() =~= repeated('0', (n - 1) as nat));
        lemma_zeros((n - 1) as nat);
    }
}

/// A number of 16 bits is read back from its decimal form, with any number of zeros
/// before it, and with a plus sign or without. A larger one is not read.
pub proof fn law_numbers_are_read(n: nat, zeros: nat, plus: bool)
    ensures
        read_u16(
            (if plus {
                seq!['+']
            } else {
                Seq::empty()
            }) + repeated('0', zeros) + decimal(n),
        ) == if n <= 65535 {
            Some(n as u16)
        } else {
            None
        },
{
    let sign = if plus {
        seq!['+']
    } else {
        Seq::empty()
    };
    let d = repeated('0', zeros) + decimal(n);
    let s = sign + repeated('0', zeros) + decimal(n);
    law_decimal_stands_for_its_number(n);
    lemma_zeros(zeros);
    law_digits_count_by_place(repeated('0', zeros), decimal(n));
    assert(0 * pow(10, decimal(n).len()) == 0) by (nonlinear_arith);
    assert forall|i: int| 0 <= i < d.len() implies is_digit(#[trigger] d[i]) by {
        if i >= zeros {
            assert(d[i] == decimal(n)[i - zeros]);
        }
    }
    if plus {
        assert(s.drop_first() =~= d);
    } else {
        assert(s =~= d);
        assert(is_digit(d[0]));
    }
    assert(without_plus(s) == d);
}

/// Nothing else is read as a number: not a text without digits, and not one with a
/// character that is no digit, but for a plus sign at the start.
pub proof fn law_other_texts_are_no_numbers(s: Seq<char>, i: int)
    requires
        s.len() == 0 || s == seq!['+'] || (0 <= i < s.len() && !"0123456789"@.contains(s[i]) && (
        i > 0 || s[i] != '+')),
    ensures
        read_u16(s) is None,
{
    reveal_strlit("0123456789");
    let d = without_plus(s);
    if s.len() > 0 && s != seq!['+'] {
        assert(!is_digit(s[i])) by {
            if is_digit(s[i]) {
                assert("0123456789"@[s[i] as int - '0' as int] == s[i]);
            }
        }
        if s[0] == '+' {
            assert(d[i - 1] == s[i]);
        } else {
            assert(d[i] == s[i]);
        }
    }
}

/// Bytes are ordered by the first place in which they differ, and what ends earlier
/// comes first.
pub proof fn law_bytes_are_ordered_by_the_first_difference(
    p: Seq<u8>,
    x: u8,
    a: Seq<u8>,
    y: u8,
    b: Seq<u8>,
)
    ensures
        x != y ==> (bytes_le(p.push(x) + a, p.push(y) + b) <==> x < y),
        bytes_le(p, p),
        bytes_le(p, p.push(x) + a),
        !bytes_le(p.push(x) + a, p),
    decreases p.len(),
{
    if p.len() > 0 {
        let q = p.drop_first();
        law_bytes_are_ordered_by_the_first_difference(q, x, a, y, b);
        assert((p.push(x) + a).drop_first() =~= q.push(x) + a);
        assert((p.push(y) + b).drop_first() =~= q.push(y) + b);
    }
}

/// The bytes of a text are those of its parts.
pub proof fn lemma_bytes_of_parts(a: Seq<char>, b: Seq<char>)
    ensures
        encode_utf8(a + b) == encode_utf8(a) + encode_utf8(b),
    decreases a.len(),
{
    if a.len() == 0 {
        assert(a + b =~= b);
        assert(encode_utf8(a) + encode_utf8(b) =~= encode_utf8(b));
    } else {
        lemma_bytes_of_parts(a.drop_first(), b);
        assert((a + b).drop_first() =~= a.drop_first() + b);
        assert((a + b)[0] == a[0]);
        assert(encode_utf8(a + b) =~= encode_utf8(a) + encode_utf8(b));
    }
}

/// Texts are ordered by the first ASCII character in which they differ, and what ends
/// earlier comes first.
pub proof fn law_texts_are_ordered_by_the_first_difference(
    p: Seq<char>,
    x: char,
    a: Seq<char>,
    y: char,
    b: Seq<char>,
)
    requires
        x <= '\u{7f}',
        y <= '\u{7f}',
    ensures
        x != y ==> (text_le(p.push(x) + a, p.push(y) + b) <==> x < y),
        text_le(p, p),
        text_le(p, p.push(x) + a),
        !text_le(p.push(x) + a, p),
{
    let q = encode_utf8(p);
    assert(is_ascii_chars(seq![x]));
    assert(is_ascii_chars(seq![y]));
    is_ascii_chars_encode_utf8(seq![x]);
    is_ascii_chars_encode_utf8(seq![y]);
    assert(p.push(x) + a =~= p + (seq![x] + a));
    assert(p.push(y) + b =~= p + (seq![y] + b));
    lemma_bytes_of_parts(p, seq![x] + a);
    lemma_bytes_of_parts(seq![x], a);
    lemma_bytes_of_parts(p, seq![y] + b);
    lemma_bytes_of_parts(seq![y], b);
    assert(seq![x][0] as u8 == encode_utf8(seq![x])[0]);
    assert(seq![y][0] as u8 == encode_utf8(seq![y])[0]);
    assert(encode_utf8(p.push(x) + a) =~= q.push(x as u8) + encode_utf8(a));
    assert(encode_utf8(p.push(y) + b) =~= q.push(y as u8) + encode_utf8(b));
    law_bytes_are_ordered_by_the_first_difference(
        q,
        x as u8,
        encode_utf8(a),
        y as u8,
        encode_utf8(b),
    );
}

/// The end of one part, all of the next and the start of a third occur together where
/// the parts stand behind each other.
pub proof fn lemma_straddle(
    before: Seq<char>,
    end: Seq<char>,
    middle: Seq<char>,
    start: Seq<char>,
    behind: Seq<char>,
)
    requires
        end.is_suffix_of(before),
        start.is_prefix_of(behind),
    ensures
        occurs(before + middle + behind, end + middle + start),
{
    let x = before.take(before.len() - end.len());
    let y = behind.skip(start.len() as int);
    assert(before =~= x + end);
    assert(behind =~= start + y);
    law_parts_occur(x, end + middle + start, y);
    assert(before + middle + behind =~= x + (end + middle + start) + y);
}

}
