//! Hexadecimal text: parsing single byte tokens, splitting a search query,
//! and rendering bytes the way the editor shows them.

use vstd::prelude::*;
use crate::text::chars_of;
use crate::text::push_char;

verus! {

/// `c` is white space in the sense of Unicode's `White_Space` property,
/// which is what `char::is_whitespace` and `str::split_whitespace` use.
pub open spec fn is_white_space(c: char) -> bool {
    ||| c == ' '
    ||| ('\u{9}' <= c && c <= '\u{d}')
    ||| c == '\u{85}'
    ||| c == '\u{a0}'
    ||| c == '\u{1680}'
    ||| ('\u{2000}' <= c && c <= '\u{200a}')
    ||| c == '\u{2028}'
    ||| c == '\u{2029}'
    ||| c == '\u{202f}'
    ||| c == '\u{205f}'
    ||| c == '\u{3000}'
}

/// Executable test for white space.
pub fn white_space(c: char) -> (r: bool)
    ensures
        r == is_white_space(c),
{
    c == ' ' || ('\u{9}' <= c && c <= '\u{d}') || c == '\u{85}' || c == '\u{a0}' || c == '\u{1680}'
        || ('\u{2000}' <= c && c <= '\u{200a}') || c == '\u{2028}' || c == '\u{2029}' || c
        == '\u{202f}' || c == '\u{205f}' || c == '\u{3000}'
}

/// `c` is one of `0-9`, `a-f`, `A-F`.
pub open spec fn is_hex_digit(c: char) -> bool {
    ('0' <= c && c <= '9') || ('a' <= c && c <= 'f') || ('A' <= c && c <= 'F')
}

/// The value of a hexadecimal digit.
pub open spec fn hex_digit_value(c: char) -> int {
    if '0' <= c && c <= '9' {
        c as int - '0' as int
    } else if 'a' <= c && c <= 'f' {
        c as int - 'a' as int + 10
    } else {
        c as int - 'A' as int + 10
    }
}

/// Every character of `s` is a hexadecimal digit.
pub open spec fn all_hex_digits(s: Seq<char>) -> bool {
    forall|i: int| 0 <= i < s.len() ==> #[trigger] is_hex_digit(s[i])
}

/// The number that the digits `s` denote in base 16.
pub open spec fn hex_number(s: Seq<char>) -> int
    decreases s.len(),
{
    if s.len() == 0 {
        0
    } else {
        16 * hex_number(s.drop_last()) + hex_digit_value(s.last())
    }
}

/// The digits of a token: the token without one leading `+`, if it has one.
pub open spec fn token_digits(t: Seq<char>) -> Seq<char> {
    if t.len() > 0 && t[0] == '+' {
        t.drop_first()
    } else {
        t
    }
}

/// A byte written in base 16, as `u8::from_str_radix(t, 16)` reads it:
/// an optional `+`, then at least one hexadecimal digit, with a value
/// that fits in a byte; anything else is no byte.
pub open spec fn hex_byte(t: Seq<char>) -> Option<u8> {
    let d = token_digits(t);
    if d.len() > 0 && all_hex_digits(d) && hex_number(d) <= 255 {
        Some(hex_number(d) as u8)
    } else {
        None
    }
}

proof fn lemma_hex_number_nonneg(s: Seq<char>)
    requires
        all_hex_digits(s),
    ensures
        hex_number(s) >= 0,
    decreases s.len(),
{
    if s.len() > 0 {
        assert(is_hex_digit(s[s.len() - 1]));
        lemma_hex_number_nonneg(s.drop_last());
    }
}

/// Value of one hexadecimal digit, or `None`.
fn digit_of(c: char) -> (r: Option<u32>)
    ensures
        r is Some <==> is_hex_digit(c),
        r matches Some(v) ==> v == hex_digit_value(c) && v < 16,
{
    if '0' <= c && c <= '9' {
        Some((c as u32) - ('0' as u32))
    } else if 'a' <= c && c <= 'f' {
        Some((c as u32) - ('a' as u32) + 10)
    } else if 'A' <= c && c <= 'F' {
        Some((c as u32) - ('A' as u32) + 10)
    } else {
        None
    }
}

/// Reads the byte that `chars[start..end]` denotes in base 16.
pub fn hex_byte_in(chars: &Vec<char>, start: usize, end: usize) -> (r: Option<u8>)
    requires
        start <= end <= chars.len(),
    ensures
        r == hex_byte(chars@.subrange(start as int, end as int)),
{
    let ghost t = chars@.subrange(start as int, end as int);
    let mut first = start;
    if start < end && chars[start] == '+' {
        first = start + 1;
    }
    let ghost d = chars@.subrange(first as int, end as int);
    assert(d == token_digits(t));
    if first == end {
        return None;
    }
    let mut value: u32 = 0;
    let mut too_big = false;
    let mut i = first;
    while i < end
        invariant
            first <= i <= end <= chars.len(),
            d == chars@.subrange(first as int, end as int),
            d == token_digits(chars@.subrange(start as int, end as int)),
            all_hex_digits(chars@.subrange(first as int, i as int)),
            !too_big ==> value == hex_number(chars@.subrange(first as int, i as int)) && value <= 255,
            too_big ==> hex_number(chars@.subrange(first as int, i as int)) > 255,
        decreases end - i,
    {
        let ghost before = chars@.subrange(first as int, i as int);
        let ghost after = chars@.subrange(first as int, i + 1);
        assert(after.drop_last() == before);
        assert(after.last() == chars@[i as int]);
        match digit_of(chars[i]) {
            None => {
                assert(d[i - first] == chars@[i as int]);
                assert(!is_hex_digit(d[i - first]));
                assert(!all_hex_digits(d));
                return None;
            },
            Some(v) => {
                proof {
                    lemma_hex_number_nonneg(before);
                }
                if !too_big {
                    let next = value * 16 + v;
                    if next > 255 {
                        too_big = true;
                    } else {
                        value = next;
                    }
                }
                assert forall|k: int| 0 <= k < after.len() implies #[trigger] is_hex_digit(after[k]) by {
                    if k < before.len() {
                        assert(after[k] == before[k]);
                    }
                }
            },
        }
        i = i + 1;
    }
    if too_big {
        None
    } else {
        Some(value as u8)
    }
}

/// Reads a byte written in base 16; the contract of `hex_byte` says which
/// texts are one.
pub fn parse_hex_byte(text: &str) -> (r: Option<u8>)
    ensures
        r == hex_byte(text@),
{
    let chars = chars_of(text);
    let r = hex_byte_in(&chars, 0, chars.len());
    assert(chars@.subrange(0, chars@.len() as int) == text@);
    r
}

/// What one word of a search query contributes: its byte if it reads as
/// one (see `hex_byte`), nothing otherwise.
pub open spec fn word_bytes(w: Seq<char>) -> Seq<u8> {
    match hex_byte(w) {
        Some(b) => seq![b],
        None => Seq::empty(),
    }
}

/// The word that the first `n` characters of `q` leave open: the
/// characters after the last white space among them.
pub open spec fn open_word(q: Seq<char>, n: int) -> Seq<char>
    decreases n,
{
    if n <= 0 {
        Seq::empty()
    } else if is_white_space(q[n - 1]) {
        Seq::empty()
    } else {
        open_word(q, n - 1).push(q[n - 1])
    }
}

/// The bytes of the words that white space closes within the first `n`
/// characters of `q`, in order.
pub open spec fn closed_word_bytes(q: Seq<char>, n: int) -> Seq<u8>
    decreases n,
{
    if n <= 0 {
        Seq::empty()
    } else if is_white_space(q[n - 1]) {
        closed_word_bytes(q, n - 1) + word_bytes(open_word(q, n - 1))
    } else {
        closed_word_bytes(q, n - 1)
    }
}

/// The bytes that a search query such as `"4A 6F 68 6E"` asks for: its
/// words, split at white space, each read with `word_bytes`, in order.
pub open spec fn query_bytes(q: Seq<char>) -> Seq<u8> {
    closed_word_bytes(q, q.len() as int) + word_bytes(open_word(q, q.len() as int))
}

/// Turns a search query into the bytes it asks for; words that are not a
/// byte in base 16 are skipped.
pub fn search_bytes(query: &str) -> (r: Vec<u8>)
    ensures
        r@ == query_bytes(query@),
{
    let chars = chars_of(query);
    let n = chars.len();
    let mut out: Vec<u8> = Vec::new();
    let mut start: usize = 0;
    let mut i: usize = 0;
    while i < n
        invariant
            n == chars.len(),
            chars@ == query@,
            start <= i <= n,
            out@ == closed_word_bytes(chars@, i as int),
            open_word(chars@, i as int) == chars@.subrange(start as int, i as int),
        decreases n - i,
    {
        let c = chars[i];
        if white_space(c) {
            match hex_byte_in(&chars, start, i) {
                Some(b) => out.push(b),
                None => {},
            }
            start = i + 1;
            assert(open_word(chars@, i + 1) == chars@.subrange(start as int, i + 1));
        } else {
            assert(open_word(chars@, i + 1) =~= chars@.subrange(start as int, i + 1));
        }
        i = i + 1;
    }
    match hex_byte_in(&chars, start, n) {
        Some(b) => out.push(b),
        None => {},
    }
    out
}

/// The upper-case hexadecimal digit for `v`, which is below 16.
pub open spec fn upper_hex_digit(v: int) -> char {
    if v < 10 {
        ('0' as int + v) as char
    } else {
        ('A' as int + v - 10) as char
    }
}

/// A byte as two upper-case hexadecimal digits, as `{:02X}` writes it.
pub open spec fn hex_pair_text(b: u8) -> Seq<char> {
    seq![upper_hex_digit(b as int / 16), upper_hex_digit(b as int % 16)]
}

fn upper_digit(v: u8) -> (c: char)
    requires
        v < 16,
    ensures
        c == upper_hex_digit(v as int),
{
    if v < 10 {
        (48u8 + v) as char
    } else {
        (55u8 + v) as char
    }
}

/// The two upper-case hexadecimal digits that show a byte in the editor.
pub fn hex_pair(b: u8) -> (r: String)
    ensures
        r@ == hex_pair_text(b),
{
    let mut s = String::new();
    push_char(&mut s, upper_digit(b / 16));
    push_char(&mut s, upper_digit(b % 16));
    s
}

/// A byte that the text column shows as itself: a graphic ASCII
/// character or the space.
pub open spec fn is_shown_as_text(b: u8) -> bool {
    0x20 <= b <= 0x7e
}

/// The character that the text column shows for a byte: the byte itself
/// when it is a graphic ASCII character or a space, `.` otherwise.
pub open spec fn shown_char(b: u8) -> char {
    if is_shown_as_text(b) {
        b as char
    } else {
        '.'
    }
}

/// Executable form of `shown_char`.
pub fn display_char(b: u8) -> (c: char)
    ensures
        c == shown_char(b),
        0x20 <= b <= 0x7e ==> c == b as char,
        !(0x20 <= b <= 0x7e) ==> c == '.',
{
    proof {
        lemma_shown_char_printable_or_dot(b);
    }
    if 0x20 <= b && b <= 0x7e {
        b as char
    } else {
        '.'
    }
}

/// The byte that typing `text` into a cell of the text column stores: the
/// code of its first character, cut to its low eight bits; no byte when
/// the text is empty.
pub open spec fn typed_byte(text: Seq<char>) -> Option<u8> {
    if text.len() > 0 {
        Some((text[0] as int % 256) as u8)
    } else {
        None
    }
}

/// Executable form of `typed_byte`.
pub fn text_cell_byte(text: &str) -> (r: Option<u8>)
    ensures
        r == typed_byte(text@),
{
    if text.unicode_len() > 0 {
        let c = text.get_char(0);
        let v: u32 = (c as u32) % 256;
        Some(v as u8)
    } else {
        None
    }
}

/// Typing the two digits that a hex cell shows back into it stores the
/// byte it held.
pub proof fn lemma_hex_pair_reads_back(b: u8)
    ensures
        hex_byte(hex_pair_text(b)) == Some(b),
{
    let s = hex_pair_text(b);
    assert(token_digits(s) == s);
    assert(s.drop_last().drop_last() =~= Seq::<char>::empty());
    assert(all_hex_digits(s));
    let first = s.drop_last();
    assert(first.last() == s[0]);
    assert(hex_number(first.drop_last()) == 0);
    assert(hex_number(first) == hex_digit_value(s[0]));
    assert(hex_number(s) == 16 * hex_digit_value(s[0]) + hex_digit_value(s[1]));
}

/// Typing the character that a text cell shows back into it stores the
/// byte it held, whenever that byte is shown as itself.
pub proof fn lemma_shown_char_reads_back(b: u8)
    requires
        is_shown_as_text(b),
    ensures
        typed_byte(seq![shown_char(b)]) == Some(b),
{
}

/// Bytes written as the editor shows them, separated by single spaces,
/// such as `4A 6F 68 6E`.
pub open spec fn hex_query_text(bs: Seq<u8>) -> Seq<char>
    decreases bs.len(),
{
    if bs.len() == 0 {
        Seq::empty()
    } else if bs.len() == 1 {
        hex_pair_text(bs[0])
    } else {
        hex_query_text(bs.drop_last()) + seq![' '] + hex_pair_text(bs.last())
    }
}

/// What the scan of a query has seen after `n` characters depends on
/// those characters alone.
proof fn lemma_scan_prefix(p: Seq<char>, s: Seq<char>, n: int)
    requires
        0 <= n <= p.len(),
    ensures
        open_word(p + s, n) == open_word(p, n),
        closed_word_bytes(p + s, n) == closed_word_bytes(p, n),
    decreases n,
{
    if n > 0 {
        lemma_scan_prefix(p, s, n - 1);
        assert((p + s)[n - 1] == p[n - 1]);
    }
}

/// Appending a space and a word that holds no white space adds that
/// word's bytes to what a query asks for.
proof fn lemma_query_append_word(p: Seq<char>, w: Seq<char>)
    requires
        w.len() > 0,
        forall|i: int| 0 <= i < w.len() ==> !#[trigger] is_white_space(w[i]),
    ensures
        query_bytes(p + seq![' '] + w) == query_bytes(p) + word_bytes(w),
{
    let q = p + seq![' '] + w;
    let m = p.len() as int;
    lemma_scan_prefix(p, seq![' '] + w, m);
    assert(p + (seq![' '] + w) == q);
    assert(q[m] == ' ');
    assert(open_word(q, m + 1) == Seq::<char>::empty());
    assert(closed_word_bytes(q, m + 1) == query_bytes(p));
    assert(q.subrange(m + 1, q.len() as int) =~= w);
    assert forall|k: int| 0 <= k <= w.len() implies open_word(q, m + 1 + k) == w.take(k)
        && closed_word_bytes(q, m + 1 + k) == query_bytes(p) by {
        lemma_scan_word(q, m + 1, w, k);
    }
    assert(w.take(w.len() as int) == w);
}

/// Scanning a word that holds no white space, right after white space,
/// gathers the word and closes nothing.
proof fn lemma_scan_word(q: Seq<char>, start: int, w: Seq<char>, k: int)
    requires
        0 <= start,
        0 <= k <= w.len(),
        start + w.len() == q.len(),
        q.subrange(start, q.len() as int) == w,
        forall|i: int| 0 <= i < w.len() ==> !#[trigger] is_white_space(w[i]),
        open_word(q, start) == Seq::<char>::empty(),
    ensures
        open_word(q, start + k) == w.take(k),
        closed_word_bytes(q, start + k) == closed_word_bytes(q, start),
    decreases k,
{
    if k > 0 {
        lemma_scan_word(q, start, w, k - 1);
        assert(q[start + k - 1] == w[k - 1]);
        assert(w.take(k - 1).push(w[k - 1]) =~= w.take(k));
    } else {
        assert(w.take(0) =~= Seq::<char>::empty());
    }
}

/// Bytes typed into the search box the way the editor shows them, one
/// pair of digits each, separated by spaces, are the bytes searched for.
pub proof fn lemma_shown_bytes_search_themselves(bs: Seq<u8>)
    ensures
        query_bytes(hex_query_text(bs)) == bs,
    decreases bs.len(),
{
    if bs.len() == 0 {
        assert(query_bytes(Seq::<char>::empty()) == Seq::<u8>::empty());
    } else {
        let w = hex_pair_text(bs.last());
        lemma_hex_pair_reads_back(bs.last());
        assert(word_bytes(w) == seq![bs.last()]);
        assert forall|i: int| 0 <= i < w.len() implies !#[trigger] is_white_space(w[i]) by {}
        if bs.len() == 1 {
            assert(w.subrange(0, w.len() as int) =~= w);
            lemma_scan_word(w, 0, w, w.len() as int);
            assert(w.take(w.len() as int) == w);
            assert(bs =~= seq![bs[0]]);
        } else {
            lemma_shown_bytes_search_themselves(bs.drop_last());
            lemma_query_append_word(hex_query_text(bs.drop_last()), w);
            assert(bs.drop_last().push(bs.last()) =~= bs);
        }
    }
}

/// The text column shows a byte from the space to `~` (0x20 to 0x7e) as
/// that character, and every other byte (control characters, DEL, bytes
/// above 0x7f) as `.`.
pub proof fn lemma_shown_char_printable_or_dot(b: u8)
    ensures
        0x20 <= b <= 0x7e ==> shown_char(b) == b as char && shown_char(b) as int == b as int,
        !(0x20 <= b <= 0x7e) ==> shown_char(b) == '.',
{
}

proof fn lemma_leading_zero_number(d: Seq<char>)
    ensures
        hex_number(seq!['0'] + d) == hex_number(d),
    decreases d.len(),
{
    if d.len() == 0 {
        let z = seq!['0'];
        assert(seq!['0'] + d =~= z);
        assert(z.drop_last() =~= Seq::<char>::empty());
        assert(z.last() == '0');
        assert(hex_number(z.drop_last()) == 0);
        assert(hex_number(z) == 0);
    } else {
        lemma_leading_zero_number(d.drop_last());
        assert((seq!['0'] + d).drop_last() =~= seq!['0'] + d.drop_last());
        assert((seq!['0'] + d).last() == d.last());
    }
}

/// A byte may be written with a leading `+` or with leading zeros; both
/// read as the same byte as the bare digits.
pub proof fn lemma_hex_byte_sign_and_zeros(t: Seq<char>)
    requires
        t.len() > 0,
        t[0] != '+',
    ensures
        hex_byte(seq!['+'] + t) == hex_byte(t),
        hex_byte(seq!['0'] + t) == hex_byte(t),
{
    assert((seq!['+'] + t).drop_first() =~= t);
    let z = seq!['0'] + t;
    assert(token_digits(z) == z);
    lemma_leading_zero_number(t);
    if all_hex_digits(t) {
        assert forall|i: int| 0 <= i < z.len() implies #[trigger] is_hex_digit(z[i]) by {
            if i > 0 {
                assert(z[i] == t[i - 1]);
            }
        }
    } else {
        let i = choose|i: int| 0 <= i < t.len() && !is_hex_digit(t[i]);
        assert(z[i + 1] == t[i]);
    }
}

/// A text with a character that is not a hexadecimal digit, other than
/// one leading `+`, or with no digits at all, is no byte.
pub proof fn lemma_hex_byte_rejects(t: Seq<char>, i: int)
    requires
        0 <= i < t.len(),
        !(i == 0 && t[0] == '+'),
        !(('0' <= t[i] && t[i] <= '9') || ('a' <= t[i] && t[i] <= 'f') || ('A' <= t[i] && t[i]
            <= 'F')),
    ensures
        hex_byte(t) is None,
        hex_byte(seq!['+']) is None,
        hex_byte(Seq::<char>::empty()) is None,
{
    let d = token_digits(t);
    if t[0] == '+' {
        assert(d[i - 1] == t[i]);
        assert(!is_hex_digit(d[i - 1]));
    } else {
        assert(d[i] == t[i]);
        assert(!is_hex_digit(d[i]));
    }
    assert(seq!['+'].drop_first().len() == 0);
}

/// A number above 255 is no byte: three significant digits are too many.
pub proof fn lemma_hex_byte_three_digits_too_big(a: char, b: char, c: char)
    requires
        is_hex_digit(a) && is_hex_digit(b) && is_hex_digit(c),
        a != '0',
    ensures
        hex_byte(seq![a, b, c]) is None,
{
    let s = seq![a, b, c];
    assert(s.drop_last() =~= seq![a, b]);
    assert(seq![a, b].drop_last() =~= seq![a]);
    assert(seq![a].drop_last() =~= Seq::<char>::empty());
    assert(seq![a].last() == a);
    assert(hex_number(seq![a].drop_last()) == 0);
    assert(seq![a, b].last() == b);
    assert(s.last() == c);
    assert(token_digits(s) == s);
    assert(hex_number(seq![a]) == hex_digit_value(a));
    assert(hex_number(seq![a, b]) == 16 * hex_digit_value(a) + hex_digit_value(b));
    assert(hex_number(s) >= 256);
}

} // verus!
