//! Byte-level text: comparing, cutting and joining the lines that travel
//! over the wire and into the routing tables.

use vstd::prelude::*;
use vstd::slice::{slice_subrange, slice_to_vec};
use vstd::string::StringExecFns;
use vstd::utf8::{
    encode_scalar, encode_utf8, encode_utf8_decode_utf8, has_width_1_encoding,
    has_width_2_encoding, has_width_3_encoding, has_width_4_encoding, last_continuation_byte,
    leading_byte_width_1, leading_byte_width_2, leading_byte_width_3, leading_byte_width_4,
    second_last_continuation_byte, third_last_continuation_byte,
};

verus! {

/// The space that separates the words of a command.
pub const SPACE: u8 = 0x20;

/// The sign that separates the local part of an address from its domain.
pub const AT: u8 = 0x40;

/// The byte `b` with an ASCII capital letter turned into its small letter.
pub open spec fn fold(b: u8) -> u8 {
    if 0x41 <= b <= 0x5a {
        (b + 0x20) as u8
    } else {
        b
    }
}

/// `s` with every ASCII capital letter turned into its small letter.
pub open spec fn folded(s: Seq<u8>) -> Seq<u8> {
    Seq::new(s.len(), |i: int| fold(s[i]))
}

/// Whether `a` and `b` are the same text when the case of ASCII letters is
/// left out of account.
pub open spec fn same_ignoring_case(a: Seq<u8>, b: Seq<u8>) -> bool {
    folded(a) == folded(b)
}

/// Whether `s` ends with `suffix`.
pub open spec fn ends_with(s: Seq<u8>, suffix: Seq<u8>) -> bool {
    suffix.len() <= s.len() && s.skip(s.len() - suffix.len()) == suffix
}

/// The place of the first `sep` in `s`, or the length of `s` where it holds
/// none.
pub open spec fn first_index(s: Seq<u8>, sep: u8) -> int
    decreases s.len(),
{
    if s.len() == 0 || s[0] == sep {
        0
    } else {
        1 + first_index(s.skip(1), sep)
    }
}

/// What stands in `s` before its first `sep`: all of `s` where it holds none.
pub open spec fn head(s: Seq<u8>, sep: u8) -> Seq<u8> {
    s.take(first_index(s, sep))
}

/// What stands in `s` behind its first `sep`, if it holds one.
pub open spec fn tail(s: Seq<u8>, sep: u8) -> Option<Seq<u8>> {
    if first_index(s, sep) < s.len() {
        Some(s.skip(first_index(s, sep) + 1))
    } else {
        None
    }
}

/// The second of the fields that `sep` cuts `s` into, if there is one.
pub open spec fn second_field(s: Seq<u8>, sep: u8) -> Option<Seq<u8>> {
    match tail(s, sep) {
        Some(rest) => Some(head(rest, sep)),
        None => None,
    }
}

/// Whether `b` alone is a white-space character: a tab, a line feed, a
/// vertical tab, a form feed, a carriage return or a space.
pub open spec fn narrow_space(b: u8) -> bool {
    0x09 <= b <= 0x0d || b == 0x20
}

/// Whether `a b` is the UTF-8 form of a white-space character of two bytes:
/// the next-line sign U+0085 or the no-break space U+00A0.
pub open spec fn middle_space(a: u8, b: u8) -> bool {
    a == 0xc2 && (b == 0x85 || b == 0xa0)
}

/// Whether `a b c` is the UTF-8 form of a white-space character of three
/// bytes: U+1680, U+2000 to U+200A, U+2028, U+2029, U+202F, U+205F or U+3000.
pub open spec fn wide_space(a: u8, b: u8, c: u8) -> bool {
    ||| a == 0xe1 && b == 0x9a && c == 0x80
    ||| a == 0xe2 && b == 0x80 && (0x80 <= c <= 0x8a || c == 0xa8 || c == 0xa9 || c == 0xaf)
    ||| a == 0xe2 && b == 0x81 && c == 0x9f
    ||| a == 0xe3 && b == 0x80 && c == 0x80
}

/// How many bytes the white-space character takes that `s` begins with: 0
/// where `s` begins with none.
pub open spec fn space_before(s: Seq<u8>) -> int {
    if s.len() >= 1 && narrow_space(s[0]) {
        1
    } else if s.len() >= 2 && middle_space(s[0], s[1]) {
        2
    } else if s.len() >= 3 && wide_space(s[0], s[1], s[2]) {
        3
    } else {
        0
    }
}

/// How many bytes the white-space character takes that `s` ends with: 0
/// where `s` ends with none.
pub open spec fn space_behind(s: Seq<u8>) -> int {
    let n = s.len() as int;
    if n >= 1 && narrow_space(s[n - 1]) {
        1
    } else if n >= 2 && middle_space(s[n - 2], s[n - 1]) {
        2
    } else if n >= 3 && wide_space(s[n - 3], s[n - 2], s[n - 1]) {
        3
    } else {
        0
    }
}

/// `s` without the white space that it begins with.
pub open spec fn trim_start(s: Seq<u8>) -> Seq<u8>
    decreases s.len(),
{
    if space_before(s) > 0 {
        trim_start(s.skip(space_before(s)))
    } else {
        s
    }
}

/// `s` without the white space that it ends with.
pub open spec fn trim_end(s: Seq<u8>) -> Seq<u8>
    decreases s.len(),
{
    if space_behind(s) > 0 {
        trim_end(s.take(s.len() - space_behind(s)))
    } else {
        s
    }
}

/// `s` without the white space at either end. On UTF-8 text this is the
/// text without the characters of the Unicode property White_Space at
/// either end: see `lemma_trimmed_utf8`.
pub open spec fn trimmed(s: Seq<u8>) -> Seq<u8> {
    trim_end(trim_start(s))
}

/// How many bytes stand in `s` before its first white-space character: the
/// length of `s` where it holds none.
pub open spec fn word_len(s: Seq<u8>) -> int
    decreases s.len(),
{
    if s.len() == 0 || space_before(s) > 0 {
        0
    } else {
        1 + word_len(s.skip(1))
    }
}

/// The first word of `s`: what stands before its first white-space
/// character.
pub open spec fn first_word_of(s: Seq<u8>) -> Seq<u8> {
    s.take(word_len(s))
}

/// What stands in `s` behind its first word and the white space that
/// follows the word.
pub open spec fn after_word_of(s: Seq<u8>) -> Seq<u8> {
    trim_start(s.skip(word_len(s)))
}

/// The second of the words that white space cuts `s` into, if there is
/// one.
pub open spec fn second_word_of(s: Seq<u8>) -> Option<Seq<u8>> {
    if after_word_of(s).len() > 0 {
        Some(first_word_of(after_word_of(s)))
    } else {
        None
    }
}

/// Whether `s` holds no white-space character.
pub open spec fn no_space(s: Seq<u8>) -> bool {
    forall|i: int| 0 <= i < s.len() ==> space_before(#[trigger] s.skip(i)) == 0
}

/// Whether `c` has the Unicode property White_Space.
pub open spec fn white_space(c: char) -> bool {
    let v = c as u32;
    ||| 0x09 <= v <= 0x0d
    ||| v == 0x20 || v == 0x85 || v == 0xa0 || v == 0x1680
    ||| 0x2000 <= v <= 0x200a
    ||| v == 0x2028 || v == 0x2029 || v == 0x202f || v == 0x205f || v == 0x3000
}

/// `s` without the white-space characters that it begins with.
pub open spec fn trim_start_chars(s: Seq<char>) -> Seq<char>
    decreases s.len(),
{
    if s.len() > 0 && white_space(s[0]) {
        trim_start_chars(s.drop_first())
    } else {
        s
    }
}

/// `s` without the white-space characters that it ends with.
pub open spec fn trim_end_chars(s: Seq<char>) -> Seq<char>
    decreases s.len(),
{
    if s.len() > 0 && white_space(s.last()) {
        trim_end_chars(s.drop_last())
    } else {
        s
    }
}

/// `s` without the white-space characters at either end.
pub open spec fn trimmed_chars(s: Seq<char>) -> Seq<char> {
    trim_end_chars(trim_start_chars(s))
}

/// The bytes that a text takes in UTF-8, as it goes over the wire.
pub open spec fn utf8(chars: Seq<char>) -> Seq<u8> {
    encode_utf8(chars)
}

/// The parts one behind the other, with `sep` between each two of them.
pub open spec fn joined(parts: Seq<Seq<u8>>, sep: Seq<u8>) -> Seq<u8>
    decreases parts.len(),
{
    if parts.len() == 0 {
        Seq::empty()
    } else if parts.len() == 1 {
        parts[0]
    } else {
        joined(parts.drop_last(), sep) + sep + parts.last()
    }
}

/// The character of the decimal digit `d`.
pub open spec fn digit_char(d: nat) -> char {
    (0x30 + d) as char
}

/// The number `n` written in decimal digits, without leading zeros.
pub open spec fn decimal(n: nat) -> Seq<char>
    decreases n,
{
    if n < 10 {
        seq![digit_char(n)]
    } else {
        decimal(n / 10).push(digit_char(n % 10))
    }
}

/// The number `n` written in decimal digits, with a minus sign before it
/// where it is below zero.
pub open spec fn signed_decimal(n: int) -> Seq<char> {
    if n < 0 {
        "-"@ + decimal((-n) as nat)
    } else {
        decimal(n as nat)
    }
}

/// `first_index` is the least place that holds `sep`.
pub proof fn lemma_first_index(s: Seq<u8>, sep: u8)
    ensures
        0 <= first_index(s, sep) <= s.len(),
        forall|j: int| 0 <= j < first_index(s, sep) ==> s[j] != sep,
        first_index(s, sep) < s.len() ==> s[first_index(s, sep)] == sep,
    decreases s.len(),
{
    if s.len() == 0 || s[0] == sep {
    } else {
        let rest = s.skip(1);
        lemma_first_index(rest, sep);
        assert forall|j: int| 0 <= j < first_index(s, sep) implies s[j] != sep by {
            if j > 0 {
                assert(rest[j - 1] == s[j]);
            }
        }
        let k = first_index(s, sep);
        assert(k < s.len() ==> rest[k - 1] == s[k]);
    }
}

/// A place that holds `sep`, or the end, with no `sep` before it is the
/// `first_index`.
pub proof fn lemma_first_index_is(s: Seq<u8>, sep: u8, i: int)
    requires
        0 <= i <= s.len(),
        forall|j: int| 0 <= j < i ==> s[j] != sep,
        i < s.len() ==> s[i] == sep,
    ensures
        first_index(s, sep) == i,
{
    lemma_first_index(s, sep);
    let k = first_index(s, sep);
    if k < i {
        assert(s[k] != sep);
    } else if i < k {
        assert(s[i] == sep);
    }
}

/// Whether two texts are equal byte for byte.
pub fn eq(a: &[u8], b: &[u8]) -> (same: bool)
    ensures
        same == (a@ == b@),
{
    if a.len() != b.len() {
        return false;
    }
    let mut i: usize = 0;
    while i < a.len()
        invariant
            a.len() == b.len(),
            i <= a.len(),
            forall|j: int| 0 <= j < i ==> a@[j] == b@[j],
        decreases a.len() - i,
    {
        if a[i] != b[i] {
            return false;
        }
        i += 1;
    }
    assert(a@ =~= b@);
    true
}

/// The small letter of an ASCII capital, any other byte as it is.
pub fn fold_byte(b: u8) -> (f: u8)
    ensures
        f == fold(b),
{
    if 0x41 <= b && b <= 0x5a {
        b + 0x20
    } else {
        b
    }
}

/// Whether two texts are equal but for the case of their ASCII letters.
pub fn eq_ignore_case(a: &[u8], b: &[u8]) -> (same: bool)
    ensures
        same == same_ignoring_case(a@, b@),
{
    if a.len() != b.len() {
        assert(folded(a@).len() != folded(b@).len());
        return false;
    }
    let mut i: usize = 0;
    while i < a.len()
        invariant
            a.len() == b.len(),
            i <= a.len(),
            forall|j: int| 0 <= j < i ==> fold(a@[j]) == fold(b@[j]),
        decreases a.len() - i,
    {
        if fold_byte(a[i]) != fold_byte(b[i]) {
            assert(folded(a@)[i as int] != folded(b@)[i as int]);
            return false;
        }
        i += 1;
    }
    assert(folded(a@) =~= folded(b@));
    true
}

/// Whether `s` ends with `suffix`.
pub fn has_suffix(s: &[u8], suffix: &[u8]) -> (found: bool)
    ensures
        found == ends_with(s@, suffix@),
{
    if suffix.len() > s.len() {
        return false;
    }
    let start: usize = s.len() - suffix.len();
    eq(slice_subrange(s, start, s.len()), suffix)
}

/// How many bytes the white-space character takes that `s[lo..hi]` begins
/// with.
fn space_front(s: &[u8], lo: usize, hi: usize) -> (n: usize)
    requires
        lo <= hi <= s.len(),
    ensures
        n == space_before(s@.subrange(lo as int, hi as int)),
        n <= hi - lo,
{
    let ghost part = s@.subrange(lo as int, hi as int);
    let len: usize = hi - lo;
    if len >= 1 {
        let a: u8 = s[lo];
        assert(a == part[0]);
        if (0x09 <= a && a <= 0x0d) || a == 0x20 {
            return 1;
        }
        if len >= 2 {
            let b: u8 = s[lo + 1];
            assert(b == part[1]);
            if a == 0xc2 && (b == 0x85 || b == 0xa0) {
                return 2;
            }
            if len >= 3 {
                let c: u8 = s[lo + 2];
                assert(c == part[2]);
                if is_wide_space(a, b, c) {
                    return 3;
                }
            }
        }
    }
    0
}

/// How many bytes the white-space character takes that `s[lo..hi]` ends with.
fn space_back(s: &[u8], lo: usize, hi: usize) -> (n: usize)
    requires
        lo <= hi <= s.len(),
    ensures
        n == space_behind(s@.subrange(lo as int, hi as int)),
        n <= hi - lo,
{
    let ghost part = s@.subrange(lo as int, hi as int);
    let len: usize = hi - lo;
    if len >= 1 {
        let c: u8 = s[hi - 1];
        assert(c == part[len - 1]);
        if (0x09 <= c && c <= 0x0d) || c == 0x20 {
            return 1;
        }
        if len >= 2 {
            let b: u8 = s[hi - 2];
            assert(b == part[len - 2]);
            if b == 0xc2 && (c == 0x85 || c == 0xa0) {
                return 2;
            }
            if len >= 3 {
                let a: u8 = s[hi - 3];
                assert(a == part[len - 3]);
                if is_wide_space(a, b, c) {
                    return 3;
                }
            }
        }
    }
    0
}

/// Whether three bytes are a white-space character of three bytes.
fn is_wide_space(a: u8, b: u8, c: u8) -> (wide: bool)
    ensures
        wide == wide_space(a, b, c),
{
    (a == 0xe1 && b == 0x9a && c == 0x80) || (a == 0xe2 && b == 0x80 && ((0x80 <= c && c <= 0x8a)
        || c == 0xa8 || c == 0xa9 || c == 0xaf)) || (a == 0xe2 && b == 0x81 && c == 0x9f) || (a
        == 0xe3 && b == 0x80 && c == 0x80)
}

/// Where `s[from..]` begins once the white space at its front is left out.
fn skip_space(s: &[u8], from: usize) -> (lo: usize)
    requires
        from <= s.len(),
    ensures
        from <= lo <= s.len(),
        s@.subrange(lo as int, s.len() as int) == trim_start(
            s@.subrange(from as int, s.len() as int),
        ),
{
    let mut lo: usize = from;
    let mut step: usize = space_front(s, lo, s.len());
    while step > 0
        invariant
            from <= lo <= s.len(),
            step == space_before(s@.subrange(lo as int, s.len() as int)),
            step <= s.len() - lo,
            trim_start(s@.subrange(from as int, s.len() as int)) == trim_start(
                s@.subrange(lo as int, s.len() as int),
            ),
        decreases s.len() - lo,
    {
        assert(s@.subrange(lo as int, s.len() as int).skip(step as int) =~= s@.subrange(
            lo + step,
            s.len() as int,
        ));
        lo += step;
        step = space_front(s, lo, s.len());
    }
    lo
}

/// `s` without the white space at either end.
pub fn trim(s: &[u8]) -> (inner: &[u8])
    ensures
        inner@ == trimmed(s@),
{
    assert(s@.subrange(0, s.len() as int) =~= s@);
    let lo: usize = skip_space(s, 0);
    let ghost front = s@.subrange(lo as int, s.len() as int);
    let mut hi: usize = s.len();
    let mut step: usize = space_back(s, lo, hi);
    while step > 0
        invariant
            lo <= hi <= s.len(),
            front == s@.subrange(lo as int, s.len() as int),
            step == space_behind(s@.subrange(lo as int, hi as int)),
            step <= hi - lo,
            trim_end(front) == trim_end(s@.subrange(lo as int, hi as int)),
        decreases hi - lo,
    {
        assert(s@.subrange(lo as int, hi as int).take(hi - lo - step) =~= s@.subrange(
            lo as int,
            hi - step,
        ));
        hi -= step;
        step = space_back(s, lo, hi);
    }
    slice_subrange(s, lo, hi)
}

/// A text without white space is one word.
pub proof fn lemma_one_word(s: Seq<u8>)
    requires
        no_space(s),
    ensures
        word_len(s) == s.len(),
    decreases s.len(),
{
    if s.len() > 0 {
        assert(s.skip(0) =~= s);
        let rest = s.skip(1);
        assert forall|i: int| 0 <= i < rest.len() implies space_before(#[trigger] rest.skip(i))
            == 0 by {
            assert(rest.skip(i) =~= s.skip(i + 1));
        }
        lemma_one_word(rest);
    }
}

/// Where the first word of `s` ends: at its first white-space character,
/// or at its end.
pub fn word_end(s: &[u8]) -> (at: usize)
    ensures
        at == word_len(s@),
        at <= s.len(),
{
    let mut i: usize = 0;
    assert(s@.skip(0) =~= s@);
    while i < s.len() && space_front(s, i, s.len()) == 0
        invariant
            i <= s.len(),
            word_len(s@) == i + word_len(s@.skip(i as int)),
        decreases s.len() - i,
    {
        assert(s@.skip(i as int) =~= s@.subrange(i as int, s.len() as int));
        assert(s@.skip(i as int).skip(1) =~= s@.skip(i + 1));
        i += 1;
    }
    assert(s@.skip(i as int) =~= s@.subrange(i as int, s.len() as int));
    i
}

/// The first word of `s`.
pub fn first_word(s: &[u8]) -> (word: &[u8])
    ensures
        word@ == first_word_of(s@),
{
    let at: usize = word_end(s);
    slice_subrange(s, 0, at)
}

/// What stands behind the first word of `s` and the white space that
/// follows the word.
pub fn after_word(s: &[u8]) -> (rest: &[u8])
    ensures
        rest@ == after_word_of(s@),
{
    let at: usize = word_end(s);
    let lo: usize = skip_space(s, at);
    assert(s@.skip(at as int) =~= s@.subrange(at as int, s.len() as int));
    slice_subrange(s, lo, s.len())
}

/// The place of the first `sep` in `s`, or the length of `s`.
pub fn find(s: &[u8], sep: u8) -> (at: usize)
    ensures
        at == first_index(s@, sep),
{
    let mut i: usize = 0;
    while i < s.len() && s[i] != sep
        invariant
            i <= s.len(),
            forall|j: int| 0 <= j < i ==> s@[j] != sep,
        decreases s.len() - i,
    {
        i += 1;
    }
    proof {
        lemma_first_index_is(s@, sep, i as int);
    }
    i
}

/// What stands before the first `sep`.
pub fn first_field(s: &[u8], sep: u8) -> (field: &[u8])
    ensures
        field@ == head(s@, sep),
{
    let at: usize = find(s, sep);
    proof {
        lemma_first_index(s@, sep);
    }
    slice_subrange(s, 0, at)
}

/// What stands behind the first `sep`, if there is one.
pub fn after_first(s: &[u8], sep: u8) -> (rest: Option<&[u8]>)
    ensures
        match rest {
            Some(r) => tail(s@, sep) == Some(r@),
            None => tail(s@, sep).is_none(),
        },
{
    let at: usize = find(s, sep);
    proof {
        lemma_first_index(s@, sep);
    }
    if at < s.len() {
        Some(slice_subrange(s, at + 1, s.len()))
    } else {
        None
    }
}

/// Puts `part` at the end of `out`.
pub fn append(out: &mut Vec<u8>, part: &[u8])
    ensures
        final(out)@ == old(out)@ + part@,
{
    out.extend_from_slice(part);
    assert(out@ =~= old(out)@ + part@);
}

/// Whether two texts are the same.
pub fn same_text(a: &str, b: &str) -> (same: bool)
    ensures
        same == (a@ == b@),
{
    proof {
        encode_utf8_decode_utf8(a@);
        encode_utf8_decode_utf8(b@);
    }
    eq(a.as_bytes(), b.as_bytes())
}

/// Whether two texts are the same but for the case of their ASCII letters.
pub fn same_text_ignoring_case(a: &str, b: &str) -> (same: bool)
    ensures
        same == same_ignoring_case(utf8(a@), utf8(b@)),
{
    eq_ignore_case(a.as_bytes(), b.as_bytes())
}

/// The bytes of a text.
pub fn bytes(s: &str) -> (b: Vec<u8>)
    ensures
        b@ == utf8(s@),
{
    slice_to_vec(s.as_bytes())
}

/// The text of one decimal digit.
fn digit(d: u64) -> (s: &'static str)
    requires
        d < 10,
    ensures
        s@ == seq![digit_char(d as nat)],
{
    proof {
        reveal_strlit("0");
        reveal_strlit("1");
        reveal_strlit("2");
        reveal_strlit("3");
        reveal_strlit("4");
        reveal_strlit("5");
        reveal_strlit("6");
        reveal_strlit("7");
        reveal_strlit("8");
        reveal_strlit("9");
    }
    let s = match d {
        0 => "0",
        1 => "1",
        2 => "2",
        3 => "3",
        4 => "4",
        5 => "5",
        6 => "6",
        7 => "7",
        8 => "8",
        _ => "9",
    };
    assert(s@ =~= seq![digit_char(d as nat)]);
    s
}

/// The number `n` written in decimal digits.
pub fn to_decimal(n: u64) -> (s: String)
    ensures
        s@ == decimal(n as nat),
    decreases n,
{
    if n < 10 {
        digit(n).to_owned()
    } else {
        let s = to_decimal(n / 10).concat(digit(n % 10));
        assert(s@ =~= decimal(n as nat));
        s
    }
}

/// The number `n` written in decimal digits, with a minus sign before it
/// where it is below zero.
pub fn to_signed_decimal(n: i32) -> (s: String)
    ensures
        s@ == signed_decimal(n as int),
{
    if n < 0 {
        let m: i64 = -(n as i64);
        "-".to_owned().concat(to_decimal(m as u64).as_str())
    } else {
        to_decimal(n as u64)
    }
}

/// The byte of a character that takes one byte.
proof fn lemma_one_byte(v: u32)
    by (bit_vector)
    requires
        has_width_1_encoding(v),
    ensures
        leading_byte_width_1(v) == v,
        leading_byte_width_1(v) < 0x80,
{
}

/// The bytes of a character that takes two bytes.
proof fn lemma_two_bytes(v: u32)
    by (bit_vector)
    requires
        has_width_2_encoding(v),
    ensures
        0xc2 <= leading_byte_width_2(v) <= 0xdf,
        0x80 <= last_continuation_byte(v) <= 0xbf,
        (leading_byte_width_2(v) == 0xc2 && last_continuation_byte(v) == 0x85) <==> v == 0x85,
        (leading_byte_width_2(v) == 0xc2 && last_continuation_byte(v) == 0xa0) <==> v == 0xa0,
{
}

/// The bytes of a character that takes three bytes.
proof fn lemma_three_bytes(v: u32)
    by (bit_vector)
    requires
        has_width_3_encoding(v),
    ensures
        0xe0 <= leading_byte_width_3(v) <= 0xef,
        0x80 <= second_last_continuation_byte(v) <= 0xbf,
        0x80 <= last_continuation_byte(v) <= 0xbf,
        (leading_byte_width_3(v) == 0xe1 && second_last_continuation_byte(v) == 0x9a
            && last_continuation_byte(v) == 0x80) <==> v == 0x1680,
        (leading_byte_width_3(v) == 0xe2 && second_last_continuation_byte(v) == 0x80 && 0x80
            <= last_continuation_byte(v) <= 0x8a) <==> 0x2000 <= v <= 0x200a,
        (leading_byte_width_3(v) == 0xe2 && second_last_continuation_byte(v) == 0x80
            && last_continuation_byte(v) == 0xa8) <==> v == 0x2028,
        (leading_byte_width_3(v) == 0xe2 && second_last_continuation_byte(v) == 0x80
            && last_continuation_byte(v) == 0xa9) <==> v == 0x2029,
        (leading_byte_width_3(v) == 0xe2 && second_last_continuation_byte(v) == 0x80
            && last_continuation_byte(v) == 0xaf) <==> v == 0x202f,
        (leading_byte_width_3(v) == 0xe2 && second_last_continuation_byte(v) == 0x81
            && last_continuation_byte(v) == 0x9f) <==> v == 0x205f,
        (leading_byte_width_3(v) == 0xe3 && second_last_continuation_byte(v) == 0x80
            && last_continuation_byte(v) == 0x80) <==> v == 0x3000,
{
}

/// The bytes of a character that takes four bytes.
proof fn lemma_four_bytes(v: u32)
    by (bit_vector)
    requires
        has_width_4_encoding(v),
    ensures
        0xf0 <= leading_byte_width_4(v) <= 0xf7,
        0x80 <= third_last_continuation_byte(v) <= 0xbf,
        0x80 <= second_last_continuation_byte(v) <= 0xbf,
        0x80 <= last_continuation_byte(v) <= 0xbf,
{
}

/// The bytes of a character, whatever follows them, begin with white space
/// just when the character has the property White_Space, and this white
/// space is the whole character.
pub proof fn lemma_space_before_char(c: char, rest: Seq<u8>)
    ensures
        space_before(utf8(seq![c]) + rest) == if white_space(c) {
            utf8(seq![c]).len() as int
        } else {
            0
        },
        utf8(seq![c]).len() > 0,
{
    let v = c as u32;
    let one = utf8(seq![c]);
    assert(seq![c].drop_first() =~= Seq::<char>::empty());
    assert(utf8(Seq::<char>::empty()) =~= Seq::<u8>::empty());
    assert(one =~= encode_scalar(v) + utf8(seq![c].drop_first()));
    assert(one =~= encode_scalar(v));
    let s = one + rest;
    if has_width_1_encoding(v) {
        lemma_one_byte(v);
        assert(s[0] == one[0]);
    } else if has_width_2_encoding(v) {
        lemma_two_bytes(v);
        assert(s[0] == one[0] && s[1] == one[1]);
    } else if has_width_3_encoding(v) {
        lemma_three_bytes(v);
        assert(s[0] == one[0] && s[1] == one[1] && s[2] == one[2]);
    } else {
        lemma_four_bytes(v);
        assert(s[0] == one[0] && s[1] == one[1] && s[2] == one[2]);
    }
}

/// The bytes of a character, whatever stands before them, end with white
/// space just when the character has the property White_Space, and this
/// white space is the whole character.
pub proof fn lemma_space_behind_char(front: Seq<u8>, c: char)
    ensures
        space_behind(front + utf8(seq![c])) == if white_space(c) {
            utf8(seq![c]).len() as int
        } else {
            0
        },
        utf8(seq![c]).len() > 0,
{
    let v = c as u32;
    let one = utf8(seq![c]);
    assert(seq![c].drop_first() =~= Seq::<char>::empty());
    assert(utf8(Seq::<char>::empty()) =~= Seq::<u8>::empty());
    assert(one =~= encode_scalar(v) + utf8(seq![c].drop_first()));
    assert(one =~= encode_scalar(v));
    let s = front + one;
    let n = s.len() as int;
    if has_width_1_encoding(v) {
        lemma_one_byte(v);
        assert(s[n - 1] == one[0]);
    } else if has_width_2_encoding(v) {
        lemma_two_bytes(v);
        assert(s[n - 1] == one[1] && s[n - 2] == one[0]);
    } else if has_width_3_encoding(v) {
        lemma_three_bytes(v);
        assert(s[n - 1] == one[2] && s[n - 2] == one[1] && s[n - 3] == one[0]);
    } else {
        lemma_four_bytes(v);
        assert(s[n - 1] == one[3] && s[n - 2] == one[2] && s[n - 3] == one[1]);
    }
}

/// The bytes of two texts, one behind the other, are the bytes of the
/// first and behind them the bytes of the second.
pub proof fn lemma_utf8_concat(a: Seq<char>, b: Seq<char>)
    ensures
        utf8(a + b) == utf8(a) + utf8(b),
    decreases a.len(),
{
    if a.len() == 0 {
        assert(a + b =~= b);
        assert(utf8(a) + utf8(b) =~= utf8(b));
    } else {
        assert((a + b).drop_first() =~= a.drop_first() + b);
        lemma_utf8_concat(a.drop_first(), b);
        assert(utf8(a + b) =~= utf8(a) + utf8(b));
    }
}

/// Cutting the white space off the front of the bytes of a text leaves the
/// bytes of the text without its leading white-space characters.
pub proof fn lemma_trim_start_utf8(chars: Seq<char>)
    ensures
        trim_start(utf8(chars)) == utf8(trim_start_chars(chars)),
    decreases chars.len(),
{
    if chars.len() > 0 {
        let c = chars[0];
        let rest = chars.drop_first();
        assert(chars =~= seq![c] + rest);
        lemma_utf8_concat(seq![c], rest);
        lemma_space_before_char(c, utf8(rest));
        if white_space(c) {
            assert(utf8(chars).skip(utf8(seq![c]).len() as int) =~= utf8(rest));
            lemma_trim_start_utf8(rest);
        }
    }
}

/// Cutting the white space off the end of the bytes of a text leaves the
/// bytes of the text without its trailing white-space characters.
pub proof fn lemma_trim_end_utf8(chars: Seq<char>)
    ensures
        trim_end(utf8(chars)) == utf8(trim_end_chars(chars)),
    decreases chars.len(),
{
    if chars.len() > 0 {
        let c = chars.last();
        let front = chars.drop_last();
        assert(chars =~= front + seq![c]);
        lemma_utf8_concat(front, seq![c]);
        lemma_space_behind_char(utf8(front), c);
        if white_space(c) {
            assert(utf8(chars).take(utf8(chars).len() - utf8(seq![c]).len()) =~= utf8(front));
            lemma_trim_end_utf8(front);
        }
    }
}

/// On UTF-8 text, `trimmed` cuts off just the characters with the Unicode
/// property White_Space at either end.
pub proof fn lemma_trimmed_utf8(chars: Seq<char>)
    ensures
        trimmed(utf8(chars)) == utf8(trimmed_chars(chars)),
{
    lemma_trim_start_utf8(chars);
    lemma_trim_end_utf8(trim_start_chars(chars));
}

} // verus!
