//! Text held as bytes: decimal numbers, white space and tokens.

use vstd::prelude::*;
use vstd::string::*;
use vstd::utf8::*;

verus! {

/// What `str::to_lowercase` makes of the text `s`.
pub uninterp spec fn lowercase_of(s: Seq<char>) -> Seq<char>;

/// The lowercase form of `s`, by `str::to_lowercase` of the standard library:
/// every character replaced by its Unicode lowercase mapping. The result is a
/// function of the text alone.
#[verifier::external_body]
pub(crate) fn to_lowercase(s: &str) -> (lower: String)
    ensures
        lower@ == lowercase_of(s@),
{
    s.to_lowercase()
}

/// `bytes` as text, by `std::str::from_utf8`: `Some` exactly where the bytes
/// are valid UTF-8, and then the text that they encode.
#[verifier::external_body]
pub(crate) fn text_of(bytes: &[u8]) -> (text: Option<&str>)
    ensures
        text is Some <==> valid_utf8(bytes@),
        text matches Some(t) ==> t.spec_bytes() == bytes@,
{
    match std::str::from_utf8(bytes) {
        Ok(t) => Some(t),
        Err(_) => None,
    }
}

/// Whether two texts are the same, character by character.
pub fn str_eq(a: &str, b: &str) -> (same: bool)
    ensures
        same == (a@ == b@),
{
    broadcast use encode_utf8_decode_utf8;

    let x = a.as_bytes();
    let y = b.as_bytes();
    if x.len() != y.len() {
        return false;
    }
    let mut i: usize = 0;
    while i < x.len()
        invariant
            x@ == encode_utf8(a@),
            y@ == encode_utf8(b@),
            x@.len() == y@.len(),
            i <= x@.len(),
            forall|k: int| 0 <= k < i ==> x@[k] == y@[k],
        decreases x@.len() - i,
    {
        if x[i] != y[i] {
            assert(x@[i as int] != y@[i as int]);
            assert(encode_utf8(a@) != encode_utf8(b@));
            return false;
        }
        i += 1;
    }
    assert(x@ =~= y@);
    assert(decode_utf8(encode_utf8(a@)) == a@);
    assert(decode_utf8(encode_utf8(b@)) == b@);
    true
}

/// Whether `b` is an ASCII decimal digit.
pub open spec fn is_digit(b: u8) -> bool {
    0x30 <= b <= 0x39
}

/// Whether every byte of `s` is an ASCII decimal digit.
pub open spec fn all_digits(s: Seq<u8>) -> bool {
    forall|i: int| 0 <= i < s.len() ==> is_digit(#[trigger] s[i])
}

/// The number that the decimal digits `s` spell; 0 for the empty sequence.
pub open spec fn digits_value(s: Seq<u8>) -> nat
    decreases s.len(),
{
    if s.len() == 0 {
        0
    } else {
        digits_value(s.drop_last()) * 10 + (s.last() - 0x30) as nat
    }
}

/// The signed 32-bit number that `s` spells: an optional `+` or `-`, then one
/// or more decimal digits and nothing else, the whole within the range of `i32`.
pub open spec fn parse_i32_spec(s: Seq<u8>) -> Option<i32> {
    let signed = s.len() > 0 && (s[0] == 0x2D || s[0] == 0x2B);
    let negative = s.len() > 0 && s[0] == 0x2D;
    let digits = if signed {
        s.subrange(1, s.len() as int)
    } else {
        s
    };
    let magnitude = digits_value(digits) as int;
    let value = if negative {
        -magnitude
    } else {
        magnitude
    };
    if digits.len() == 0 || !all_digits(digits) || value < i32::MIN || value > i32::MAX {
        None
    } else {
        Some(value as i32)
    }
}

/// The unsigned 32-bit number that `s` spells: an optional `+`, then one or
/// more decimal digits and nothing else, the whole within the range of `u32`.
pub open spec fn parse_u32_spec(s: Seq<u8>) -> Option<u32> {
    let signed = s.len() > 0 && s[0] == 0x2B;
    let digits = if signed {
        s.subrange(1, s.len() as int)
    } else {
        s
    };
    let value = digits_value(digits);
    if digits.len() == 0 || !all_digits(digits) || value > u32::MAX {
        None
    } else {
        Some(value as u32)
    }
}

/// The decimal digits of `n`, without leading zeros.
pub open spec fn decimal(n: nat) -> Seq<u8>
    decreases n,
{
    if n < 10 {
        seq![(0x30 + n) as u8]
    } else {
        decimal(n / 10).push((0x30 + n % 10) as u8)
    }
}

/// The decimal form of `i`, with a leading `-` where it is negative.
pub open spec fn decimal_int(i: int) -> Seq<u8> {
    if i < 0 {
        seq![0x2Du8] + decimal((-i) as nat)
    } else {
        decimal(i as nat)
    }
}

/// The length in bytes of the white-space character that starts at `i`; 0 where
/// none starts there. White space is what Unicode marks `White_Space`, in its
/// UTF-8 encoding.
pub open spec fn white_space_len(s: Seq<u8>, i: int) -> int {
    if !(0 <= i < s.len()) {
        0
    } else if (0x09 <= s[i] <= 0x0D) || s[i] == 0x20 {
        1
    } else if i + 1 < s.len() && s[i] == 0xC2 && (s[i + 1] == 0x85 || s[i + 1] == 0xA0) {
        2
    } else if i + 2 < s.len() && s[i] == 0xE1 && s[i + 1] == 0x9A && s[i + 2] == 0x80 {
        3
    } else if i + 2 < s.len() && s[i] == 0xE2 && s[i + 1] == 0x80 && (0x80 <= s[i + 2] <= 0x8A
        || s[i + 2] == 0xA8 || s[i + 2] == 0xA9 || s[i + 2] == 0xAF) {
        3
    } else if i + 2 < s.len() && s[i] == 0xE2 && s[i + 1] == 0x81 && s[i + 2] == 0x9F {
        3
    } else if i + 2 < s.len() && s[i] == 0xE3 && s[i + 1] == 0x80 && s[i + 2] == 0x80 {
        3
    } else {
        0
    }
}

/// The first position at or after `i` where no white space starts.
pub open spec fn token_start(s: Seq<u8>, i: int) -> int
    decreases s.len() - i,
{
    if 0 <= i < s.len() && white_space_len(s, i) > 0 {
        token_start(s, i + white_space_len(s, i))
    } else {
        i
    }
}

/// The first position at or after `i` where white space starts, or the end.
pub open spec fn token_end(s: Seq<u8>, i: int) -> int
    decreases s.len() - i,
{
    if 0 <= i < s.len() && white_space_len(s, i) == 0 {
        token_end(s, i + 1)
    } else {
        i
    }
}

/// The maximal runs without white space in `s` from position `i` on, in order.
pub open spec fn tokens_from(s: Seq<u8>, i: int) -> Seq<Seq<u8>>
    decreases s.len() - i,
{
    let a = token_start(s, i);
    let b = token_end(s, a);
    if i < 0 || a < i || a >= s.len() || b <= a || b > s.len() {
        Seq::empty()
    } else {
        seq![s.subrange(a, b)] + tokens_from(s, b)
    }
}

/// The white-space separated tokens of `s`, in order.
pub open spec fn tokens(s: Seq<u8>) -> Seq<Seq<u8>> {
    tokens_from(s, 0)
}

/// The first position at or after `from` that holds `b`, or the length of `s`
/// where there is none.
pub open spec fn first_index(s: Seq<u8>, from: int, b: u8) -> int
    decreases s.len() - from,
{
    if from < 0 || from >= s.len() {
        s.len() as int
    } else if s[from] == b {
        from
    } else {
        first_index(s, from + 1, b)
    }
}

/// A prefix of a run of digits spells no more than the whole run.
pub proof fn lemma_digits_value_prefix(s: Seq<u8>, k: int)
    requires
        0 <= k <= s.len(),
    ensures
        digits_value(s.subrange(0, k)) <= digits_value(s),
    decreases s.len(),
{
    if k == s.len() {
        assert(s.subrange(0, k) =~= s);
    } else {
        lemma_digits_value_prefix(s.drop_last(), k);
        assert(s.drop_last().subrange(0, k) =~= s.subrange(0, k));
    }
}

/// `decimal(n)` is a non-empty run of digits that spells `n`.
pub proof fn lemma_decimal_round_trip(n: nat)
    ensures
        decimal(n).len() > 0,
        all_digits(decimal(n)),
        digits_value(decimal(n)) == n,
    decreases n,
{
    if n < 10 {
        let d = decimal(n);
        assert(d.drop_last() =~= Seq::<u8>::empty());
        assert(digits_value(d.drop_last()) == 0);
    } else {
        lemma_decimal_round_trip(n / 10);
        let d = decimal(n);
        assert(d.drop_last() =~= decimal(n / 10));
    }
}

/// The decimal form of a 32-bit number parses back to that number.
pub proof fn lemma_parse_decimal_i32(value: i32)
    ensures
        parse_i32_spec(decimal_int(value as int)) == Some(value),
{
    let text = decimal_int(value as int);
    if value < 0 {
        let digits = decimal((-value) as nat);
        lemma_decimal_round_trip((-value) as nat);
        assert(text.subrange(1, text.len() as int) =~= digits);
    } else {
        lemma_decimal_round_trip(value as nat);
        let digits = decimal(value as nat);
        assert(is_digit(digits[0]));
    }
}

/// The decimal form of an unsigned 32-bit number parses back to that number.
pub proof fn lemma_parse_decimal_u32(value: u32)
    ensures
        parse_u32_spec(decimal(value as nat)) == Some(value),
{
    lemma_decimal_round_trip(value as nat);
    let digits = decimal(value as nat);
    assert(is_digit(digits[0]));
}

/// The number that the digits `s` spell, or `None` where `s` is empty, holds
/// something else than a digit, or spells more than `limit`.
fn parse_digits(s: &[u8], limit: u64) -> (r: Option<u64>)
    requires
        limit <= 0xFFFF_FFFF,
    ensures
        r == if s@.len() == 0 || !all_digits(s@) || digits_value(s@) > limit {
            None
        } else {
            Some(digits_value(s@) as u64)
        },
{
    if s.len() == 0 {
        return None;
    }
    let mut acc: u64 = 0;
    let mut i: usize = 0;
    while i < s.len()
        invariant
            i <= s@.len(),
            limit <= 0xFFFF_FFFF,
            acc == digits_value(s@.subrange(0, i as int)),
            acc <= limit,
            all_digits(s@.subrange(0, i as int)),
        decreases s@.len() - i,
    {
        let b = s[i];
        if b < 0x30 || b > 0x39 {
            assert(!is_digit(s@[i as int]));
            return None;
        }
        let ghost prefix = s@.subrange(0, i + 1);
        assert(prefix.drop_last() =~= s@.subrange(0, i as int));
        assert(prefix.last() == b);
        acc = acc * 10 + (b - 0x30) as u64;
        i += 1;
        assert(all_digits(prefix)) by {
            assert forall|k: int| 0 <= k < prefix.len() implies is_digit(#[trigger] prefix[k]) by {
                if k < i - 1 {
                    assert(prefix[k] == s@.subrange(0, i - 1)[k]);
                }
            }
        }
        if acc > limit {
            proof {
                lemma_digits_value_prefix(s@, i as int);
            }
            return None;
        }
    }
    assert(s@.subrange(0, i as int) =~= s@);
    Some(acc)
}

/// Reads a signed 32-bit decimal number that fills `s`.
pub fn parse_i32(s: &[u8]) -> (r: Option<i32>)
    ensures
        r == parse_i32_spec(s@),
{
    if s.len() == 0 {
        return None;
    }
    let negative = s[0] == 0x2D;
    let signed = negative || s[0] == 0x2B;
    let digits = if signed {
        vstd::slice::slice_subrange(s, 1, s.len())
    } else {
        s
    };
    let limit: u64 = if negative {
        0x8000_0000
    } else {
        0x7FFF_FFFF
    };
    match parse_digits(digits, limit) {
        None => None,
        Some(magnitude) => {
            if negative {
                Some((0 - magnitude as i64) as i32)
            } else {
                Some(magnitude as i32)
            }
        },
    }
}

/// Reads an unsigned 32-bit decimal number that fills `s`.
pub fn parse_u32(s: &[u8]) -> (r: Option<u32>)
    ensures
        r == parse_u32_spec(s@),
{
    if s.len() == 0 {
        return None;
    }
    let digits = if s[0] == 0x2B {
        vstd::slice::slice_subrange(s, 1, s.len())
    } else {
        s
    };
    match parse_digits(digits, 0xFFFF_FFFF) {
        None => None,
        Some(value) => Some(value as u32),
    }
}

/// Appends the decimal digits of `n`.
pub fn push_decimal(out: &mut Vec<u8>, n: u64)
    ensures
        final(out)@ == old(out)@ + decimal(n as nat),
    decreases n,
{
    if n >= 10 {
        push_decimal(out, n / 10);
    }
    out.push(0x30 + (n % 10) as u8);
    assert(out@ =~= old(out)@ + decimal(n as nat));
}

/// Appends the decimal form of `value`, with a leading `-` where it is negative.
pub fn push_decimal_i32(out: &mut Vec<u8>, value: i32)
    ensures
        final(out)@ == old(out)@ + decimal_int(value as int),
{
    if value < 0 {
        out.push(0x2D);
        push_decimal(out, (0 - value as i64) as u64);
        assert(out@ =~= old(out)@ + decimal_int(value as int));
    } else {
        push_decimal(out, value as u64);
    }
}

/// The length of the white-space character that starts at `i`, 0 where none does.
pub fn white_space_at(s: &[u8], i: usize) -> (len: usize)
    ensures
        len as int == white_space_len(s@, i as int),
        len <= 3,
        i + len <= s@.len() || len == 0,
{
    let n = s.len();
    if i >= n {
        return 0;
    }
    let b0 = s[i];
    if (0x09 <= b0 && b0 <= 0x0D) || b0 == 0x20 {
        return 1;
    }
    if n - i < 2 {
        return 0;
    }
    let b1 = s[i + 1];
    if b0 == 0xC2 && (b1 == 0x85 || b1 == 0xA0) {
        return 2;
    }
    if n - i < 3 {
        return 0;
    }
    let b2 = s[i + 2];
    if b0 == 0xE1 && b1 == 0x9A && b2 == 0x80 {
        3
    } else if b0 == 0xE2 && b1 == 0x80 && ((0x80 <= b2 && b2 <= 0x8A) || b2 == 0xA8 || b2 == 0xA9
        || b2 == 0xAF) {
        3
    } else if b0 == 0xE2 && b1 == 0x81 && b2 == 0x9F {
        3
    } else if b0 == 0xE3 && b1 == 0x80 && b2 == 0x80 {
        3
    } else {
        0
    }
}

/// Skips the white space at `i`.
pub fn skip_white_space(s: &[u8], i: usize) -> (a: usize)
    requires
        i <= s@.len(),
    ensures
        a as int == token_start(s@, i as int),
        i <= a <= s@.len(),
{
    let mut a: usize = i;
    let _ = s.len();
    loop
        invariant
            i <= a <= s@.len() <= usize::MAX,
            token_start(s@, a as int) == token_start(s@, i as int),
        ensures
            a as int == token_start(s@, i as int),
            i <= a <= s@.len(),
        decreases s@.len() - a,
    {
        let len = white_space_at(s, a);
        if len == 0 {
            break;
        }
        a += len;
    }
    a
}

/// Finds where the token that starts at `a` ends.
pub fn find_token_end(s: &[u8], a: usize) -> (b: usize)
    requires
        a <= s@.len(),
    ensures
        b as int == token_end(s@, a as int),
        a <= b <= s@.len(),
        a < s@.len() && white_space_len(s@, a as int) == 0 ==> a < b,
{
    let mut b: usize = a;
    loop
        invariant
            a <= b <= s@.len(),
            token_end(s@, b as int) == token_end(s@, a as int),
            a < s@.len() && white_space_len(s@, a as int) == 0 ==> a < b || b == a,
            b == a || a < b,
        ensures
            b as int == token_end(s@, a as int),
            a <= b <= s@.len(),
            a < s@.len() && white_space_len(s@, a as int) == 0 ==> a < b,
        decreases s@.len() - b,
    {
        if b >= s.len() {
            break;
        }
        let len = white_space_at(s, b);
        if len > 0 {
            break;
        }
        b += 1;
    }
    b
}

/// Finds the first `b` at or after `from`; the length of `s` where there is none.
pub fn find_byte(s: &[u8], from: usize, b: u8) -> (at: usize)
    requires
        from <= s@.len(),
    ensures
        at as int == first_index(s@, from as int, b),
        from <= at <= s@.len(),
        at < s@.len() ==> s@[at as int] == b,
        forall|k: int| from <= k < at ==> s@[k] != b,
{
    let mut at: usize = from;
    while at < s.len() && s[at] != b
        invariant
            from <= at <= s@.len(),
            first_index(s@, at as int, b) == first_index(s@, from as int, b),
            forall|k: int| from <= k < at ==> s@[k] != b,
        decreases s@.len() - at,
    {
        at += 1;
    }
    at
}

/// The part of `s` before byte position `at`, which is the end of `s` or
/// holds an ASCII byte.
pub fn text_before<'a>(s: &'a str, at: usize) -> (head: &'a str)
    requires
        at <= s.spec_bytes().len(),
        at < s.spec_bytes().len() ==> s.spec_bytes()[at as int] < 0x80,
    ensures
        head.spec_bytes() == s.spec_bytes().subrange(0, at as int),
        head@ == decode_utf8(s.spec_bytes().subrange(0, at as int)),
{
    broadcast use {
        encode_utf8_valid_utf8,
        encode_utf8_decode_utf8,
        is_char_boundary_start_end_of_seq,
        is_char_boundary_iff_not_is_continuation_byte,
    };

    let ghost bytes = s.spec_bytes();
    assert(valid_utf8(bytes));
    assert(is_char_boundary(bytes, at as int)) by {
        if at < bytes.len() {
            assert(!is_continuation_byte(bytes[at as int]));
        }
    }
    let (head, _) = s.split_at(at);
    assert(decode_utf8(encode_utf8(head@)) == head@);
    head
}

/// Whether `b` is an ASCII byte that is no white space.
pub open spec fn is_solid(b: u8) -> bool {
    b < 0x80 && !(0x09 <= b <= 0x0D) && b != 0x20
}

/// Whether `word` is not empty and holds ASCII bytes only, none of them white
/// space.
pub open spec fn is_word(word: Seq<u8>) -> bool {
    word.len() > 0 && forall|k: int| 0 <= k < word.len() ==> is_solid(#[trigger] word[k])
}

/// The words `words` with one space between any two of them.
pub open spec fn joined(words: Seq<Seq<u8>>) -> Seq<u8>
    decreases words.len(),
{
    if words.len() == 0 {
        Seq::empty()
    } else if words.len() == 1 {
        words[0]
    } else {
        words[0] + seq![0x20u8] + joined(words.drop_first())
    }
}

/// A run of ASCII bytes without white space, with white space or the end
/// behind it, is one token.
pub proof fn lemma_solid_token_end(s: Seq<u8>, a: int, b: int)
    requires
        0 <= a <= b <= s.len(),
        forall|k: int| a <= k < b ==> is_solid(#[trigger] s[k]),
        b == s.len() || white_space_len(s, b) > 0,
    ensures
        token_end(s, a) == b,
    decreases b - a,
{
    if a < b {
        assert(is_solid(s[a]));
        lemma_solid_token_end(s, a + 1, b);
    }
}

/// Where the skipping of white space stops, no white space starts.
pub proof fn lemma_token_start_stops(s: Seq<u8>, i: int)
    requires
        0 <= i,
    ensures
        white_space_len(s, token_start(s, i)) == 0 || token_start(s, i) >= s.len(),
        token_start(s, i) >= i,
    decreases s.len() - i,
{
    if i < s.len() && white_space_len(s, i) > 0 {
        lemma_token_start_stops(s, i + white_space_len(s, i));
    }
}

/// The tokens behind a space or a line end are the tokens from it on.
pub proof fn lemma_skip_one(s: Seq<u8>, i: int)
    requires
        0 <= i < s.len(),
        s[i] == 0x20 || s[i] == 0x0A,
    ensures
        tokens_from(s, i) == tokens_from(s, i + 1),
{
    assert(white_space_len(s, i) == 1);
    assert(token_start(s, i) == token_start(s, i + 1));
    lemma_token_start_stops(s, i + 1);
}

/// A line of words with one space between them and a line end behind them
/// divides into exactly those words.
pub proof fn lemma_words_are_tokens(s: Seq<u8>, i: int, words: Seq<Seq<u8>>)
    requires
        0 <= i <= s.len(),
        words.len() > 0,
        forall|k: int| 0 <= k < words.len() ==> is_word(#[trigger] words[k]),
        s.subrange(i, s.len() as int) == joined(words) + seq![0x0Au8],
    ensures
        tokens_from(s, i) == words,
    decreases words.len(),
{
    let line = joined(words) + seq![0x0Au8];
    let first = words[0];
    let end = i + first.len();
    assert(is_word(first));
    assert forall|k: int| 0 <= k < line.len() implies s[i + k] == line[k] by {
        assert(s.subrange(i, s.len() as int)[k] == s[i + k]);
    }
    assert(s.len() - i == line.len());
    if words.len() == 1 {
        assert(line =~= first + seq![0x0Au8]);
        assert forall|k: int| i <= k < end implies is_solid(#[trigger] s[k]) by {
            assert(s[k] == line[k - i]);
            assert(line[k - i] == first[k - i]);
        }
        assert(s[end] == line[first.len() as int]);
        assert(s[end] == 0x0A);
        assert(white_space_len(s, end) == 1);
        lemma_solid_token_end(s, i, end);
        assert(is_solid(s[i]));
        assert(token_start(s, i) == i);
        lemma_skip_one(s, end);
        assert(end + 1 == s.len());
        assert(token_start(s, end + 1) == end + 1);
        assert(tokens_from(s, end + 1) =~= Seq::<Seq<u8>>::empty());
        assert(s.subrange(i, end) =~= first);
        assert(tokens_from(s, i) =~= seq![first] + tokens_from(s, end));
        assert(tokens_from(s, i) =~= words);
    } else {
        let rest = words.drop_first();
        assert(joined(words) == first + seq![0x20u8] + joined(rest));
        assert forall|k: int| i <= k < end implies is_solid(#[trigger] s[k]) by {
            assert(s[k] == line[k - i]);
            assert(line[k - i] == first[k - i]);
        }
        assert(s[end] == line[first.len() as int]);
        assert(s[end] == 0x20);
        assert(white_space_len(s, end) == 1);
        lemma_solid_token_end(s, i, end);
        assert(is_solid(s[i]));
        assert(token_start(s, i) == i);
        lemma_skip_one(s, end);
        let tail = joined(rest) + seq![0x0Au8];
        assert(line =~= first + seq![0x20u8] + tail);
        assert(s.len() - (end + 1) == tail.len());
        assert forall|k: int| 0 <= k < tail.len() implies s.subrange(end + 1, s.len() as int)[k]
            == tail[k] by {
            assert(s[end + 1 + k] == line[first.len() + 1 + k]);
        }
        assert(s.subrange(end + 1, s.len() as int) =~= tail);
        assert forall|k: int| 0 <= k < rest.len() implies is_word(#[trigger] rest[k]) by {
            assert(rest[k] == words[k + 1]);
        }
        lemma_words_are_tokens(s, end + 1, rest);
        assert(s.subrange(i, end) =~= first);
        assert(tokens_from(s, i) =~= seq![first] + tokens_from(s, end));
        assert(seq![first] + rest =~= words);
    }
}

/// The first place of a byte is not within a stretch that does not hold it.
pub proof fn lemma_first_index_skips(s: Seq<u8>, from: int, to: int, b: u8)
    requires
        0 <= from <= to <= s.len(),
        forall|k: int| from <= k < to ==> s[k] != b,
    ensures
        first_index(s, from, b) == first_index(s, to, b),
    decreases to - from,
{
    if from < to {
        lemma_first_index_skips(s, from + 1, to, b);
    }
}

/// The decimal digits of a number make a word, and none of them is a colon.
pub proof fn lemma_decimal_is_word(n: nat)
    ensures
        is_word(decimal(n)),
        forall|k: int| 0 <= k < decimal(n).len() ==> #[trigger] decimal(n)[k] != 0x3A,
{
    lemma_decimal_round_trip(n);
    let digits = decimal(n);
    assert forall|k: int| 0 <= k < digits.len() implies is_solid(#[trigger] digits[k]) by {
        assert(is_digit(digits[k]));
    }
    assert forall|k: int| 0 <= k < digits.len() implies #[trigger] digits[k] != 0x3A by {
        assert(is_digit(digits[k]));
    }
}

/// The decimal form of a number, with its sign, makes a word.
pub proof fn lemma_decimal_int_is_word(i: int)
    ensures
        is_word(decimal_int(i)),
{
    if i < 0 {
        lemma_decimal_is_word((-i) as nat);
        let digits = decimal((-i) as nat);
        let text = decimal_int(i);
        assert forall|k: int| 0 <= k < text.len() implies is_solid(#[trigger] text[k]) by {
            if k > 0 {
                assert(text[k] == digits[k - 1]);
                assert(is_solid(digits[k - 1]));
            }
        }
    } else {
        lemma_decimal_is_word(i as nat);
    }
}

/// Only whole numbers are numbers: a text that holds anything but decimal
/// digits behind an optional `+`, be it a decimal point, an exponent or a
/// `-`, spells no unsigned number.
pub proof fn lemma_parse_u32_whole_only(s: Seq<u8>, k: int)
    requires
        0 <= k < s.len(),
        !is_digit(s[k]),
        k > 0 || s[0] != 0x2B,
    ensures
        parse_u32_spec(s) is None,
{
    if s[0] == 0x2B {
        let digits = s.subrange(1, s.len() as int);
        assert(digits[k - 1] == s[k]);
        assert(!is_digit(digits[k - 1]));
    }
}

} // verus!
