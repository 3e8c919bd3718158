//! Percent-encoded paths.

use vstd::prelude::*;

verus! {

broadcast use vstd::string::group_string_axioms;

/// The value of a hexadecimal digit in either letter case.
pub open spec fn hex_digit_value(b: u8) -> Option<u8> {
    if '0' as u8 <= b <= '9' as u8 {
        Some((b - '0' as u8) as u8)
    } else if 'a' as u8 <= b <= 'f' as u8 {
        Some((b - 'a' as u8 + 10) as u8)
    } else if 'A' as u8 <= b <= 'F' as u8 {
        Some((b - 'A' as u8 + 10) as u8)
    } else {
        None
    }
}

/// The number that the two characters of an escape write: two hexadecimal digits, or a plus sign
/// and one.
pub open spec fn escape_value(hi: u8, lo: u8) -> Option<u8> {
    if hi == '+' as u8 {
        hex_digit_value(lo)
    } else {
        match (hex_digit_value(hi), hex_digit_value(lo)) {
            (Some(h), Some(l)) => Some((h * 16 + l) as u8),
            _ => None,
        }
    }
}

/// At `i` stands an escape: a percent sign and the two characters of a number.
pub open spec fn escape_at(b: Seq<u8>, i: int) -> bool {
    &&& 0 <= i
    &&& i + 2 < b.len()
    &&& b[i] == '%' as u8
    &&& escape_value(b[i + 1], b[i + 2]) is Some
}

/// What the bytes `b` decode to from `i` on: each escape to the character with the escape's
/// number, and every other byte to the character with its number.
pub open spec fn decoded_from(b: Seq<u8>, i: int) -> Seq<char>
    decreases b.len() - i,
{
    if i < 0 || i >= b.len() {
        seq![]
    } else if escape_at(b, i) {
        seq![escape_value(b[i + 1], b[i + 2])->0 as char] + decoded_from(b, i + 3)
    } else {
        seq![b[i] as char] + decoded_from(b, i + 1)
    }
}

/// What a percent-encoded text decodes to.
pub open spec fn percent_decoded(s: Seq<char>) -> Seq<char> {
    decoded_from(vstd::utf8::encode_utf8(s), 0)
}

/// The two bytes after each percent sign are whole characters: no character begins in them and
/// ends behind them.
pub open spec fn escapes_are_whole(b: Seq<u8>) -> bool {
    forall|i: int|
        0 <= i && i + 2 < b.len() && #[trigger] b[i] == '%' as u8 ==> vstd::utf8::is_char_boundary(
            b,
            i + 3,
        )
}

fn hex_digit(b: u8) -> (r: Option<u8>)
    ensures
        r == hex_digit_value(b),
{
    if '0' as u8 <= b && b <= '9' as u8 {
        Some(b - '0' as u8)
    } else if 'a' as u8 <= b && b <= 'f' as u8 {
        Some(b - 'a' as u8 + 10)
    } else if 'A' as u8 <= b && b <= 'F' as u8 {
        Some(b - 'A' as u8 + 10)
    } else {
        None
    }
}

fn escape(hi: u8, lo: u8) -> (r: Option<u8>)
    ensures
        r == escape_value(hi, lo),
{
    if hi == '+' as u8 {
        return hex_digit(lo);
    }
    match (hex_digit(hi), hex_digit(lo)) {
        (Some(h), Some(l)) => Some(h * 16 + l),
        _ => None,
    }
}

/// Whether `percent_decode` can decode `s`.
pub fn percent_decodable(s: &str) -> (r: bool)
    ensures
        r == escapes_are_whole(vstd::utf8::encode_utf8(s@)),
{
    let bytes = s.as_bytes();
    let mut i: usize = 0;
    while i < bytes.len() && bytes.len() - i > 2
        invariant
            i <= bytes.len(),
            bytes@ == vstd::utf8::encode_utf8(s@),
            forall|j: int|
                0 <= j < i && j + 2 < bytes@.len() && #[trigger] bytes@[j] == '%' as u8
                    ==> vstd::utf8::is_char_boundary(bytes@, j + 3),
        decreases bytes.len() - i,
    {
        if bytes[i] == '%' as u8 && !s.is_char_boundary(i + 3) {
            assert(bytes@[i as int] == '%' as u8);
            return false;
        }
        i += 1;
    }
    true
}

/// Decodes the percent-encoded text `s` byte by byte. A percent sign that no escape follows stands
/// for itself.
pub fn percent_decode(s: &str) -> (r: String)
    requires
        escapes_are_whole(vstd::utf8::encode_utf8(s@)),
    ensures
        r@ == percent_decoded(s@),
{
    let bytes = s.as_bytes();
    let mut out = String::new();
    let mut i: usize = 0;
    while i < bytes.len()
        invariant
            i <= bytes.len(),
            bytes@ == vstd::utf8::encode_utf8(s@),
            out@ + decoded_from(bytes@, i as int) == percent_decoded(s@),
        decreases bytes.len() - i,
    {
        if bytes[i] == '%' as u8 && bytes.len() - i > 2 {
            if let Some(b) = escape(bytes[i + 1], bytes[i + 2]) {
                out.push(b as char);
                i += 3;
                continue;
            }
        }
        out.push(bytes[i] as char);
        i += 1;
    }
    out
}

/// A text of ASCII characters without a percent sign decodes to itself.
pub proof fn law_plain_text_stays(s: Seq<char>)
    requires
        vstd::utf8::is_ascii_chars(s),
        !s.contains('%'),
    ensures
        percent_decoded(s) == s,
{
    vstd::utf8::is_ascii_chars_encode_utf8(s);
    lemma_plain_from(s, vstd::utf8::encode_utf8(s), 0);
    assert(s.skip(0) == s);
}

proof fn lemma_plain_from(s: Seq<char>, b: Seq<u8>, i: int)
    requires
        vstd::utf8::is_ascii_chars(s),
        !s.contains('%'),
        b.len() == s.len(),
        forall|k: int| 0 <= k < s.len() ==> s[k] as u8 == #[trigger] b[k],
        0 <= i <= s.len(),
    ensures
        decoded_from(b, i) == s.skip(i),
    decreases s.len() - i,
{
    if i < s.len() {
        assert(s.contains(s[i]));
        assert(s[i] as u8 == b[i]);
        lemma_plain_from(s, b, i + 1);
        assert(s.skip(i) == seq![s[i]] + s.skip(i + 1));
    }
}

/// The capital hexadecimal digit for `d`, which is less than sixteen.
pub open spec fn upper_hex_digit(d: int) -> u8 {
    if d < 10 {
        ('0' as u8 + d) as u8
    } else {
        ('A' as u8 + d - 10) as u8
    }
}

/// Each of the bytes as an escape.
pub open spec fn percent_encoded(bytes: Seq<u8>) -> Seq<u8> {
    Seq::new(
        3 * bytes.len(),
        |i: int|
            if i % 3 == 0 {
                '%' as u8
            } else if i % 3 == 1 {
                upper_hex_digit(bytes[i / 3] as int / 16)
            } else {
                upper_hex_digit(bytes[i / 3] as int % 16)
            },
    )
}

/// Decoding gives back every byte that was written as an escape.
pub proof fn law_escapes_are_undone(bytes: Seq<u8>)
    ensures
        decoded_from(percent_encoded(bytes), 0) == bytes.map_values(|b: u8| b as char),
{
    lemma_undone_from(bytes, 0);
    assert(bytes.skip(0) == bytes);
}

proof fn lemma_undone_from(bytes: Seq<u8>, k: int)
    requires
        0 <= k <= bytes.len(),
    ensures
        decoded_from(percent_encoded(bytes), 3 * k) == bytes.skip(k).map_values(|b: u8| b as char),
    decreases bytes.len() - k,
{
    let chars = bytes.skip(k).map_values(|b: u8| b as char);
    if k < bytes.len() {
        let e = percent_encoded(bytes);
        assert(e[3 * k] == '%' as u8);
        assert(e[3 * k + 1] == upper_hex_digit(bytes[k] as int / 16));
        assert(e[3 * k + 2] == upper_hex_digit(bytes[k] as int % 16));
        assert(escape_value(e[3 * k + 1], e[3 * k + 2]) == Some(bytes[k]));
        lemma_undone_from(bytes, k + 1);
        assert(chars == seq![bytes[k] as char] + bytes.skip(k + 1).map_values(|b: u8| b as char));
    } else {
        assert(chars == Seq::<char>::empty());
    }
}

proof fn lemma_decoding_goes_on(a: Seq<u8>, i: int, b: Seq<u8>, j: int)
    requires
        0 <= i <= a.len(),
        0 <= j <= b.len(),
        a.skip(i) == b.skip(j),
    ensures
        decoded_from(a, i) == decoded_from(b, j),
    decreases a.len() - i,
{
    assert(a.len() - i == a.skip(i).len() == b.skip(j).len() == b.len() - j);
    if i < a.len() {
        assert(a.skip(i)[0] == a[i] && b.skip(j)[0] == b[j]);
        if i + 2 < a.len() {
            assert(a.skip(i)[1] == a[i + 1] && b.skip(j)[1] == b[j + 1]);
            assert(a.skip(i)[2] == a[i + 2] && b.skip(j)[2] == b[j + 2]);
        }
        let step: int = if escape_at(a, i) {
            3
        } else {
            1
        };
        assert(escape_at(a, i) == escape_at(b, j));
        assert(a.skip(i).skip(step) =~= a.skip(i + step));
        assert(b.skip(j).skip(step) =~= b.skip(j + step));
        lemma_decoding_goes_on(a, i + step, b, j + step);
    }
}

/// A text is decoded from its bytes on, piece by piece: a byte that is no percent sign becomes the
/// character with its number; a percent sign with two hexadecimal digits, in either letter case,
/// becomes the character with the number that they write; a plus sign can stand for the first of
/// them; a percent sign in front of anything else, or too near the end, stands for itself.
pub proof fn law_pieces_are_decoded_in_turn(byte: u8, hi: u8, lo: u8, rest: Seq<u8>)
    ensures
        ({
            let decoded = |b: Seq<u8>| decoded_from(b, 0);
            let value = |b: u8|
                if 48 <= b <= 57 {
                    b - 48
                } else if 65 <= b <= 70 {
                    b - 55
                } else if 97 <= b <= 102 {
                    b - 87
                } else {
                    -1
                };
            let escaped = decoded(seq![37u8, hi, lo] + rest);
            &&& decoded(seq![]) == Seq::<char>::empty()
            &&& byte != 37 ==> decoded(seq![byte] + rest) == seq![byte as char] + decoded(rest)
            &&& value(hi) >= 0 && value(lo) >= 0 ==> escaped == seq![
                (16 * value(hi) + value(lo)) as char,
            ] + decoded(rest)
            &&& hi == 43 && value(lo) >= 0 ==> escaped == seq![value(lo) as char] + decoded(rest)
            &&& value(lo) < 0 || (value(hi) < 0 && hi != 43) ==> escaped == seq!['%'] + decoded(
                seq![hi, lo] + rest,
            )
            &&& decoded(seq![37u8]) == seq!['%']
            &&& decoded(seq![37u8, hi]) == seq!['%'] + decoded(seq![hi])
        }),
        forall|s: Seq<char>| #[trigger]
            percent_decoded(s) == decoded_from(vstd::utf8::encode_utf8(s), 0),
{
    let one = seq![byte] + rest;
    assert(one.skip(1) =~= rest.skip(0));
    lemma_decoding_goes_on(one, 1, rest, 0);
    let three = seq![37u8, hi, lo] + rest;
    assert(three[0] == 37 && three[1] == hi && three[2] == lo);
    assert(three.skip(3) =~= rest.skip(0));
    lemma_decoding_goes_on(three, 3, rest, 0);
    let two = seq![hi, lo] + rest;
    assert(three.skip(1) =~= two.skip(0));
    lemma_decoding_goes_on(three, 1, two, 0);
    let lone = seq![37u8];
    assert(!escape_at(lone, 0));
    assert(decoded_from(lone, 1) =~= Seq::<char>::empty());
    let short = seq![37u8, hi];
    assert(!escape_at(short, 0));
    assert(short.skip(1) =~= seq![hi].skip(0));
    lemma_decoding_goes_on(short, 1, seq![hi], 0);
    assert(decoded_from(lone, 0) =~= seq!['%']);
}

/// A text can be decoded unless the two bytes behind a percent sign end inside a character, that is
/// in front of a byte that goes on with one. A text of ASCII characters can always be decoded.
pub proof fn law_what_can_be_decoded(s: Seq<char>)
    ensures
        ({
            let b = vstd::utf8::encode_utf8(s);
            escapes_are_whole(b) <==> forall|i: int|
                0 <= i && i + 3 < b.len() && #[trigger] b[i] == 37 ==> !(128 <= b[i + 3] <= 191)
        }),
        vstd::utf8::is_ascii_chars(s) ==> escapes_are_whole(vstd::utf8::encode_utf8(s)),
{
    let b = vstd::utf8::encode_utf8(s);
    vstd::utf8::encode_utf8_valid_utf8(s);
    vstd::utf8::is_char_boundary_start_end_of_seq(b);
    assert forall|i: int| 0 <= i && i + 3 < b.len() implies (vstd::utf8::is_char_boundary(
        b,
        #[trigger] (i + 3),
    ) <==> !(128 <= b[i + 3] <= 191)) by {
        vstd::utf8::is_char_boundary_iff_not_is_continuation_byte(b, i + 3);
        vstd::utf8::utf8_byte_ranges_bitwise(b[i + 3]);
    }
    if escapes_are_whole(b) {
        assert forall|i: int| 0 <= i && i + 3 < b.len() && #[trigger] b[i] == 37 implies !(128 <= b[i
            + 3] <= 191) by {
            assert(vstd::utf8::is_char_boundary(b, i + 3));
        }
    }
    if forall|i: int|
        0 <= i && i + 3 < b.len() && #[trigger] b[i] == 37 ==> !(128 <= b[i + 3] <= 191) {
        assert forall|i: int|
            0 <= i && i + 2 < b.len() && #[trigger] b[i] == '%' as u8 implies vstd::utf8::is_char_boundary(
            b,
            i + 3,
        ) by {
            if i + 3 < b.len() {
                assert(!(128 <= b[i + 3] <= 191));
            }
        }
    }
    if vstd::utf8::is_ascii_chars(s) {
        vstd::utf8::is_ascii_chars_encode_utf8(s);
        vstd::utf8::is_ascii_chars_nat_bound(s);
    }
}

} // verus!
