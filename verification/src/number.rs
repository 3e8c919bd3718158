//! Unsigned numbers as text: reading decimal numbers, writing decimal and hexadecimal ones.

use vstd::prelude::*;

verus! {

/// `c` is one of the ten decimal digits.
pub open spec fn digit(c: char) -> bool {
    '0' <= c <= '9'
}

/// Every character of `s` is a decimal digit.
pub open spec fn all_digits(s: Seq<char>) -> bool {
    forall|i: int| 0 <= i < s.len() ==> digit(#[trigger] s[i])
}

/// The number that the decimal digits `s` write, most significant digit first.
pub open spec fn decimal_value(s: Seq<char>) -> nat
    decreases s.len(),
{
    if s.len() == 0 {
        0
    } else {
        decimal_value(s.drop_last()) * 10 + (s.last() as nat - '0' as nat) as nat
    }
}

/// `s` without a plus sign in front.
pub open spec fn without_plus(s: Seq<char>) -> Seq<char> {
    if s.len() > 0 && s[0] == '+' {
        s.drop_first()
    } else {
        s
    }
}

/// The number that `s` writes: decimal digits, at least one, after at most one plus sign, for a
/// number that 64 bits hold.
pub open spec fn unsigned_value(s: Seq<char>) -> Option<u64> {
    let digits = without_plus(s);
    if digits.len() > 0 && all_digits(digits) && decimal_value(digits) <= u64::MAX {
        Some(decimal_value(digits) as u64)
    } else {
        None
    }
}

/// The decimal digit for `d`, which is less than ten.
pub open spec fn digit_char(d: nat) -> char {
    (('0' as nat) + d) as char
}

/// The decimal digits of `n`, without leading zeros.
pub open spec fn decimal(n: nat) -> Seq<char>
    decreases n,
{
    if n < 10 {
        seq![digit_char(n)]
    } else {
        decimal(n / 10).push(digit_char(n % 10))
    }
}

/// `n` zeros.
pub open spec fn zeros(n: int) -> Seq<char> {
    Seq::new(if n > 0 { n as nat } else { 0 }, |i: int| '0')
}

/// The decimal digits of `n`, with zeros in front up to `width` characters.
pub open spec fn padded_decimal(n: nat, width: int) -> Seq<char> {
    zeros(width - decimal(n).len()) + decimal(n)
}

/// The hexadecimal digit, with small letters, for `d`, which is less than sixteen.
pub open spec fn hex_char(d: nat) -> char {
    if d < 10 {
        digit_char(d)
    } else {
        (('a' as nat) + d - 10) as char
    }
}

/// The `width` low hexadecimal digits of `n`, with small letters.
pub open spec fn hex(n: nat, width: nat) -> Seq<char>
    decreases width,
{
    if width == 0 {
        seq![]
    } else {
        hex(n / 16, (width - 1) as nat).push(hex_char(n % 16))
    }
}

proof fn lemma_prefix_value(s: Seq<char>, i: int)
    requires
        0 <= i <= s.len(),
        all_digits(s),
    ensures
        decimal_value(s.take(i)) <= decimal_value(s),
    decreases s.len() - i,
{
    if i == s.len() {
        assert(s.take(i) == s);
    } else {
        lemma_prefix_value(s, i + 1);
        assert(s.take(i + 1).drop_last() == s.take(i));
    }
}

/// The number that `s` writes, if it writes one.
pub fn parse_unsigned(s: &[char]) -> (r: Option<u64>)
    ensures
        r == unsigned_value(s@),
{
    let from: usize = if s.len() > 0 && s[0] == '+' {
        1
    } else {
        0
    };
    let ghost digits = without_plus(s@);
    assert(digits == s@.skip(from as int));
    if s.len() == from {
        return None;
    }
    let mut i: usize = from;
    let mut value: u64 = 0;
    while i < s.len()
        invariant
            from <= i <= s.len(),
            digits == s@.skip(from as int),
            all_digits(digits.take(i - from)),
            value == decimal_value(digits.take(i - from)),
            digits == without_plus(s@),
        decreases s.len() - i,
    {
        let c = s[i];
        assert(c == digits[i - from]);
        if !('0' <= c && c <= '9') {
            return None;
        }
        let d: u64 = c as u64 - '0' as u64;
        let ghost next = digits.take(i + 1 - from);
        proof {
            assert(next.drop_last() == digits.take(i - from));
            assert(decimal_value(next) == value * 10 + d);
            if all_digits(digits) {
                lemma_prefix_value(digits, i + 1 - from);
            }
        }
        if value > (u64::MAX - d) / 10 {
            assert(decimal_value(next) > u64::MAX);
            return None;
        }
        value = value * 10 + d;
        i += 1;
        assert(digits.take(i - from) == next);
    }
    assert(digits.take(i - from) == digits);
    Some(value)
}

/// Appends the decimal digits of `n` to `out`.
pub fn push_decimal(out: &mut String, n: u64)
    ensures
        final(out)@ == old(out)@ + decimal(n as nat),
    decreases n,
{
    if n < 10 {
        out.push(('0' as u8 + n as u8) as char);
    } else {
        push_decimal(out, n / 10);
        out.push(('0' as u8 + (n % 10) as u8) as char);
    }
}

fn decimal_len(n: u64) -> (r: usize)
    ensures
        r == decimal(n as nat).len(),
        1 <= r <= 20,
{
    let mut len: usize = 1;
    let mut rest: u64 = n;
    proof {
        lemma_decimal_len(n);
    }
    while rest >= 10
        invariant
            len >= 1,
            len - 1 + decimal(rest as nat).len() == decimal(n as nat).len(),
            decimal(n as nat).len() <= 20,
        decreases rest,
    {
        rest = rest / 10;
        len += 1;
    }
    len
}

/// Appends the decimal digits of `n` to `out`, with zeros in front up to `width` characters.
pub fn push_padded_decimal(out: &mut String, n: u64, width: usize)
    ensures
        final(out)@ == old(out)@ + padded_decimal(n as nat, width as int),
{
    let len = decimal_len(n);
    let mut k: usize = len;
    while k < width
        invariant
            len == decimal(n as nat).len(),
            len <= k,
            k <= width || k == len,
            out@ == old(out)@ + zeros(k - len),
        decreases width - k,
    {
        out.push('0');
        k += 1;
        assert(zeros(k - len) == zeros(k - 1 - len).push('0'));
    }
    assert(zeros(k - len) == zeros(width - len));
    push_decimal(out, n);
}

/// Appends the `width` low hexadecimal digits of `n` to `out`.
pub fn push_hex(out: &mut String, n: u64, width: usize)
    ensures
        final(out)@ == old(out)@ + hex(n as nat, width as nat),
    decreases width,
{
    if width > 0 {
        push_hex(out, n / 16, width - 1);
        let d: u8 = (n % 16) as u8;
        if d < 10 {
            out.push(('0' as u8 + d) as char);
        } else {
            out.push(('a' as u8 + (d - 10)) as char);
        }
    }
}

spec fn pow10(k: nat) -> nat
    decreases k,
{
    if k == 0 {
        1
    } else {
        10 * pow10((k - 1) as nat)
    }
}

proof fn lemma_decimal_len_pow(n: nat, k: nat)
    requires
        n < pow10(k),
        k >= 1,
    ensures
        1 <= decimal(n).len() <= k,
    decreases k,
{
    if n >= 10 {
        if k == 1 {
            reveal_with_fuel(pow10, 2);
        }
        lemma_decimal_len_pow(n / 10, (k - 1) as nat);
    }
}

proof fn lemma_decimal_len(n: u64)
    ensures
        1 <= decimal(n as nat).len() <= 20,
{
    reveal_with_fuel(pow10, 21);
    lemma_decimal_len_pow(n as nat, 20);
}

/// Reading a written number gives the number back.
pub proof fn law_decimal_reads_back(n: u64)
    ensures
        unsigned_value(decimal(n as nat)) == Some(n),
{
    lemma_decimal_digits(n as nat);
    assert(digit(decimal(n as nat)[0]));
}

/// The decimal digits of a number are digits, at least one, and write the number.
pub proof fn lemma_decimal_digits(n: nat)
    ensures
        decimal(n).len() > 0,
        all_digits(decimal(n)),
        decimal_value(decimal(n)) == n,
    decreases n,
{
    if n < 10 {
        reveal_with_fuel(decimal_value, 2);
        assert(decimal(n).drop_last() == Seq::<char>::empty());
    } else {
        lemma_decimal_digits(n / 10);
        assert(decimal(n).drop_last() == decimal(n / 10));
    }
}

/// Two numbers with the same sixteen hexadecimal digits are the same.
pub proof fn law_hex_tells_apart(a: u64, b: u64)
    requires
        hex(a as nat, 16) == hex(b as nat, 16),
    ensures
        a == b,
{
    lemma_hex_value(a as nat, 16);
    lemma_hex_value(b as nat, 16);
    reveal_with_fuel(pow16, 17);
}

spec fn pow16(k: nat) -> nat
    decreases k,
{
    if k == 0 {
        1
    } else {
        16 * pow16((k - 1) as nat)
    }
}

spec fn hex_digit_value(c: char) -> nat {
    if digit(c) {
        (c as nat - '0' as nat) as nat
    } else {
        (c as nat - 'a' as nat + 10) as nat
    }
}

spec fn hex_value(s: Seq<char>) -> nat
    decreases s.len(),
{
    if s.len() == 0 {
        0
    } else {
        hex_value(s.drop_last()) * 16 + hex_digit_value(s.last())
    }
}

proof fn lemma_hex_value(n: nat, width: nat)
    ensures
        hex(n, width).len() == width,
        n < pow16(width) ==> hex_value(hex(n, width)) == n,
    decreases width,
{
    if width > 0 {
        lemma_hex_value(n / 16, (width - 1) as nat);
        assert(hex(n, width).drop_last() == hex(n / 16, (width - 1) as nat));
    }
}

/// The digits of a number are those of its tenth, and the digit for what is left. A number less than
/// ten has one digit, and the digits are the characters from number 48 on.
pub proof fn law_decimal_digit_by_digit(q: nat, r: nat)
    requires
        r < 10,
    ensures
        decimal(r).len() == 1,
        decimal(r)[0] as int == 48 + r,
        q > 0 ==> decimal(10 * q + r) == decimal(q) + decimal(r),
{
    if q > 0 {
        assert((10 * q + r) / 10 == q);
        assert((10 * q + r) % 10 == r);
        assert(decimal(10 * q + r) =~= decimal(q) + decimal(r));
    }
}

/// The hexadecimal digits of a number are those of its sixteenth, and the digit for what is left: a
/// decimal digit or a small letter, the characters from number 48 and from number 97 on.
pub proof fn law_hex_digit_by_digit(q: nat, r: nat, width: nat)
    requires
        r < 16,
    ensures
        hex(q, 0).len() == 0,
        hex(16 * q + r, width + 1) == hex(q, width).push(hex(16 * q + r, width + 1).last()),
        hex(16 * q + r, width + 1).last() as int == (if r < 10 {
            48 + r
        } else {
            87 + r
        }),
{
    assert((16 * q + r) / 16 == q);
    assert((16 * q + r) % 16 == r);
}

/// Zeros fill a number up to the width, and no further.
pub proof fn law_padding_is_zeros(n: nat, width: nat)
    ensures
        ({
            let padded = padded_decimal(n, width as int);
            let digits = decimal(n);
            let fill = padded.len() - digits.len();
            &&& padded.len() == (if digits.len() < width {
                width
            } else {
                digits.len()
            })
            &&& padded.skip(fill) == digits
            &&& forall|i: int| 0 <= i < fill ==> #[trigger] padded[i] == '0'
        }),
{
    let padded = padded_decimal(n, width as int);
    assert(padded.skip(padded.len() - decimal(n).len()) =~= decimal(n));
}

/// A digit behind a number multiplies it by ten and adds the digit, as long as 64 bits hold the
/// result; any other character behind it leaves no number.
pub proof fn law_number_is_read_digit_by_digit(s: Seq<char>, c: char)
    requires
        s.len() > 0,
        s != seq!['+'],
    ensures
        ({
            let d = c as int - 48;
            unsigned_value(s.push(c)) == match unsigned_value(s) {
                Some(n) => if 0 <= d <= 9 && n * 10 + d <= 0xFFFF_FFFF_FFFF_FFFF {
                    Some((n * 10 + d) as u64)
                } else {
                    None
                },
                None => None,
            }
        }),
{
    let t = s.push(c);
    let digits = without_plus(s);
    let more = without_plus(t);
    assert(t[0] == s[0]);
    assert(more =~= digits.push(c)) by {
        if s[0] == '+' {
            assert(t.drop_first() =~= s.drop_first().push(c));
        }
    }
    assert(digits.len() > 0) by {
        if s[0] == '+' && s.len() == 1 {
            assert(s =~= seq!['+']);
        }
    }
    assert(more.drop_last() =~= digits);
    assert(more.last() == c);
    assert(all_digits(more) <==> all_digits(digits) && digit(c)) by {
        if all_digits(more) {
            assert(digit(more[digits.len() as int]));
            assert forall|i: int| 0 <= i < digits.len() implies digit(#[trigger] digits[i]) by {
                assert(digit(more[i]));
            }
        }
    }
}

/// One digit is a number, and nothing else of one character is. A plus sign in front of a number
/// changes nothing; no text is no number, nor is a plus sign, nor two of them.
pub proof fn law_shortest_numbers(s: Seq<char>, c: char)
    ensures
        unsigned_value(seq![]) is None,
        unsigned_value(seq![c]) == (if 48 <= c as int <= 57 {
            Some((c as int - 48) as u64)
        } else {
            None
        }),
        s.len() > 0 && s[0] != '+' ==> unsigned_value(seq!['+'] + s) == unsigned_value(s),
        s.len() > 0 && s[0] == '+' ==> unsigned_value(seq!['+'] + s) is None,
{
    reveal_with_fuel(decimal_value, 2);
    let one = seq![c];
    assert(one.drop_last() =~= Seq::<char>::empty());
    assert(one.drop_first() =~= Seq::<char>::empty());
    if digit(c) {
        assert(all_digits(one));
    } else {
        assert(!all_digits(one)) by {
            assert(!digit(one[0]));
        }
    }
    let signed = seq!['+'] + s;
    assert(signed.drop_first() =~= s);
    if s.len() > 0 && s[0] == '+' {
        assert(!all_digits(s)) by {
            assert(!digit(s[0]));
        }
    }
}

/// There are as many hexadecimal digits as are asked for.
pub proof fn lemma_hex_len(n: nat, width: nat)
    ensures
        hex(n, width).len() == width,
    decreases width,
{
    if width > 0 {
        lemma_hex_len(n / 16, (width - 1) as nat);
    }
}

proof fn lemma_leading_zeros(fill: int, s: Seq<char>)
    requires
        all_digits(s),
    ensures
        all_digits(zeros(fill) + s),
        decimal_value(zeros(fill) + s) == decimal_value(s),
    decreases s.len(), fill,
{
    let t = zeros(fill) + s;
    assert forall|i: int| 0 <= i < t.len() implies digit(#[trigger] t[i]) by {
        if i >= zeros(fill).len() {
            assert(digit(s[i - zeros(fill).len()]));
        }
    }
    if s.len() > 0 {
        assert forall|i: int| 0 <= i < s.drop_last().len() implies digit(
            #[trigger] s.drop_last()[i],
        ) by {
            assert(digit(s[i]));
        }
        lemma_leading_zeros(fill, s.drop_last());
        assert(t.drop_last() =~= zeros(fill) + s.drop_last());
    } else if fill > 0 {
        lemma_leading_zeros(fill - 1, s);
        assert(t.drop_last() =~= zeros(fill - 1) + s);
        assert(t.last() == '0');
    } else {
        assert(t =~= s);
    }
}

/// A number that zeros were written in front of is read back.
pub proof fn law_padded_number_reads_back(n: u64, width: nat)
    ensures
        unsigned_value(padded_decimal(n as nat, width as int)) == Some(n),
{
    let digits = decimal(n as nat);
    let fill = width - digits.len();
    lemma_decimal_digits(n as nat);
    lemma_leading_zeros(fill, digits);
    let padded = zeros(fill) + digits;
    assert(digit(padded[0]));
}

/// A number of more than one digit does not begin with a zero.
pub proof fn law_no_leading_zero(n: nat)
    ensures
        n > 0 ==> decimal(n)[0] != '0',
        decimal(n).len() > 1 ==> n >= 10,
        n >= 10 ==> decimal(n).len() > 1,
    decreases n,
{
    if n >= 10 {
        law_no_leading_zero(n / 10);
        lemma_decimal_digits(n / 10);
        assert(decimal(n)[0] == decimal(n / 10)[0]);
    }
}

} // verus!
