//! Plain building blocks: numbers written down, text and octets.

use vstd::prelude::*;

verus! {

/// `String::push` appends one character and keeps what was there.
pub assume_specification[ String::push ](s: &mut String, c: char)
    ensures
        final(s)@ == old(s)@.push(c),
;

/// The character of a decimal digit.
pub open spec fn digit(d: nat) -> char {
    (('0' as nat) + d) as char
}

/// The decimal notation of `n`, without leading zeros.
pub open spec fn decimal(n: nat) -> Seq<char>
    decreases n,
{
    if n < 10 {
        seq![digit(n)]
    } else {
        decimal(n / 10).push(digit(n % 10))
    }
}

fn digit_char(d: u8) -> (c: char)
    requires
        d < 10,
    ensures
        c == digit(d as nat),
{
    (48u8 + d) as char
}

/// Appends the decimal notation of `n` to `out`.
pub fn push_decimal(out: &mut String, n: u128)
    ensures
        final(out)@ == old(out)@ + decimal(n as nat),
    decreases n,
{
    if n >= 10 {
        push_decimal(out, n / 10);
    }
    out.push(digit_char((n % 10) as u8));
}

/// The decimal notation of a number that may be negative.
pub open spec fn signed_decimal(n: int) -> Seq<char> {
    if n < 0 {
        seq!['-'] + decimal((-n) as nat)
    } else {
        decimal(n as nat)
    }
}

/// Appends the decimal notation of `n` to `out`.
pub fn push_signed_decimal(out: &mut String, n: i64)
    ensures
        final(out)@ == old(out)@ + signed_decimal(n as int),
{
    if n < 0 {
        out.push('-');
        push_decimal(out, (-(n as i128)) as u128);
        assert(out@ =~= old(out)@ + signed_decimal(n as int));
    } else {
        push_decimal(out, n as u128);
    }
}

/// The character of a hexadecimal digit.
pub open spec fn hex_digit(d: nat) -> char {
    if d < 10 {
        digit(d)
    } else {
        (('a' as nat) + d - 10) as char
    }
}

/// The last `width` digits of the hexadecimal notation of `n`, with leading
/// zeros.
pub open spec fn fixed_hex(n: nat, width: nat) -> Seq<char>
    decreases width,
{
    if width == 0 {
        Seq::empty()
    } else {
        fixed_hex(n / 16, (width - 1) as nat).push(hex_digit(n % 16))
    }
}

fn hex_digit_char(d: u8) -> (c: char)
    requires
        d < 16,
    ensures
        c == hex_digit(d as nat),
{
    if d < 10 {
        digit_char(d)
    } else {
        (87u8 + d) as char
    }
}

/// Appends the last `width` hexadecimal digits of `n` to `out`.
pub fn push_fixed_hex(out: &mut String, n: u128, width: u8)
    ensures
        final(out)@ == old(out)@ + fixed_hex(n as nat, width as nat),
    decreases width,
{
    if width > 0 {
        push_fixed_hex(out, n / 16, width - 1);
        out.push(hex_digit_char((n % 16) as u8));
    }
    assert(out@ =~= old(out)@ + fixed_hex(n as nat, width as nat));
}

/// How many numbers there are of `width` hexadecimal digits.
pub open spec fn hex_numbers(width: nat) -> nat
    decreases width,
{
    if width == 0 {
        1
    } else {
        16 * hex_numbers((width - 1) as nat)
    }
}

/// Different numbers of `width` hexadecimal digits have different notations,
/// each of that many characters.
pub proof fn fixed_hex_is_injective(a: nat, b: nat, width: nat)
    requires
        a < hex_numbers(width),
        b < hex_numbers(width),
    ensures
        fixed_hex(a, width).len() == width,
        fixed_hex(b, width).len() == width,
        fixed_hex(a, width) == fixed_hex(b, width) ==> a == b,
    decreases width,
{
    if width > 0 {
        let rest = (width - 1) as nat;
        assert(a / 16 < hex_numbers(rest));
        assert(b / 16 < hex_numbers(rest));
        fixed_hex_is_injective(a / 16, b / 16, rest);
        if fixed_hex(a, width) == fixed_hex(b, width) {
            assert(fixed_hex(a, width).last() == hex_digit(a % 16));
            assert(fixed_hex(b, width).last() == hex_digit(b % 16));
            assert(fixed_hex(a, width).drop_last() =~= fixed_hex(a / 16, rest));
            assert(fixed_hex(b, width).drop_last() =~= fixed_hex(b / 16, rest));
        }
    }
}

/// Optional octets as a mathematical value.
pub open spec fn octets_view(octets: Option<Vec<u8>>) -> Option<Seq<u8>> {
    match octets {
        Some(octets) => Some(octets@),
        None => None,
    }
}

/// What follows `prefix` in a text that begins with it.
pub open spec fn after_prefix(s: Seq<char>, prefix: Seq<char>) -> Option<Seq<char>> {
    if prefix.is_prefix_of(s) {
        Some(s.skip(prefix.len() as int))
    } else {
        None
    }
}

/// Takes `prefix` off a text that begins with it.
pub fn strip_prefix(s: &str, prefix: &str) -> (rest: Option<String>)
    ensures
        match rest {
            Some(rest) => after_prefix(s@, prefix@) == Some(rest@),
            None => after_prefix(s@, prefix@) is None,
        },
{
    let len: usize = s.unicode_len();
    let n: usize = prefix.unicode_len();
    if len < n || s.substring_char(0, n).to_owned() != prefix.to_owned() {
        return None;
    }
    let rest = s.substring_char(n, len).to_owned();
    assert(rest@ =~= s@.skip(n as int));
    Some(rest)
}

/// Decimal notation consists of digits.
pub proof fn decimal_is_digits(n: nat)
    ensures
        decimal(n).len() > 0,
        forall|i: int| 0 <= i < decimal(n).len() ==> '0' <= #[trigger] decimal(n)[i] <= '9',
    decreases n,
{
    if n >= 10 {
        decimal_is_digits(n / 10);
    }
}

/// Different numbers have different decimal notations.
pub proof fn decimal_is_injective(a: nat, b: nat)
    requires
        decimal(a) == decimal(b),
    ensures
        a == b,
    decreases a,
{
    decimal_is_digits(a / 10);
    decimal_is_digits(b / 10);
    assert(decimal(a).last() == digit(a % 10));
    assert(decimal(b).last() == digit(b % 10));
    if a >= 10 && b >= 10 {
        assert(decimal(a).drop_last() =~= decimal(a / 10));
        assert(decimal(b).drop_last() =~= decimal(b / 10));
        decimal_is_injective(a / 10, b / 10);
    }
}

/// What the debug output of a text reads: the text in quotation marks, with
/// escapes.
pub uninterp spec fn quoted(content: Seq<char>) -> Seq<char>;

/// The debug output of `str`, a function of the text alone. Its escapes are
/// not claimed.
#[verifier::external_body]
pub(crate) fn quote(content: &str) -> (quotation: String)
    ensures
        quotation@ == quoted(content@),
{
    format!("{:?}", content)
}

/// The value of a digit: the number itself for `0` to `9`, and 10 to 15 for `a`
/// to `f`.
pub open spec fn digit_value(c: char) -> int {
    if '0' <= c <= '9' {
        c as int - 48
    } else {
        c as int - 87
    }
}

/// The number that digits of a base stand for, read from left to right, when
/// `so_far` has been read before them.
pub open spec fn number_read(digits: Seq<char>, base: int, so_far: int) -> int
    decreases digits.len(),
{
    if digits.len() == 0 {
        so_far
    } else {
        number_read(digits.skip(1), base, so_far * base + digit_value(digits[0]))
    }
}

proof fn lemma_number_read_push(digits: Seq<char>, c: char, base: int, so_far: int)
    ensures
        number_read(digits.push(c), base, so_far) == number_read(digits, base, so_far) * base
            + digit_value(c),
    decreases digits.len(),
{
    if digits.len() == 0 {
        assert(digits.push(c).skip(1) =~= Seq::<char>::empty());
        assert(number_read(digits.push(c).skip(1), base, so_far * base + digit_value(c)) == so_far
            * base + digit_value(c));
    } else {
        assert(digits.push(c).skip(1) =~= digits.skip(1).push(c));
        lemma_number_read_push(digits.skip(1), c, base, so_far * base + digit_value(digits[0]));
    }
}

/// Decimal notation reads as the number that it was written for, and begins
/// with a zero for zero alone.
pub proof fn decimal_reads_as_its_number(n: nat)
    ensures
        number_read(decimal(n), 10, 0) == n,
        decimal(n).len() > 0,
        decimal(n)[0] == '0' ==> n == 0 && decimal(n).len() == 1,
        forall|i: int| 0 <= i < decimal(n).len() ==> 48 <= #[trigger] decimal(n)[i] as int <= 57,
    decreases n,
{
    if n >= 10 {
        decimal_reads_as_its_number(n / 10);
        lemma_number_read_push(decimal(n / 10), digit(n % 10), 10, 0);
        assert(decimal(n)[0] == decimal(n / 10)[0]);
        assert forall|i: int| 0 <= i < decimal(n).len() implies 48 <= #[trigger] decimal(
            n,
        )[i] as int <= 57 by {
            if i < decimal(n / 10).len() {
                assert(decimal(n)[i] == decimal(n / 10)[i]);
            }
        }
    } else {
        assert(decimal(n).skip(1) =~= Seq::<char>::empty());
        assert(number_read(decimal(n).skip(1), 10, n as int) == n);
    }
}

/// A number below zero is written as a minus sign and the number without its
/// sign; one that is not is written without a sign.
pub proof fn signed_decimal_reads_as_its_number(n: int)
    ensures
        n < 0 ==> signed_decimal(n).len() > 1 && signed_decimal(n)[0] == '-' && number_read(
            signed_decimal(n).skip(1),
            10,
            0,
        ) == -n && signed_decimal(n)[1] != '0',
        n >= 0 ==> signed_decimal(n).len() > 0 && number_read(signed_decimal(n), 10, 0) == n && (
        signed_decimal(n)[0] == '0' ==> n == 0 && signed_decimal(n).len() == 1),
        forall|i: int|
            (if n < 0 {
                1
            } else {
                0int
            }) <= i < signed_decimal(n).len() ==> 48 <= #[trigger] signed_decimal(n)[i] as int
                <= 57,
{
    if n < 0 {
        decimal_reads_as_its_number((-n) as nat);
        assert(signed_decimal(n).skip(1) =~= decimal((-n) as nat));
        assert forall|i: int| 1 <= i < signed_decimal(n).len() implies 48
            <= #[trigger] signed_decimal(n)[i] as int <= 57 by {
            assert(signed_decimal(n)[i] == decimal((-n) as nat)[i - 1]);
        }
    } else {
        decimal_reads_as_its_number(n as nat);
    }
}

/// Hexadecimal notation of a fixed width reads as the number that it was
/// written for, as long as the width is enough for it, in digits and small
/// letters.
pub proof fn fixed_hex_reads_as_its_number(n: nat, width: nat)
    requires
        n < hex_numbers(width),
    ensures
        fixed_hex(n, width).len() == width,
        number_read(fixed_hex(n, width), 16, 0) == n,
        forall|i: int|
            0 <= i < width ==> {
                let c = #[trigger] fixed_hex(n, width)[i] as int;
                48 <= c <= 57 || 97 <= c <= 102
            },
    decreases width,
{
    if width > 0 {
        let rest = (width - 1) as nat;
        assert(n / 16 < hex_numbers(rest));
        fixed_hex_reads_as_its_number(n / 16, rest);
        lemma_number_read_push(fixed_hex(n / 16, rest), hex_digit(n % 16), 16, 0);
        assert forall|i: int| 0 <= i < width implies ({
            let c = #[trigger] fixed_hex(n, width)[i] as int;
            48 <= c <= 57 || 97 <= c <= 102
        }) by {
            if i < rest {
                assert(fixed_hex(n, width)[i] == fixed_hex(n / 16, rest)[i]);
            }
        }
    }
}

/// Every digit more makes for sixteen times as many numbers; one digit is
/// enough for sixteen.
pub proof fn digits_make_numbers(a: nat, b: nat)
    ensures
        hex_numbers(0) == 1,
        hex_numbers(1) == 16,
        hex_numbers(a + b) == hex_numbers(a) * hex_numbers(b),
    decreases b,
{
    reveal_with_fuel(hex_numbers, 2);
    if b > 0 {
        let c = (b - 1) as nat;
        digits_make_numbers(a, c);
        assert((a + b - 1) as nat == a + c);
        assert(16 * (hex_numbers(a) * hex_numbers(c)) == hex_numbers(a) * (16 * hex_numbers(c)))
            by (nonlinear_arith);
    }
}

/// A text begins with a prefix if and only if it is the prefix and something
/// that follows, and that is what remains.
pub proof fn prefixes_come_off(s: Seq<char>, prefix: Seq<char>, rest: Seq<char>)
    ensures
        after_prefix(s, prefix) == Some(rest) <==> s == prefix + rest,
        after_prefix(s, prefix) is None <==> forall|other: Seq<char>| s != #[trigger] (prefix + other),
{
    assert((prefix + rest).skip(prefix.len() as int) =~= rest);
    assert((prefix + rest).subrange(0, prefix.len() as int) =~= prefix);
    if prefix.is_prefix_of(s) {
        assert(s =~= prefix + s.skip(prefix.len() as int));
    } else {
        assert forall|other: Seq<char>| s != #[trigger] (prefix + other) by {
            assert((prefix + other).subrange(0, prefix.len() as int) =~= prefix);
        }
    }
}

/// Optional octets have a value if they are there, and it is the octets.
pub proof fn octets_are_their_value(octets: Vec<u8>)
    ensures
        octets_view(None) is None,
        octets_view(Some(octets)) == Some(octets@),
{
}

}
