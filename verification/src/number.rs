//! Decimal numerals: how a number is written, and which texts are read as one.
use vstd::prelude::*;
use vstd::slice::slice_subrange;

verus! {

/// The character for a decimal digit.
pub open spec fn digit_char(d: nat) -> char {
    (48 + d) as char
}

pub open spec fn is_digit(c: char) -> bool {
    '0' <= c <= '9'
}

pub open spec fn digit_value(c: char) -> nat {
    (c as int - 48) as nat
}

/// The decimal numeral of `n`, without leading zeros.
pub open spec fn decimal(n: nat) -> Seq<char>
    decreases n,
{
    if n < 10 {
        seq![digit_char(n)]
    } else {
        decimal(n / 10).push(digit_char(n % 10))
    }
}

/// The decimal numeral of `n`, with a leading minus sign when `n` is negative.
pub open spec fn signed_decimal(n: int) -> Seq<char> {
    if n < 0 {
        seq!['-'] + decimal((-n) as nat)
    } else {
        decimal(n as nat)
    }
}

/// The number that a string of digits stands for.
pub open spec fn numeral_value(s: Seq<char>) -> nat
    decreases s.len(),
{
    if s.len() == 0 {
        0
    } else {
        numeral_value(s.drop_last()) * 10 + digit_value(s.last())
    }
}

/// One or more digits and nothing else.
pub open spec fn is_numeral(s: Seq<char>) -> bool {
    &&& s.len() > 0
    &&& forall|i: int| 0 <= i < s.len() ==> is_digit(#[trigger] s[i])
}

/// `s` without one leading plus sign.
pub open spec fn without_plus(s: Seq<char>) -> Seq<char> {
    if s.len() > 0 && s.first() == '+' {
        s.drop_first()
    } else {
        s
    }
}

/// The number that a text is read as: an optional plus sign and then one or more digits, whose
/// value fits in 64 bits. Anything else is not a number.
pub open spec fn read_u64(s: Seq<char>) -> Option<u64> {
    let digits = without_plus(s);
    if is_numeral(digits) && numeral_value(digits) <= u64::MAX {
        Some(numeral_value(digits) as u64)
    } else {
        None
    }
}

/// A non-negative integer as JSON writes it: digits only, and no zero in front of other digits.
pub open spec fn is_json_integer(s: Seq<char>) -> bool {
    is_numeral(s) && (s.len() == 1 || s.first() != '0')
}

/// The number that a JSON text is read as, if it is a non-negative integer that fits in 64 bits.
pub open spec fn read_json_u64(s: Seq<char>) -> Option<u64> {
    if is_json_integer(s) && numeral_value(s) <= u64::MAX {
        Some(numeral_value(s) as u64)
    } else {
        None
    }
}

/// A longer numeral never stands for a smaller number.
pub proof fn lemma_numeral_value_monotone(s: Seq<char>, k: int)
    requires
        0 <= k <= s.len(),
    ensures
        numeral_value(s.take(k)) <= numeral_value(s),
    decreases s.len() - k,
{
    if k < s.len() {
        lemma_numeral_value_monotone(s, k + 1);
        assert(s.take(k + 1).drop_last() =~= s.take(k));
    } else {
        assert(s.take(k) =~= s);
    }
}

/// Reads a number; `read_u64` as executable code.
pub fn parse_u64(s: &[char]) -> (r: Option<u64>)
    ensures
        r == read_u64(s@),
{
    let plus = s.len() > 0 && s[0] == '+';
    let digits = if plus {
        slice_subrange(s, 1, s.len())
    } else {
        s
    };
    assert(digits@ =~= without_plus(s@));
    if digits.len() == 0 {
        return None;
    }
    let mut value: u64 = 0;
    let mut i: usize = 0;
    while i < digits.len()
        invariant
            i <= digits@.len(),
            digits@.len() > 0,
            digits@ == without_plus(s@),
            forall|j: int| 0 <= j < i ==> is_digit(#[trigger] digits@[j]),
            value == numeral_value(digits@.take(i as int)),
        decreases digits.len() - i,
    {
        let c = digits[i];
        if c < '0' || c > '9' {
            assert(!is_digit(digits@[i as int]));
            return None;
        }
        let d: u64 = c as u64 - 48;
        let ghost longer = digits@.take(i + 1);
        assert(longer.drop_last() =~= digits@.take(i as int));
        assert(numeral_value(longer) == value * 10 + d);
        if value > (u64::MAX - d) / 10 {
            proof {
                lemma_numeral_value_monotone(digits@, i + 1);
            }
            return None;
        }
        value = value * 10 + d;
        i = i + 1;
    }
    assert(digits@.take(i as int) =~= digits@);
    Some(value)
}

/// Reads a number as JSON writes it; `read_json_u64` as executable code.
pub fn parse_json_u64(s: &[char]) -> (r: Option<u64>)
    ensures
        r == read_json_u64(s@),
{
    if s.len() == 0 {
        return None;
    }
    if s[0] == '+' {
        assert(!is_digit(s@[0]));
        return None;
    }
    if s.len() > 1 && s[0] == '0' {
        return None;
    }
    parse_u64(s)
}

/// Appends the decimal numeral of `n` to `out`.
pub fn push_decimal(out: &mut String, n: u64)
    ensures
        final(out)@ == old(out)@ + decimal(n as nat),
    decreases n,
{
    if n >= 10 {
        push_decimal(out, n / 10);
    }
    let d: u8 = (n % 10) as u8;
    out.push((48 + d) as char);
    assert(out@ =~= old(out)@ + decimal(n as nat));
}

/// Appends the signed decimal numeral of `n` to `out`.
pub fn push_signed(out: &mut String, n: i32)
    ensures
        final(out)@ == old(out)@ + signed_decimal(n as int),
{
    if n < 0 {
        out.push('-');
        push_decimal(out, (-(n as i64)) as u64);
        assert(out@ =~= old(out)@ + signed_decimal(n as int));
    } else {
        push_decimal(out, n as u64);
    }
}

/// A numeral that was written is a numeral, and stands for the number it was written from.
pub proof fn lemma_decimal_is_numeral(n: nat)
    ensures
        is_numeral(decimal(n)),
        numeral_value(decimal(n)) == n,
    decreases n,
{
    reveal_with_fuel(numeral_value, 2);
    if n < 10 {
        assert(decimal(n).drop_last() =~= Seq::<char>::empty());
    } else {
        lemma_decimal_is_numeral(n / 10);
        assert(decimal(n).drop_last() =~= decimal(n / 10));
    }
}

/// The numeral of a positive number does not start with zero.
proof fn lemma_decimal_has_no_leading_zero(n: nat)
    requires
        n > 0,
    ensures
        decimal(n).len() > 0,
        decimal(n).first() != '0',
    decreases n,
{
    if n >= 10 {
        lemma_decimal_has_no_leading_zero(n / 10);
        assert(decimal(n).first() == decimal(n / 10).first());
    }
}

/// Reading a written number gives that number back.
pub proof fn lemma_read_decimal(n: u64)
    ensures
        read_json_u64(decimal(n as nat)) == Some(n),
{
    lemma_decimal_is_numeral(n as nat);
    if n > 0 {
        lemma_decimal_has_no_leading_zero(n as nat);
    }
}

/// Decimal numerals are written digit by digit: a number below ten is one digit, and a digit written
/// behind the numeral of a positive number stands for ten times that number and the digit.
pub proof fn law_a_numeral_grows_by_its_last_digit(n: nat, d: nat)
    requires
        d < 10,
    ensures
        decimal(d) == seq![(48 + d) as char],
        n > 0 ==> decimal(10 * n + d) == decimal(n).push((48 + d) as char),
        is_digit((48 + d) as char),
{
    if n > 0 {
        assert((10 * n + d) / 10 == n);
        assert((10 * n + d) % 10 == d);
    }
}

/// A digit behind a numeral makes its value ten times as large, and adds the digit.
pub proof fn law_a_value_grows_by_its_last_digit(s: Seq<char>, d: nat)
    requires
        d < 10,
    ensures
        numeral_value(Seq::empty()) == 0,
        numeral_value(s.push((48 + d) as char)) == 10 * numeral_value(s) + d,
{
    let longer = s.push((48 + d) as char);
    assert(longer.drop_last() =~= s);
    assert(digit_value(longer.last()) == d);
}

/// The sign of a negative number stands before the numeral of its size.
pub proof fn law_a_sign_stands_before_the_size(n: nat)
    ensures
        signed_decimal(n as int) == decimal(n),
        n > 0 ==> signed_decimal(-(n as int)) == seq!['-'] + decimal(n),
{
}

/// A digit is one of ten characters.
pub proof fn law_there_are_ten_digits(c: char)
    ensures
        is_digit(c) <==> 48 <= c as int <= 57,
{
}

/// A JSON integer is the numeral of its value.
proof fn lemma_json_integer_is_decimal(s: Seq<char>)
    requires
        is_json_integer(s),
    ensures
        s == decimal(numeral_value(s)),
        s.len() > 1 || s[0] != '0' ==> numeral_value(s) > 0,
    decreases s.len(),
{
    let last = s.last();
    assert(is_digit(s[s.len() - 1]));
    assert(s =~= s.drop_last().push(last));
    if s.len() == 1 {
        assert(s.drop_last() =~= Seq::<char>::empty());
        assert(numeral_value(s.drop_last()) == 0);
        assert(s =~= seq![digit_char(digit_value(last))]);
    } else {
        let shorter = s.drop_last();
        assert(shorter[0] == s[0]);
        assert forall|i: int| 0 <= i < shorter.len() implies is_digit(#[trigger] shorter[i]) by {
            assert(is_digit(s[i]));
        }
        lemma_json_integer_is_decimal(shorter);
        let v = numeral_value(shorter);
        let n = v * 10 + digit_value(last);
        assert(v > 0);
        assert(n / 10 == v && n % 10 == digit_value(last));
        assert(digit_char(digit_value(last)) == last);
        assert(decimal(n) == decimal(n / 10).push(digit_char(n % 10)));
    }
}

/// A text reads as a number in JSON exactly when it is that number's decimal numeral.
pub proof fn law_a_json_number_is_its_numeral(s: Seq<char>, n: u64)
    ensures
        read_json_u64(s) == Some(n) <==> s == decimal(n as nat),
{
    lemma_read_decimal(n);
    if read_json_u64(s) == Some(n) {
        lemma_json_integer_is_decimal(s);
    }
}

/// Elsewhere a text reads as a number exactly when it is digits, with or without a plus sign in
/// front, and their value fits.
pub proof fn law_a_number_is_digits_behind_an_optional_plus(s: Seq<char>)
    ensures
        s.len() > 0 && (forall|i: int| 0 <= i < s.len() ==> '0' <= #[trigger] s[i] <= '9') ==> {
            let value = if numeral_value(s) <= 0xffff_ffff_ffff_ffff {
                Some(numeral_value(s) as u64)
            } else {
                None
            };
            read_u64(s) == value && read_u64(seq!['+'] + s) == value
        },
        s.len() == 0 || (exists|i: int|
            0 <= i < s.len() && !('0' <= #[trigger] s[i] <= '9')) ==> read_u64(seq!['+'] + s) is None
            && (s.len() == 0 || s[0] != '+' ==> read_u64(s) is None),
{
    let plus = seq!['+'] + s;
    assert(without_plus(plus) =~= s);
    if s.len() > 0 && (forall|i: int| 0 <= i < s.len() ==> '0' <= #[trigger] s[i] <= '9') {
        assert('0' <= s[0] <= '9');
        assert(is_numeral(s));
    }
    if exists|i: int| 0 <= i < s.len() && !('0' <= #[trigger] s[i] <= '9') {
        let i = choose|i: int| 0 <= i < s.len() && !('0' <= #[trigger] s[i] <= '9');
        assert(!is_digit(s[i]));
    }
}

} // verus!
