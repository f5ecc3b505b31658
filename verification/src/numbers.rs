//! Decimal numbers as they appear in path components.
//!
//! Archive partitions are directories named after a year, so the engine both
//! renders years as decimal strings and recognises decimal strings (for
//! example when an unarchive source is checked to sit inside a year
//! partition, or when a search term selects a record by position).

use vstd::prelude::*;

verus! {

pub open spec fn is_digit(c: char) -> bool {
    48 <= c as u32 <= 57
}

pub open spec fn digit_val(c: char) -> int {
    c as u32 - 48
}

pub open spec fn is_digits(s: Seq<char>) -> bool {
    forall|i: int| 0 <= i < s.len() ==> is_digit(#[trigger] s[i])
}

/// The value of a digit string, most significant digit first.
pub open spec fn digits_val(s: Seq<char>) -> int
    decreases s.len(),
{
    if s.len() == 0 {
        0
    } else {
        digits_val(s.drop_last()) * 10 + digit_val(s.last())
    }
}

pub open spec fn sign_is_neg(s: Seq<char>) -> bool {
    s.len() > 0 && s[0] == '-'
}

pub open spec fn num_body(s: Seq<char>) -> Seq<char> {
    if s.len() > 0 && (s[0] == '-' || s[0] == '+') {
        s.skip(1)
    } else {
        s
    }
}

pub open spec fn signed_val(s: Seq<char>) -> int {
    if sign_is_neg(s) {
        -digits_val(num_body(s))
    } else {
        digits_val(num_body(s))
    }
}

/// What `str::parse::<i32>` accepts: an optional sign, then one or more
/// digits, with the value in range.
pub open spec fn parse_i32_spec(s: Seq<char>) -> Option<i32> {
    if num_body(s).len() == 0 || !is_digits(num_body(s)) {
        None
    } else if i32::MIN <= signed_val(s) <= i32::MAX {
        Some(signed_val(s) as i32)
    } else {
        None
    }
}

/// What `str::parse::<usize>` accepts: an optional `+`, then one or more
/// digits, with the value in range.
pub open spec fn parse_usize_spec(s: Seq<char>) -> Option<usize> {
    if num_body(s).len() == 0 || !is_digits(num_body(s)) || sign_is_neg(s) {
        None
    } else if digits_val(num_body(s)) <= usize::MAX {
        Some(digits_val(num_body(s)) as usize)
    } else {
        None
    }
}

pub proof fn lemma_digits_val_bounds(s: Seq<char>)
    requires
        is_digits(s),
    ensures
        digits_val(s) >= 0,
        s.len() > 0 ==> digits_val(s) >= digits_val(s.drop_last()),
    decreases s.len(),
{
    if s.len() > 0 {
        lemma_digits_val_bounds(s.drop_last());
    }
}

/// Once a digit prefix is out of range, appending further digits cannot
/// bring the value back into range.
pub proof fn lemma_digits_val_monotone(s: Seq<char>, k: int)
    requires
        is_digits(s),
        0 <= k <= s.len(),
    ensures
        digits_val(s) >= digits_val(s.take(k)),
    decreases s.len() - k,
{
    lemma_digits_val_bounds(s);
    if k < s.len() {
        lemma_digits_val_monotone(s, k + 1);
        lemma_digits_val_bounds(s.take(k + 1));
        assert(s.take(k + 1).drop_last() =~= s.take(k));
        assert(digits_val(s.take(k + 1)) == digits_val(s.take(k)) * 10 + digit_val(s[k]));
        lemma_digits_val_bounds(s.take(k));
    } else {
        assert(s.take(k) =~= s);
    }
}

/// Parses a decimal string exactly as `str::parse::<i32>` does.
pub fn parse_i32(s: &str) -> (r: Option<i32>)
    ensures
        r == parse_i32_spec(s@),
{
    let len = s.unicode_len();
    let mut i: usize = 0;
    let mut neg = false;
    if len > 0 {
        let c0 = s.get_char(0);
        if c0 == '-' {
            neg = true;
            i = 1;
        } else if c0 == '+' {
            i = 1;
        }
    }
    if i == len {
        return None;
    }
    let ghost body = num_body(s@);
    assert(body =~= s@.skip(i as int));
    // mag == digits_val of the digits read so far
    let mut mag: i64 = 0;
    while i < len
        invariant
            1 <= len == s@.len(),
            i <= len,
            body == num_body(s@),
            neg == sign_is_neg(s@),
            body.len() > 0,
            i >= len - body.len(),
            is_digits(body.take(i - (len - body.len()))),
            mag == digits_val(body.take(i - (len - body.len()))),
            0 <= mag <= 0x8000_0000i64,
        decreases len - i,
    {
        let ghost k = i - (len - body.len());
        let c = s.get_char(i);
        let u = c as u32;
        if u < 48 || u > 57 {
            assert(!is_digit(body[k]));
            return None;
        }
        let d = (u - 48) as i64;
        let next = mag * 10 + d;
        assert(body.take(k + 1).drop_last() =~= body.take(k));
        if next > 0x8000_0000i64 {
            // the magnitude already exceeds any representable i32
            proof {
                if is_digits(body) {
                    lemma_digits_val_monotone(body, k + 1);
                }
            }
            return None;
        }
        mag = next;
        i = i + 1;
    }
    assert(body.take(i - (len - body.len())) =~= body);
    if neg {
        if mag > 0x8000_0000i64 {
            return None;
        }
        Some((-mag) as i32)
    } else {
        if mag > 0x7fff_ffffi64 {
            return None;
        }
        Some(mag as i32)
    }
}

/// Parses a decimal string exactly as `str::parse::<usize>` does.
pub fn parse_usize(s: &str) -> (r: Option<usize>)
    ensures
        r == parse_usize_spec(s@),
{
    let len = s.unicode_len();
    let mut i: usize = 0;
    if len > 0 {
        let c0 = s.get_char(0);
        if c0 == '-' {
            return None;
        }
        if c0 == '+' {
            i = 1;
        }
    }
    if i == len {
        return None;
    }
    let ghost body = num_body(s@);
    assert(body =~= s@.skip(i as int));
    let mut mag: u128 = 0;
    while i < len
        invariant
            1 <= len == s@.len(),
            i <= len,
            body == num_body(s@),
            !sign_is_neg(s@),
            body.len() > 0,
            i >= len - body.len(),
            is_digits(body.take(i - (len - body.len()))),
            mag == digits_val(body.take(i - (len - body.len()))),
            mag <= usize::MAX,
        decreases len - i,
    {
        let ghost k = i - (len - body.len());
        let c = s.get_char(i);
        let u = c as u32;
        if u < 48 || u > 57 {
            assert(!is_digit(body[k]));
            return None;
        }
        let d = (u - 48) as u128;
        let next = mag * 10 + d;
        assert(body.take(k + 1).drop_last() =~= body.take(k));
        if next > usize::MAX as u128 {
            proof {
                if is_digits(body) {
                    lemma_digits_val_monotone(body, k + 1);
                }
            }
            return None;
        }
        mag = next;
        i = i + 1;
    }
    assert(body.take(i - (len - body.len())) =~= body);
    Some(mag as usize)
}

pub open spec fn digit_char(d: int) -> char {
    if d == 0 {
        '0'
    } else if d == 1 {
        '1'
    } else if d == 2 {
        '2'
    } else if d == 3 {
        '3'
    } else if d == 4 {
        '4'
    } else if d == 5 {
        '5'
    } else if d == 6 {
        '6'
    } else if d == 7 {
        '7'
    } else if d == 8 {
        '8'
    } else {
        '9'
    }
}

/// The decimal digits of a non-negative number, most significant first.
pub open spec fn dec_digits(n: int) -> Seq<char>
    decreases n,
{
    if n < 10 {
        seq![digit_char(n)]
    } else {
        dec_digits(n / 10).push(digit_char(n % 10))
    }
}

/// The decimal rendering of a signed number, as `i32`'s `Display` writes it.
pub open spec fn int_to_dec_str(n: int) -> Seq<char> {
    if n < 0 {
        seq!['-'] + dec_digits(-n)
    } else {
        dec_digits(n)
    }
}

pub proof fn lemma_digit_char(d: int)
    requires
        0 <= d <= 9,
    ensures
        is_digit(digit_char(d)),
        digit_val(digit_char(d)) == d,
{
    assert('0' as u32 == 48);
    assert('1' as u32 == 49);
    assert('2' as u32 == 50);
    assert('3' as u32 == 51);
    assert('4' as u32 == 52);
    assert('5' as u32 == 53);
    assert('6' as u32 == 54);
    assert('7' as u32 == 55);
    assert('8' as u32 == 56);
    assert('9' as u32 == 57);
}

pub proof fn lemma_dec_digits_value(n: int)
    requires
        n >= 0,
    ensures
        is_digits(dec_digits(n)),
        digits_val(dec_digits(n)) == n,
        dec_digits(n).len() >= 1,
    decreases n,
{
    if n < 10 {
        lemma_digit_char(n);
        assert(dec_digits(n).drop_last() =~= Seq::<char>::empty());
        assert(digits_val(dec_digits(n)) == digits_val(dec_digits(n).drop_last()) * 10 + digit_val(dec_digits(n).last()));
    } else {
        lemma_digit_char(n % 10);
        lemma_dec_digits_value(n / 10);
        assert(dec_digits(n).drop_last() =~= dec_digits(n / 10));
    }
}

/// Rendering a year and parsing it back gives the year again.
pub proof fn lemma_dec_round_trip(v: i32)
    ensures
        parse_i32_spec(int_to_dec_str(v as int)) == Some(v),
{
    let s = int_to_dec_str(v as int);
    if v >= 0 {
        lemma_dec_digits_value(v as int);
        assert(!is_digit('-'));
        assert(!is_digit('+'));
        assert(num_body(s) == s);
        assert(!sign_is_neg(s));
    } else {
        lemma_dec_digits_value(-(v as int));
        assert(s[0] == '-');
        assert(num_body(s) =~= dec_digits(-(v as int)));
        assert(sign_is_neg(s));
    }
}

/// A decimal rendering holds only digits and possibly a leading minus —
/// never a dot.
pub proof fn lemma_dec_str_no_dot(v: int)
    ensures
        forall|i: int| 0 <= i < int_to_dec_str(v).len() ==> int_to_dec_str(v)[i] != '.',
{
    let s = int_to_dec_str(v);
    if v >= 0 {
        lemma_dec_digits_value(v);
        assert forall|i: int| 0 <= i < s.len() implies s[i] != '.' by {
            assert(is_digit(s[i]));
        }
    } else {
        lemma_dec_digits_value(-v);
        assert forall|i: int| 0 <= i < s.len() implies s[i] != '.' by {
            if i > 0 {
                assert(s[i] == dec_digits(-v)[i - 1]);
                assert(is_digit(s[i]));
            }
        }
    }
}

/// Renders a year in decimal.
///
/// Relies on `i32`'s `Display` implementation in std, which formats the
/// value as an optional `-` followed by its decimal digits.
#[verifier::external_body]
pub fn year_string(y: i32) -> (r: String)
    ensures
        r@ == int_to_dec_str(y as int),
{
    y.to_string()
}

} // verus!
