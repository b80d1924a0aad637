//! Decimal digit strings: parsing and rendering of unsigned integers.

use vstd::prelude::*;

verus! {

/// Error for a string that does not parse as an unsigned integer.
#[derive(Debug, PartialEq, Eq, Structural, Clone, Copy)]
pub struct ParseNumError;

pub open spec fn is_digit(c: char) -> bool {
    '0' <= c && c <= '9'
}

pub open spec fn digit_val(c: char) -> nat {
    (c as nat - '0' as nat) as nat
}

pub open spec fn all_digits(s: Seq<char>) -> bool {
    forall|i: int| 0 <= i < s.len() ==> is_digit(#[trigger] s[i])
}

/// The unsigned integer denoted by a digit string, most significant first.
pub open spec fn str_to_nat(s: Seq<char>) -> nat
    decreases s.len(),
{
    if s.len() == 0 {
        0
    } else {
        str_to_nat(s.drop_last()) * 10 + digit_val(s.last())
    }
}

/// The digit character for a value below ten.
pub open spec fn digit_char(n: nat) -> char {
    if n == 0 { '0' }
    else if n == 1 { '1' }
    else if n == 2 { '2' }
    else if n == 3 { '3' }
    else if n == 4 { '4' }
    else if n == 5 { '5' }
    else if n == 6 { '6' }
    else if n == 7 { '7' }
    else if n == 8 { '8' }
    else { '9' }
}

/// The canonical decimal rendering of `n`, without leading zeros
/// (a single `'0'` for zero).
pub open spec fn dec_str(n: nat) -> Seq<char>
    decreases n,
{
    if n < 10 {
        seq![digit_char(n)]
    } else {
        dec_str(n / 10).push(digit_char(n % 10))
    }
}

/// `n` rendered to two digits, zero-padded.
pub open spec fn pad2(n: nat) -> Seq<char> {
    if n < 10 {
        seq![digit_char(0)] + dec_str(n)
    } else {
        dec_str(n)
    }
}

/// `n` rendered to at least four digits, zero-padded.
pub open spec fn pad4(n: nat) -> Seq<char> {
    if n < 10 {
        seq![digit_char(0), digit_char(0), digit_char(0)] + dec_str(n)
    } else if n < 100 {
        seq![digit_char(0), digit_char(0)] + dec_str(n)
    } else if n < 1000 {
        seq![digit_char(0)] + dec_str(n)
    } else {
        dec_str(n)
    }
}

/// A digit-string prefix never denotes more than the whole string.
proof fn lemma_str_to_nat_prefix_mono(s: Seq<char>, j: int)
    requires
        0 <= j <= s.len(),
    ensures
        str_to_nat(s.take(j)) <= str_to_nat(s),
    decreases s.len(),
{
    if j < s.len() {
        assert(s.drop_last().take(j) =~= s.take(j));
        lemma_str_to_nat_prefix_mono(s.drop_last(), j);
    } else {
        assert(s.take(j) =~= s);
    }
}

/// Parses a non-empty all-digit string into a `u64`; anything else is
/// rejected, as is a value above `u64::MAX`.
pub fn parse_u64(input: &str) -> (r: Result<u64, ParseNumError>)
    ensures
        r is Ok <==> input@.len() > 0 && all_digits(input@) && str_to_nat(input@)
            <= u64::MAX as nat,
        r matches Ok(v) ==> v as nat == str_to_nat(input@),
{
    let n = input.unicode_len();
    if n == 0 {
        return Err(ParseNumError);
    }
    let mut acc: u64 = 0;
    let mut i: usize = 0;
    while i < n
        invariant
            0 < n == input@.len(),
            0 <= i <= n,
            all_digits(input@.take(i as int)),
            acc as nat == str_to_nat(input@.take(i as int)),
        decreases n - i,
    {
        let c = input.get_char(i);
        if !('0' <= c && c <= '9') {
            assert(!is_digit(input@[i as int]));
            return Err(ParseNumError);
        }
        let d: u64 = (c as u32 - '0' as u32) as u64;
        if acc > (u64::MAX - d) / 10 {
            proof {
                assert(input@.take(i + 1).drop_last() =~= input@.take(i as int));
                assert(str_to_nat(input@.take(i + 1)) == acc * 10 + d);
                lemma_str_to_nat_prefix_mono(input@, i + 1);
            }
            return Err(ParseNumError);
        }
        proof {
            assert(input@.take(i + 1).drop_last() =~= input@.take(i as int));
        }
        acc = acc * 10 + d;
        i = i + 1;
    }
    proof {
        assert(input@.take(n as int) =~= input@);
    }
    Ok(acc)
}

/// Decides whether every character of `s` is a decimal digit.
pub fn check_all_digits(s: &str) -> (b: bool)
    ensures
        b == all_digits(s@),
{
    let n = s.unicode_len();
    let mut i: usize = 0;
    while i < n
        invariant
            n == s@.len(),
            0 <= i <= n,
            all_digits(s@.take(i as int)),
        decreases n - i,
    {
        let c = s.get_char(i);
        if !('0' <= c && c <= '9') {
            assert(!is_digit(s@[i as int]));
            return false;
        }
        i = i + 1;
    }
    proof {
        assert(s@.take(n as int) =~= s@);
    }
    true
}

/// The literal `&str` for one digit.
pub(crate) fn digit_str(d: u64) -> (r: &'static str)
    requires
        d < 10,
    ensures
        r@ =~= seq![digit_char(d as nat)],
{
    proof {
        reveal_strlit("0");
        reveal_strlit("1");
        reveal_strlit("2");
        reveal_strlit("3");
        reveal_strlit("4");
        reveal_strlit("5");
        reveal_strlit("6");
        reveal_strlit("7");
        reveal_strlit("8");
        reveal_strlit("9");
    }
    if d == 0 { "0" }
    else if d == 1 { "1" }
    else if d == 2 { "2" }
    else if d == 3 { "3" }
    else if d == 4 { "4" }
    else if d == 5 { "5" }
    else if d == 6 { "6" }
    else if d == 7 { "7" }
    else if d == 8 { "8" }
    else { "9" }
}

/// Renders `n` as its canonical decimal string.
pub fn u64_to_dec_string(n: u64) -> (r: String)
    ensures
        r@ == dec_str(n as nat),
    decreases n,
{
    if n < 10 {
        let r = String::from_str(digit_str(n));
        proof {
            assert(r@ =~= dec_str(n as nat));
        }
        r
    } else {
        let mut r = u64_to_dec_string(n / 10);
        r.append(digit_str(n % 10));
        proof {
            assert(r@ =~= dec_str(n as nat));
        }
        r
    }
}

/// Renders `n` as two zero-padded digits.
pub fn u64_to_pad2_string(n: u64) -> (r: String)
    requires
        n < 100,
    ensures
        r@ == pad2(n as nat),
{
    if n < 10 {
        let mut r = String::from_str(digit_str(0));
        r.append(digit_str(n));
        proof {
            assert(r@ =~= pad2(n as nat));
        }
        r
    } else {
        u64_to_dec_string(n)
    }
}

/// Renders `n` as at least four zero-padded digits.
pub fn u64_to_pad4_string(n: u64) -> (r: String)
    ensures
        r@ == pad4(n as nat),
{
    if n < 1000 {
        let mut r = String::new();
        if n < 10 {
            r.append(digit_str(0));
            r.append(digit_str(0));
            r.append(digit_str(0));
        } else if n < 100 {
            r.append(digit_str(0));
            r.append(digit_str(0));
        } else {
            r.append(digit_str(0));
        }
        let tail = u64_to_dec_string(n);
        r.append(tail.as_str());
        proof {
            assert(r@ =~= pad4(n as nat));
        }
        r
    } else {
        let r = u64_to_dec_string(n);
        proof {
            assert(r@ =~= pad4(n as nat));
        }
        r
    }
}

/// Converts a nanosecond epoch string to the matching whole-second
/// string, truncating the fractional part.
pub fn convert_nano_to_sec(nano_str: &str) -> (r: String)
    requires
        nano_str@.len() > 0,
        all_digits(nano_str@),
        str_to_nat(nano_str@) <= i64::MAX as nat,
    ensures
        r@ == dec_str(str_to_nat(nano_str@) / 1_000_000_000),
{
    let nanos = match parse_u64(nano_str) {
        Ok(v) => v,
        Err(_) => 0,
    };
    u64_to_dec_string(nanos / 1_000_000_000)
}

} // verus!
