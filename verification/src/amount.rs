//! Fixed-point asset amounts.
//!
//! Upstream feeds carry amounts either as raw integer-scaled strings
//! (e.g. `"100000000"` base units at 8 decimals, meaning 1.0) or as
//! plain decimal strings (e.g. `"123.45"`).  An [`Amount`] keeps the
//! integer mantissa and its decimal scale exactly; canonical records
//! always hold standard (decimal) units, never raw integer-scaled ones.

use vstd::prelude::*;

use crate::num::{
    all_digits, check_all_digits, dec_str, digit_char, digit_str, str_to_nat, u64_to_dec_string,
};
use crate::scan::{find_first, lemma_find_first_is, lemma_find_first_none};

verus! {

/// An exact decimal amount: `base / 10^decimals` in standard units.
#[derive(Debug, PartialEq, Eq, Structural, Clone, Copy)]
pub struct Amount {
    pub base: u64,
    pub decimals: u32,
}

pub open spec fn pow10(d: nat) -> nat
    decreases d,
{
    if d == 0 {
        1
    } else {
        10 * pow10((d - 1) as nat)
    }
}

proof fn lemma_pow10_19_fits()
    ensures
        pow10(19) == 10_000_000_000_000_000_000,
{
    assert(pow10(0) == 1);
    assert(pow10(1) == 10);
    assert(pow10(2) == 100);
    assert(pow10(3) == 1000);
    assert(pow10(4) == 10000);
    assert(pow10(5) == 100000);
    assert(pow10(6) == 1000000);
    assert(pow10(7) == 10000000);
    assert(pow10(8) == 100000000);
    assert(pow10(9) == 1000000000);
    assert(pow10(10) == 10000000000);
    assert(pow10(11) == 100000000000);
    assert(pow10(12) == 1000000000000);
    assert(pow10(13) == 10000000000000);
    assert(pow10(14) == 100000000000000);
    assert(pow10(15) == 1000000000000000);
    assert(pow10(16) == 10000000000000000);
    assert(pow10(17) == 100000000000000000);
    assert(pow10(18) == 1000000000000000000);
    assert(pow10(19) == 10000000000000000000);
}

/// Small powers of ten, unfolded for callers that bound short digit
/// strings.
pub proof fn lemma_pow10_vals()
    ensures
        pow10(0) == 1,
        pow10(1) == 10,
        pow10(2) == 100,
        pow10(3) == 1000,
        pow10(4) == 10000,
{
    assert(pow10(0) == 1);
    assert(pow10(1) == 10);
    assert(pow10(2) == 100);
    assert(pow10(3) == 1000);
    assert(pow10(4) == 10000);
}

proof fn lemma_pow10_mono(a: nat, b: nat)
    requires
        a <= b,
    ensures
        pow10(a) <= pow10(b),
    decreases b,
{
    if a < b {
        lemma_pow10_mono(a, (b - 1) as nat);
    }
}

proof fn lemma_pow10_pos(d: nat)
    ensures
        pow10(d) >= 1,
    decreases d,
{
    if d > 0 {
        lemma_pow10_pos((d - 1) as nat);
    }
}

/// `10^d` as a `u64`; defined for every scale an `Amount` may carry.
pub fn pow10_u64(d: u32) -> (r: u64)
    requires
        d <= 19,
    ensures
        r as nat == pow10(d as nat),
{
    let mut r: u64 = 1;
    let mut i: u32 = 0;
    proof {
        lemma_pow10_19_fits();
    }
    while i < d
        invariant
            0 <= i <= d <= 19,
            r as nat == pow10(i as nat),
            pow10(19) == 10_000_000_000_000_000_000,
        decreases d - i,
    {
        proof {
            assert(pow10(i as nat + 1) == 10 * pow10(i as nat));
            lemma_pow10_mono(i as nat + 1, 19);
        }
        r = r * 10;
        i = i + 1;
    }
    r
}

impl Amount {
    /// The zero amount at scale zero.
    pub fn zero() -> (r: Amount)
        ensures
            r == (Amount { base: 0, decimals: 0 }),
    {
        Amount { base: 0, decimals: 0 }
    }
}

/// Converts a raw integer-scaled amount into standard units: the raw
/// value becomes the mantissa at the given decimal scale.
pub fn convert_to_standard_unit(amount: u64, decimals: u32) -> (r: Amount)
    requires
        decimals <= 19,
    ensures
        r == (Amount { base: amount, decimals }),
{
    Amount { base: amount, decimals }
}

/// Exactly `width` digits of `n`, zero-padded, least significant last.
pub open spec fn frac_digits(n: nat, width: nat) -> Seq<char>
    decreases width,
{
    if width == 0 {
        Seq::empty()
    } else {
        frac_digits(n / 10, (width - 1) as nat).push(digit_char(n % 10))
    }
}

proof fn lemma_frac_digits_len(n: nat, width: nat)
    ensures
        frac_digits(n, width).len() == width,
    decreases width,
{
    if width > 0 {
        lemma_frac_digits_len(n / 10, (width - 1) as nat);
    }
}

/// Trailing `'0'` characters removed, but at least one kept.
pub open spec fn trim_zeros(s: Seq<char>) -> Seq<char>
    decreases s.len(),
{
    if s.len() <= 1 {
        s
    } else if s.last() == digit_char(0) {
        trim_zeros(s.drop_last())
    } else {
        s
    }
}

/// The display form of an amount: whole part, a dot, then the
/// fractional digits with trailing zeros trimmed (at least one digit).
pub open spec fn spec_display(a: Amount) -> Seq<char> {
    if a.decimals == 0 {
        dec_str(a.base as nat) + seq!['.', digit_char(0)]
    } else {
        dec_str(a.base as nat / pow10(a.decimals as nat)) + seq!['.'] + trim_zeros(
            frac_digits(a.base as nat % pow10(a.decimals as nat), a.decimals as nat),
        )
    }
}

fn frac_str(n: u64, width: u32) -> (r: String)
    ensures
        r@ == frac_digits(n as nat, width as nat),
    decreases width,
{
    if width == 0 {
        let r = String::new();
        proof {
            assert(r@ =~= frac_digits(n as nat, 0));
        }
        r
    } else {
        let mut r = frac_str(n / 10, width - 1);
        r.append(digit_str(n % 10));
        proof {
            assert(r@ =~= frac_digits(n as nat, width as nat));
        }
        r
    }
}

impl Amount {
    /// Renders the amount in standard units, e.g. `"1.0"` for
    /// 100000000 base units at 8 decimals, `"123.456789"` for
    /// 123456789 at 6.
    pub fn display(&self) -> (r: String)
        requires
            self.decimals <= 19,
        ensures
            r@ == spec_display(*self),
    {
        proof {
            reveal_strlit(".");
        }
        if self.decimals == 0 {
            let mut r = u64_to_dec_string(self.base);
            r.append(".");
            r.append(digit_str(0));
            proof {
                assert(r@ =~= spec_display(*self));
            }
            return r;
        }
        let p = pow10_u64(self.decimals);
        assert(p > 0) by {
            lemma_pow10_pos(self.decimals as nat);
        };
        let whole = self.base / p;
        let frac = self.base % p;
        let mut r = u64_to_dec_string(whole);
        r.append(".");
        let f = frac_str(frac, self.decimals);
        let fs = f.as_str();
        proof {
            lemma_frac_digits_len(frac as nat, self.decimals as nat);
        }
        let flen = fs.unicode_len();
        let mut j = flen;
        proof {
            assert(fs@.take(flen as int) =~= fs@);
        }
        while j > 1 && fs.get_char(j - 1) == '0'
            invariant
                0 < flen == fs@.len(),
                1 <= j <= flen,
                trim_zeros(fs@) == trim_zeros(fs@.take(j as int)),
            decreases j,
        {
            proof {
                assert(fs@.take(j as int).drop_last() =~= fs@.take(j - 1));
                assert(fs@.take(j as int).last() == fs@[j - 1]);
            }
            j = j - 1;
        }
        proof {
            if j == 1 {
                assert(trim_zeros(fs@.take(1)) =~= fs@.take(1));
            } else {
                assert(fs@.take(j as int).last() == fs@[j - 1]);
                assert(trim_zeros(fs@.take(j as int)) =~= fs@.take(j as int));
            }
        }
        r.append(fs.substring_char(0, j));
        proof {
            assert(r@ =~= spec_display(*self));
        }
        r
    }
}

/// The class of the decimal separator.
pub open spec fn dot_pred() -> spec_fn(char) -> bool {
    |c: char| c == '.'
}

/// Whether `s` is a plain decimal numeral: a non-empty digit run,
/// optionally followed by a dot and another non-empty digit run of at
/// most 19 digits, whose combined digits fit in a `u64` mantissa.
pub open spec fn valid_decimal(s: Seq<char>) -> bool {
    let dot = find_first(s, dot_pred());
    if dot == -1 {
        s.len() > 0 && all_digits(s) && str_to_nat(s) <= u64::MAX as nat
    } else {
        let int_part = s.take(dot);
        let frac_part = s.skip(dot + 1);
        &&& dot > 0
        &&& all_digits(int_part)
        &&& frac_part.len() > 0
        &&& frac_part.len() <= 19
        &&& all_digits(frac_part)
        &&& str_to_nat(int_part + frac_part) <= u64::MAX as nat
    }
}

/// The amount a valid decimal numeral denotes: the digit runs joined
/// as the mantissa, scaled by the length of the fractional run.
pub open spec fn spec_parse_decimal(s: Seq<char>) -> Amount {
    let dot = find_first(s, dot_pred());
    if dot == -1 {
        Amount { base: str_to_nat(s) as u64, decimals: 0 }
    } else {
        Amount {
            base: str_to_nat(s.take(dot) + s.skip(dot + 1)) as u64,
            decimals: (s.len() - dot - 1) as u32,
        }
    }
}

/// Parses a decimal numeral such as `"123"` or `"123.45"` into an
/// exact amount; rejects anything else.
pub fn parse_decimal_amount(s: &str) -> (r: Option<Amount>)
    ensures
        r is Some <==> valid_decimal(s@),
        r matches Some(a) ==> a == spec_parse_decimal(s@),
{
    let n = s.unicode_len();
    let mut dot: usize = 0;
    while dot < n && s.get_char(dot) != '.'
        invariant
            n == s@.len(),
            0 <= dot <= n,
            forall|k: int| 0 <= k < dot ==> s@[k] != '.',
        decreases n - dot,
    {
        dot = dot + 1;
    }
    let found = dot < n;
    proof {
        if found {
            lemma_find_first_is(s@, dot_pred(), dot as int);
        } else {
            lemma_find_first_none(s@, dot_pred());
        }
    }
    if !found {
        match crate::num::parse_u64(s) {
            Ok(v) => Some(Amount { base: v, decimals: 0 }),
            Err(_) => None,
        }
    } else {
        if dot == 0 || n - dot - 1 == 0 || n - dot - 1 > 19 {
            return None;
        }
        let int_str = s.substring_char(0, dot);
        let frac_part = s.substring_char(dot + 1, n);
        if !check_all_digits(int_str) {
            return None;
        }
        if !check_all_digits(frac_part) {
            return None;
        }
        let mut digits = String::from_str(int_str);
        digits.append(frac_part);
        match crate::num::parse_u64(digits.as_str()) {
            Ok(v) => Some(Amount { base: v, decimals: (n - dot - 1) as u32 }),
            Err(_) => None,
        }
    }
}

} // verus!
