//! Fixed-point decimal parsing.
//!
//! Fractional quantities (coordinates, speeds, elevations) are carried as
//! `i64` values in millionths of their unit.  The accepted number grammar is
//! an optional minus sign, then digits, then an optional dot and more digits,
//! with at least one digit in all and at most twelve before the dot; extra
//! fraction digits beyond the sixth are cut off.

use vstd::prelude::*;
use crate::bytes::find_at;

verus! {

/// ASCII decimal digit.
pub open spec fn is_digit(b: u8) -> bool {
    48 <= b && b <= 57
}

/// Every byte of `s` is an ASCII digit.
pub open spec fn all_digits(s: Seq<u8>) -> bool {
    forall|i: int| 0 <= i < s.len() ==> is_digit(#[trigger] s[i])
}

/// Value of a digit string read in base ten.
pub open spec fn digits_val(s: Seq<u8>) -> int
    decreases s.len(),
{
    if s.len() == 0 {
        0
    } else {
        digits_val(s.drop_last()) * 10 + (s.last() - 48)
    }
}

/// Ten to the `n`.
pub open spec fn pow10(n: nat) -> int
    decreases n,
{
    if n == 0 {
        1
    } else {
        10 * pow10((n - 1) as nat)
    }
}

pub proof fn lemma_pow10_pos(n: nat)
    ensures
        pow10(n) >= 1,
    decreases n,
{
    if n > 0 {
        lemma_pow10_pos((n - 1) as nat);
    }
}

pub proof fn lemma_pow10_mono(a: nat, b: nat)
    requires
        a <= b,
    ensures
        pow10(a) <= pow10(b),
    decreases b,
{
    if a < b {
        lemma_pow10_mono(a, (b - 1) as nat);
        lemma_pow10_pos((b - 1) as nat);
    }
}

pub proof fn lemma_pow10_add(a: nat, b: nat)
    ensures
        pow10(a) * pow10(b) == pow10(a + b),
    decreases a,
{
    if a > 0 {
        lemma_pow10_add((a - 1) as nat, b);
        assert(pow10(a) * pow10(b) == 10 * (pow10((a - 1) as nat) * pow10(b)))
            by (nonlinear_arith)
            requires pow10(a) == 10 * pow10((a - 1) as nat),
        ;
    }
}

/// A digit string's value is non-negative and below ten to its length.
pub proof fn lemma_digits_val_bounds(s: Seq<u8>)
    requires
        all_digits(s),
    ensures
        0 <= digits_val(s) < pow10(s.len()),
    decreases s.len(),
{
    if s.len() > 0 {
        assert(all_digits(s.drop_last()));
        lemma_digits_val_bounds(s.drop_last());
        assert(is_digit(s.last()));
    }
}

/// Appending a digit multiplies the value by ten and adds the digit.
pub proof fn lemma_digits_val_push(s: Seq<u8>, d: u8)
    ensures
        digits_val(s.push(d)) == digits_val(s) * 10 + (d - 48),
{
    assert(s.push(d).drop_last() =~= s);
    assert(s.push(d).last() == d);
}

/// Unsigned digit-run parse, capped at `u32::MAX`.
pub open spec fn spec_parse_u32(s: Seq<u8>) -> Option<u32> {
    if s.len() == 0 || !all_digits(s) || digits_val(s) > u32::MAX {
        None
    } else {
        Some(digits_val(s) as u32)
    }
}

/// Parse an unsigned digit run as a `u32`; anything else is `None`.
pub fn parse_u32(s: &[u8]) -> (r: Option<u32>)
    ensures
        r == spec_parse_u32(s@),
{
    if s.len() == 0 {
        return None;
    }
    let mut acc: u64 = 0;
    let mut over = false;
    let mut i: usize = 0;
    while i < s.len()
        invariant
            i <= s.len(),
            forall|j: int| 0 <= j < i ==> is_digit(#[trigger] s@[j]),
            !over ==> acc == digits_val(s@.subrange(0, i as int)) && acc <= u32::MAX,
            over ==> digits_val(s@.subrange(0, i as int)) > u32::MAX,
        decreases s.len() - i,
    {
        let b = s[i];
        if b < 48 || b > 57 {
            assert(!all_digits(s@));
            return None;
        }
        proof {
            assert(s@.subrange(0, i + 1) =~= s@.subrange(0, i as int).push(s@[i as int]));
            lemma_digits_val_push(s@.subrange(0, i as int), s@[i as int]);
        }
        if !over {
            acc = acc * 10 + ((b - 48) as u64);
            if acc > 0xFFFF_FFFF {
                over = true;
            }
        }
        i += 1;
    }
    assert(s@.subrange(0, s@.len() as int) =~= s@);
    if over {
        None
    } else {
        Some(acc as u32)
    }
}

/// Signed digit-run parse of at most twelve digits.
pub open spec fn spec_parse_int12(s: Seq<u8>) -> Option<int> {
    if s.len() > 0 && s[0] == 45 {
        match spec_digits12(s.skip(1)) {
            Some(v) => Some(-v),
            None => None,
        }
    } else {
        spec_digits12(s)
    }
}

/// Unsigned digit-run of one to twelve digits.
pub open spec fn spec_digits12(s: Seq<u8>) -> Option<int> {
    if 1 <= s.len() <= 12 && all_digits(s) {
        Some(digits_val(s))
    } else {
        None
    }
}

/// Parse an optionally negated digit run of at most twelve digits.
pub fn parse_int12(s: &[u8]) -> (r: Option<i64>)
    ensures
        match r {
            Some(v) => spec_parse_int12(s@) == Some(v as int)
                && -1_000_000_000_000 < v < 1_000_000_000_000,
            None => spec_parse_int12(s@) is None,
        },
{
    if s.len() > 0 && s[0] == 45 {
        let mag = digits12(&s[1..s.len()]);
        proof {
            assert(s@.subrange(1, s@.len() as int) =~= s@.skip(1));
        }
        match mag {
            Some(v) => Some(-v),
            None => None,
        }
    } else {
        digits12(s)
    }
}

/// Parse one to twelve digits as a non-negative `i64`.
fn digits12(s: &[u8]) -> (r: Option<i64>)
    ensures
        match r {
            Some(v) => spec_digits12(s@) == Some(v as int) && 0 <= v < 1_000_000_000_000,
            None => spec_digits12(s@) is None,
        },
{
    if s.len() == 0 || s.len() > 12 {
        return None;
    }
    let mut acc: i64 = 0;
    let mut i: usize = 0;
    while i < s.len()
        invariant
            i <= s.len() <= 12,
            forall|j: int| 0 <= j < i ==> is_digit(#[trigger] s@[j]),
            acc == digits_val(s@.subrange(0, i as int)),
            0 <= acc < pow10(i as nat),
        decreases s.len() - i,
    {
        let b = s[i];
        if b < 48 || b > 57 {
            assert(!all_digits(s@));
            return None;
        }
        proof {
            assert(s@.subrange(0, i + 1) =~= s@.subrange(0, i as int).push(s@[i as int]));
            lemma_digits_val_push(s@.subrange(0, i as int), s@[i as int]);
            lemma_pow10_mono((i + 1) as nat, 12);
            assert(pow10(12) == 1_000_000_000_000) by {
                reveal_with_fuel(pow10, 13);
            }
        }
        acc = acc * 10 + ((b - 48) as i64);
        i += 1;
    }
    proof {
        assert(s@.subrange(0, s@.len() as int) =~= s@);
        lemma_pow10_mono(s@.len() as nat, 12);
        assert(pow10(12) == 1_000_000_000_000) by {
            reveal_with_fuel(pow10, 13);
        }
    }
    Some(acc)
}

/// Value in millionths of a fraction digit string (first six digits count).
pub open spec fn spec_frac_micro(fp: Seq<u8>) -> int {
    if fp.len() >= 6 {
        digits_val(fp.take(6))
    } else {
        digits_val(fp) * pow10((6 - fp.len()) as nat)
    }
}

/// Millionths value of an unsigned decimal split as integer and fraction parts.
pub open spec fn spec_parts_micro(ip: Seq<u8>, fp: Seq<u8>) -> Option<int> {
    if all_digits(ip) && all_digits(fp) && ip.len() + fp.len() >= 1 && ip.len() <= 12 {
        Some(digits_val(ip) * 1_000_000 + spec_frac_micro(fp))
    } else {
        None
    }
}

/// Millionths value of an unsigned decimal string.
pub open spec fn spec_unsigned_micro(s: Seq<u8>) -> Option<int> {
    match find_at(s, 0, seq![46u8]) {
        Some(k) => spec_parts_micro(s.subrange(0, k), s.subrange(k + 1, s.len() as int)),
        None => spec_parts_micro(s, Seq::empty()),
    }
}

/// Millionths value of a decimal string with an optional minus sign.
pub open spec fn spec_parse_scaled_micro(s: Seq<u8>) -> Option<int> {
    if s.len() > 0 && s[0] == 45 {
        match spec_unsigned_micro(s.skip(1)) {
            Some(v) => Some(-v),
            None => None,
        }
    } else {
        spec_unsigned_micro(s)
    }
}

/// Any successfully parsed millionths value stays below the fixed-point limit.
pub proof fn lemma_scaled_micro_bound(s: Seq<u8>)
    ensures
        match spec_parse_scaled_micro(s) {
            Some(v) => -1_000_000_000_000_000_000 < v < 1_000_000_000_000_000_000,
            None => true,
        },
{
    lemma_unsigned_micro_bound(s);
    if s.len() > 0 && s[0] == 45 {
        lemma_unsigned_micro_bound(s.skip(1));
    }
}

proof fn lemma_unsigned_micro_bound(s: Seq<u8>)
    ensures
        match spec_unsigned_micro(s) {
            Some(v) => 0 <= v < 1_000_000_000_000_000_000,
            None => true,
        },
{
    match find_at(s, 0, seq![46u8]) {
        Some(k) => {
            crate::bytes::lemma_find_at_props(s, 0, seq![46u8]);
            lemma_parts_micro_bound(s.subrange(0, k), s.subrange(k + 1, s.len() as int));
        }
        None => {
            lemma_parts_micro_bound(s, Seq::empty());
        }
    }
}

proof fn lemma_parts_micro_bound(ip: Seq<u8>, fp: Seq<u8>)
    ensures
        match spec_parts_micro(ip, fp) {
            Some(v) => 0 <= v < 1_000_000_000_000_000_000,
            None => true,
        },
{
    if all_digits(ip) && all_digits(fp) && ip.len() + fp.len() >= 1 && ip.len() <= 12 {
        lemma_digits_val_bounds(ip);
        lemma_pow10_mono(ip.len() as nat, 12);
        assert(pow10(12) == 1_000_000_000_000) by {
            reveal_with_fuel(pow10, 13);
        }
        lemma_frac_micro_bound(fp);
        assert(digits_val(ip) * 1_000_000 <= (1_000_000_000_000 - 1) * 1_000_000)
            by (nonlinear_arith)
            requires 0 <= digits_val(ip) <= 1_000_000_000_000 - 1,
        ;
    }
}

/// The fraction part in millionths is below one million.
pub proof fn lemma_frac_micro_bound(fp: Seq<u8>)
    requires
        all_digits(fp),
    ensures
        0 <= spec_frac_micro(fp) < 1_000_000,
{
    assert(pow10(6) == 1_000_000) by {
        reveal_with_fuel(pow10, 7);
    }
    if fp.len() >= 6 {
        assert(all_digits(fp.take(6)));
        lemma_digits_val_bounds(fp.take(6));
    } else {
        lemma_digits_val_bounds(fp);
        lemma_pow10_pos((6 - fp.len()) as nat);
        lemma_pow10_add(fp.len() as nat, (6 - fp.len()) as nat);
        assert(digits_val(fp) * pow10((6 - fp.len()) as nat)
            <= (pow10(fp.len() as nat) - 1) * pow10((6 - fp.len()) as nat))
            by (nonlinear_arith)
            requires
                0 <= digits_val(fp) <= pow10(fp.len() as nat) - 1,
                pow10((6 - fp.len()) as nat) >= 1,
        ;
        assert((pow10(fp.len() as nat) - 1) * pow10((6 - fp.len()) as nat)
            == pow10(fp.len() as nat) * pow10((6 - fp.len()) as nat)
                - pow10((6 - fp.len()) as nat))
            by (nonlinear_arith)
        ;
        assert(0 <= digits_val(fp) * pow10((6 - fp.len()) as nat))
            by (nonlinear_arith)
            requires
                0 <= digits_val(fp),
                pow10((6 - fp.len()) as nat) >= 1,
        ;
    }
}

/// Parse a decimal string into millionths of its unit.
pub fn parse_scaled_micro(s: &[u8]) -> (r: Option<i64>)
    ensures
        match r {
            Some(v) => spec_parse_scaled_micro(s@) == Some(v as int)
                && -1_000_000_000_000_000_000 < v < 1_000_000_000_000_000_000,
            None => spec_parse_scaled_micro(s@) is None,
        },
{
    proof {
        lemma_scaled_micro_bound(s@);
    }
    if s.len() > 0 && s[0] == 45 {
        let mag = unsigned_micro(&s[1..s.len()]);
        proof {
            assert(s@.subrange(1, s@.len() as int) =~= s@.skip(1));
        }
        match mag {
            Some(v) => Some(-v),
            None => None,
        }
    } else {
        unsigned_micro(s)
    }
}

/// Parse an unsigned decimal string into millionths.
fn unsigned_micro(s: &[u8]) -> (r: Option<i64>)
    ensures
        match r {
            Some(v) => spec_unsigned_micro(s@) == Some(v as int),
            None => spec_unsigned_micro(s@) is None,
        },
{
    let dot = crate::bytes::find_byte(s, 0, 46);
    match dot {
        Some(k) => {
            proof {
                crate::bytes::lemma_find_at_props(s@, 0, seq![46u8]);
            }
            let n = s.len();
            assert(k < n);
            let ip = &s[0..k];
            let fp = &s[k + 1..n];
            parts_micro(ip, fp)
        }
        None => {
            let empty: Vec<u8> = Vec::new();
            parts_micro(s, empty.as_slice())
        }
    }
}

/// Combine integer and fraction digit parts into millionths.
fn parts_micro(ip: &[u8], fp: &[u8]) -> (r: Option<i64>)
    ensures
        match r {
            Some(v) => spec_parts_micro(ip@, fp@) == Some(v as int),
            None => spec_parts_micro(ip@, fp@) is None,
        },
{
    proof {
        lemma_parts_micro_bound(ip@, fp@);
    }
    if (ip.len() == 0 && fp.len() == 0) || ip.len() > 12 {
        return None;
    }
    // integer part
    let mut acc: i64 = 0;
    let mut i: usize = 0;
    while i < ip.len()
        invariant
            i <= ip.len() <= 12,
            forall|j: int| 0 <= j < i ==> is_digit(#[trigger] ip@[j]),
            acc == digits_val(ip@.subrange(0, i as int)),
            0 <= acc < pow10(i as nat),
        decreases ip.len() - i,
    {
        let b = ip[i];
        if b < 48 || b > 57 {
            assert(!all_digits(ip@));
            return None;
        }
        proof {
            assert(ip@.subrange(0, i + 1) =~= ip@.subrange(0, i as int).push(ip@[i as int]));
            lemma_digits_val_push(ip@.subrange(0, i as int), ip@[i as int]);
            lemma_pow10_mono((i + 1) as nat, 12);
            assert(pow10(12) == 1_000_000_000_000) by {
                reveal_with_fuel(pow10, 13);
            }
        }
        acc = acc * 10 + ((b - 48) as i64);
        i += 1;
    }
    proof {
        assert(ip@.subrange(0, ip@.len() as int) =~= ip@);
        lemma_pow10_mono(ip@.len() as nat, 12);
        assert(pow10(12) == 1_000_000_000_000) by {
            reveal_with_fuel(pow10, 13);
        }
    }
    // fraction part: all bytes must be digits, the first six carry value
    let take = if fp.len() < 6 { fp.len() } else { 6 };
    let mut facc: i64 = 0;
    let mut j: usize = 0;
    while j < fp.len()
        invariant
            j <= fp.len(),
            take == if fp@.len() < 6 { fp@.len() as int } else { 6int },
            forall|m: int| 0 <= m < j ==> is_digit(#[trigger] fp@[m]),
            j <= take ==> facc == digits_val(fp@.subrange(0, j as int))
                && 0 <= facc < pow10(j as nat),
            j > take ==> facc == digits_val(fp@.subrange(0, take as int))
                && 0 <= facc < pow10(take as nat),
        decreases fp.len() - j,
    {
        let b = fp[j];
        if b < 48 || b > 57 {
            assert(!all_digits(fp@));
            return None;
        }
        if j < take {
            proof {
                assert(fp@.subrange(0, j + 1) =~= fp@.subrange(0, j as int).push(fp@[j as int]));
                lemma_digits_val_push(fp@.subrange(0, j as int), fp@[j as int]);
                lemma_pow10_mono((j + 1) as nat, 6);
                assert(pow10(6) == 1_000_000) by {
                    reveal_with_fuel(pow10, 7);
                }
            }
            facc = facc * 10 + ((b - 48) as i64);
        }
        j += 1;
    }
    // scale a short fraction up to six digits
    let mut m: usize = take;
    proof {
        let v = digits_val(fp@.subrange(0, take as int));
        assert(facc == v);
        assert(pow10((m - take) as nat) == 1);
        assert(v * 1 == v) by (nonlinear_arith);
        assert(facc == v * pow10((m - take) as nat));
    }
    while m < 6
        invariant
            take <= m <= 6,
            take == if fp@.len() < 6 { fp@.len() as int } else { 6int },
            all_digits(fp@),
            facc == digits_val(fp@.subrange(0, take as int)) * pow10((m - take) as nat),
            0 <= facc < pow10(m as nat),
        decreases 6 - m,
    {
        proof {
            lemma_pow10_mono((m + 1) as nat, 6);
            assert(pow10(6) == 1_000_000) by {
                reveal_with_fuel(pow10, 7);
            }
            assert(facc * 10 == digits_val(fp@.subrange(0, take as int))
                * pow10((m + 1 - take) as nat))
                by (nonlinear_arith)
                requires
                    facc == digits_val(fp@.subrange(0, take as int))
                        * pow10((m - take) as nat),
                    pow10((m + 1 - take) as nat) == 10 * pow10((m - take) as nat),
            ;
        }
        facc = facc * 10;
        m += 1;
    }
    proof {
        if fp@.len() >= 6 {
            assert(fp@.subrange(0, 6) =~= fp@.take(6));
            assert(facc == spec_frac_micro(fp@));
        } else {
            assert(fp@.subrange(0, fp@.len() as int) =~= fp@);
            assert(facc == spec_frac_micro(fp@));
        }
    }
    Some(acc * 1_000_000 + facc)
}

/// Floor division by a positive divisor.
pub fn floor_div(a: i64, b: i64) -> (r: i64)
    requires
        b > 0,
    ensures
        r == (a as int) / (b as int),
{
    proof {
        vstd::arithmetic::div_mod::lemma_fundamental_div_mod(a as int, b as int);
        vstd::arithmetic::div_mod::lemma_mod_bound(a as int, b as int);
        assert(i64::MIN <= (a as int) / (b as int) <= i64::MAX) by (nonlinear_arith)
            requires
                1 <= b as int,
                i64::MIN <= a as int <= i64::MAX,
                a as int == b as int * ((a as int) / (b as int)) + (a as int) % (b as int),
                0 <= (a as int) % (b as int) < b as int,
        ;
    }
    match a.checked_div_euclid(b) {
        Some(q) => q,
        None => vstd::pervasive::unreached(),
    }
}

/// Floor remainder by a positive divisor.
pub fn floor_mod(a: i64, b: i64) -> (r: i64)
    requires
        b > 0,
    ensures
        r == (a as int) % (b as int),
{
    proof {
        vstd::arithmetic::div_mod::lemma_mod_bound(a as int, b as int);
    }
    match a.checked_rem_euclid(b) {
        Some(m) => m,
        None => vstd::pervasive::unreached(),
    }
}

} // verus!
