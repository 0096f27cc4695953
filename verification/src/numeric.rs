//! Digit handling and the decimal representation behind `Real` values.
//!
//! A real number is kept exactly as a pair `(mant, scale)` standing for
//! `mant / 10^scale`, normalized so that a nonzero mantissa is not divisible
//! by ten while the scale is positive, and a zero mantissa has scale zero.
//! Arithmetic on the pairs is exact; a result whose mantissa no longer fits
//! a 64-bit signed integer is reported as an overflow.

use vstd::prelude::*;

verus! {

/// A decimal digit byte, `'0'` through `'9'`.
pub open spec fn is_dec_digit(c: u8) -> bool {
    0x30 <= c && c <= 0x39
}

/// A digit byte of the given base (2, 8, 10 or 16; hex accepts both cases).
pub open spec fn is_base_digit(c: u8, base: u8) -> bool {
    if base == 16 {
        is_dec_digit(c) || (0x61 <= c && c <= 0x66) || (0x41 <= c && c <= 0x46)
    } else {
        0x30 <= c && c < 0x30 + base
    }
}

/// The numeric value of a digit byte.
pub open spec fn digit_val(c: u8) -> u8 {
    if 0x30 <= c && c <= 0x39 {
        (c - 0x30) as u8
    } else if 0x61 <= c && c <= 0x66 {
        (c - 0x61 + 10) as u8
    } else if 0x41 <= c && c <= 0x46 {
        (c - 0x41 + 10) as u8
    } else {
        0
    }
}

/// Folds a run of digit bytes into an integer, most significant first,
/// starting from `acc`; `None` when the value outgrows `i64`.
pub open spec fn acc_digits(ds: Seq<u8>, base: u8, acc: i64) -> Option<i64>
    decreases ds.len(),
{
    if ds.len() == 0 {
        Some(acc)
    } else {
        let m = acc * base;
        if m > i64::MAX {
            None
        } else {
            let a2 = m + digit_val(ds[0]);
            if a2 > i64::MAX {
                None
            } else {
                acc_digits(ds.drop_first(), base, a2 as i64)
            }
        }
    }
}

/// Decides whether a byte is a digit of the given base.
pub fn base_digit(c: u8, base: u8) -> (r: bool)
    requires
        base == 2 || base == 8 || base == 10 || base == 16,
    ensures
        r == is_base_digit(c, base),
{
    if base == 16 {
        (0x30 <= c && c <= 0x39) || (0x61 <= c && c <= 0x66) || (0x41 <= c && c <= 0x46)
    } else {
        0x30 <= c && c < 0x30 + base
    }
}

/// Reads the digit bytes in `digits` as one integer of the given base,
/// continuing from the start value `start`.
pub fn accumulate_digits(digits: &Vec<u8>, base: u8, start: i64) -> (r: Option<i64>)
    requires
        1 <= base,
        0 <= start,
    ensures
        r == acc_digits(digits@, base, start),
        r matches Some(v) ==> 0 <= v,
{
    let mut acc: i64 = start;
    let mut i: usize = 0;
    assert(digits@.skip(0) =~= digits@);
    while i < digits.len()
        invariant
            0 <= i <= digits.len(),
            0 <= acc,
            1 <= base,
            acc_digits(digits@, base, start) == acc_digits(digits@.skip(i as int), base, acc),
        decreases digits.len() - i,
    {
        let c = digits[i];
        let d: u8 = if 0x30 <= c && c <= 0x39 {
            c - 0x30
        } else if 0x61 <= c && c <= 0x66 {
            c - 0x61 + 10
        } else if 0x41 <= c && c <= 0x46 {
            c - 0x41 + 10
        } else {
            0
        };
        assert(d == digit_val(c));
        assert(digits@.skip(i as int)[0] == c);
        assert(digits@.skip(i as int).drop_first() =~= digits@.skip(i as int + 1));
        let m = match acc.checked_mul(base as i64) {
            Some(m) => m,
            None => {
                return None;
            },
        };
        let a2 = match m.checked_add(d as i64) {
            Some(a2) => a2,
            None => {
                return None;
            },
        };
        acc = a2;
        i = i + 1;
    }
    assert(digits@.skip(i as int) =~= Seq::<u8>::empty());
    Some(acc)
}

/// Strips factors of ten from a nonnegative mantissa while the scale is
/// positive, yielding the canonical decimal pair.
pub open spec fn norm_nat(m: int, sc: int) -> (int, int)
    decreases sc,
{
    if sc <= 0 {
        (m, 0)
    } else if m % 10 != 0 {
        (m, sc)
    } else {
        norm_nat(m / 10, sc - 1)
    }
}

/// Canonical form of a signed decimal pair.
pub open spec fn norm_signed(m: int, sc: int) -> (int, int) {
    if m < 0 {
        let r = norm_nat(-m, sc);
        (-r.0, r.1)
    } else {
        norm_nat(m, sc)
    }
}

/// Normalizes a decimal pair: the result stands for the same number with
/// the smallest possible scale.
pub fn normalize_real(m0: i64, sc0: u64) -> (r: (i64, u64))
    ensures
        (r.0 as int, r.1 as int) == norm_signed(m0 as int, sc0 as int),
{
    if m0 == i64::MIN {
        proof {
            assert(-(i64::MIN as int) == 922337203685477580int * 10 + 8);
            assert((-(i64::MIN as int)) % 10 == 8);
        }
        if sc0 == 0 {
            return (m0, 0);
        }
        return (m0, sc0);
    }
    let neg = m0 < 0;
    let a0: i64 = if neg {
        -m0
    } else {
        m0
    };
    let mut a: i64 = a0;
    let mut sc: u64 = sc0;
    while sc > 0 && a % 10 == 0
        invariant
            0 <= a,
            norm_nat(a0 as int, sc0 as int) == norm_nat(a as int, sc as int),
        decreases sc,
    {
        a = a / 10;
        sc = sc - 1;
    }
    let m_res: i64 = if neg {
        -a
    } else {
        a
    };
    (m_res, sc)
}

/// Multiplies a mantissa by ten, `k` times; `None` on the first overflow.
pub open spec fn scale_up(m: i64, k: int) -> Option<i64>
    decreases k,
{
    if k <= 0 {
        Some(m)
    } else {
        let m10 = m * 10;
        if m10 > i64::MAX || m10 < i64::MIN {
            None
        } else {
            scale_up(m10 as i64, k - 1)
        }
    }
}

/// Brings a mantissa from one scale up to a larger one.
pub fn scale_up_exec(m0: i64, k: u64) -> (r: Option<i64>)
    ensures
        r == scale_up(m0, k as int),
{
    let mut m: i64 = m0;
    let mut rem: u64 = k;
    while rem > 0
        invariant
            scale_up(m0, k as int) == scale_up(m, rem as int),
        decreases rem,
    {
        m = match m.checked_mul(10) {
            Some(m10) => m10,
            None => {
                return None;
            },
        };
        rem = rem - 1;
    }
    Some(m)
}

/// The exact sum of two decimal pairs, normalized; `None` when an
/// intermediate mantissa leaves the 64-bit range.
pub open spec fn real_add_spec(m1: i64, s1: u64, m2: i64, s2: u64) -> Option<(i64, u64)> {
    let big: u64 = if s1 >= s2 {
        s1
    } else {
        s2
    };
    match scale_up(m1, big - s1) {
        None => None,
        Some(a1) => match scale_up(m2, big - s2) {
            None => None,
            Some(a2) => if a1 + a2 > i64::MAX || a1 + a2 < i64::MIN {
                None
            } else {
                let n = norm_signed((a1 + a2) as int, big as int);
                Some((n.0 as i64, n.1 as u64))
            },
        },
    }
}

/// The exact product of two decimal pairs, normalized; `None` on overflow.
pub open spec fn real_mul_spec(m1: i64, s1: u64, m2: i64, s2: u64) -> Option<(i64, u64)> {
    if m1 * m2 > i64::MAX || m1 * m2 < i64::MIN || s1 + s2 > u64::MAX {
        None
    } else {
        let n = norm_signed(m1 * m2, (s1 + s2) as int);
        Some((n.0 as i64, n.1 as u64))
    }
}

/// The negation of a decimal pair; `None` only for the one unrepresentable
/// mantissa.
pub open spec fn real_neg_spec(m: i64, s: u64) -> Option<(i64, u64)> {
    if m == i64::MIN {
        None
    } else {
        Some(((-m) as i64, s))
    }
}

/// Proves that normalization never grows the mantissa's magnitude or scale.
pub proof fn lemma_norm_nat_bounds(m: int, sc: int)
    requires
        0 <= m,
        0 <= sc,
    ensures
        0 <= norm_nat(m, sc).0 <= m,
        0 <= norm_nat(m, sc).1 <= sc,
    decreases sc,
{
    if sc <= 0 || m % 10 != 0 {
    } else {
        lemma_norm_nat_bounds(m / 10, sc - 1);
    }
}

/// Proves that signed normalization keeps the mantissa inside the range of
/// the original and the scale no larger.
pub proof fn lemma_norm_signed_bounds(m: int, sc: int)
    requires
        i64::MIN <= m <= i64::MAX,
        0 <= sc <= u64::MAX,
    ensures
        i64::MIN <= norm_signed(m, sc).0 <= i64::MAX,
        0 <= norm_signed(m, sc).1 <= sc,
{
    if m < 0 {
        lemma_norm_nat_bounds(-m, sc);
    } else {
        lemma_norm_nat_bounds(m, sc);
    }
}

/// Adds two decimal pairs exactly.
pub fn real_add(m1: i64, s1: u64, m2: i64, s2: u64) -> (r: Option<(i64, u64)>)
    ensures
        r == real_add_spec(m1, s1, m2, s2),
{
    let big: u64 = if s1 >= s2 {
        s1
    } else {
        s2
    };
    let a1 = match scale_up_exec(m1, big - s1) {
        Some(a1) => a1,
        None => {
            return None;
        },
    };
    let a2 = match scale_up_exec(m2, big - s2) {
        Some(a2) => a2,
        None => {
            return None;
        },
    };
    let sum = match a1.checked_add(a2) {
        Some(sum) => sum,
        None => {
            return None;
        },
    };
    proof {
        lemma_norm_signed_bounds(sum as int, big as int);
    }
    Some(normalize_real(sum, big))
}

/// Multiplies two decimal pairs exactly.
pub fn real_mul(m1: i64, s1: u64, m2: i64, s2: u64) -> (r: Option<(i64, u64)>)
    ensures
        r == real_mul_spec(m1, s1, m2, s2),
{
    let p = match m1.checked_mul(m2) {
        Some(p) => p,
        None => {
            return None;
        },
    };
    let sc = match s1.checked_add(s2) {
        Some(sc) => sc,
        None => {
            return None;
        },
    };
    proof {
        lemma_norm_signed_bounds(p as int, sc as int);
    }
    Some(normalize_real(p, sc))
}

/// Negates a decimal pair.
pub fn real_neg(m: i64, s: u64) -> (r: Option<(i64, u64)>)
    ensures
        r == real_neg_spec(m, s),
{
    if m == i64::MIN {
        None
    } else {
        Some((-m, s))
    }
}


/// The magnitude of a number.
pub open spec fn abs1(m: int) -> int {
    if m < 0 {
        -m
    } else {
        m
    }
}

/// Ten to the power `k` (one for nonpositive `k`).
pub open spec fn pow10(k: int) -> int
    decreases k,
{
    if k <= 0 {
        1
    } else {
        10 * pow10(k - 1)
    }
}

/// Powers of ten are positive.
pub proof fn lemma_pow10_pos(k: int)
    ensures
        pow10(k) >= 1,
    decreases k,
{
    if k > 0 {
        lemma_pow10_pos(k - 1);
    }
}

/// Powers of ten multiply by adding exponents.
pub proof fn lemma_pow10_add(a: int, b: int)
    requires
        0 <= a,
        0 <= b,
    ensures
        pow10(a + b) == pow10(a) * pow10(b),
    decreases a,
{
    if a == 0 {
    } else {
        lemma_pow10_add(a - 1, b);
        assert(10 * (pow10(a - 1) * pow10(b)) == (10 * pow10(a - 1)) * pow10(b)) by {
            vstd::arithmetic::mul::lemma_mul_is_associative(10, pow10(a - 1), pow10(b));
        }
    }
}

/// Scaling a mantissa up by `k` places multiplies it by ten to the `k`.
pub proof fn lemma_scale_up_val(m: i64, k: int)
    requires
        0 <= k,
    ensures
        scale_up(m, k) matches Some(m2) ==> m2 as int == m * pow10(k),
    decreases k,
{
    if k <= 0 {
    } else {
        let m10 = m * 10;
        if !(m10 > i64::MAX || m10 < i64::MIN) {
            lemma_scale_up_val(m10 as i64, k - 1);
            if let Some(m2) = scale_up(m10 as i64, k - 1) {
                assert((m * 10) * pow10(k - 1) == m * (10 * pow10(k - 1))) by {
                    vstd::arithmetic::mul::lemma_mul_is_associative(m as int, 10, pow10(k - 1));
                }
            }
        }
    }
}

/// Normalizing a nonnegative mantissa keeps the represented number: the
/// output stands for the same value, with a canonical mantissa.
pub proof fn lemma_norm_nat_val(m: int, sc: int)
    requires
        0 <= m,
        0 <= sc,
    ensures
        ({
            let r = norm_nat(m, sc);
            0 <= r.1 <= sc && 0 <= r.0 && m * pow10(r.1) == r.0 * pow10(sc) && (r.1 == 0 || r.0
                % 10 != 0)
        }),
    decreases sc,
{
    if sc <= 0 || m % 10 != 0 {
    } else {
        let m1 = m / 10;
        vstd::arithmetic::div_mod::lemma_fundamental_div_mod(m, 10);
        assert(m == 10 * m1);
        assert(m1 >= 0) by (nonlinear_arith)
            requires
                m >= 0,
                m == 10 * m1,
        ;
        lemma_norm_nat_val(m1, sc - 1);
        let r = norm_nat(m1, sc - 1);
        assert(m * pow10(r.1) == 10 * (m1 * pow10(r.1))) by (nonlinear_arith)
            requires
                m == 10 * m1,
        ;
        assert(10 * (r.0 * pow10(sc - 1)) == r.0 * (10 * pow10(sc - 1))) by (nonlinear_arith);
        assert(pow10(sc) == 10 * pow10(sc - 1));
    }
}

/// Normalizing a signed mantissa keeps the represented number.
pub proof fn lemma_norm_signed_val(m: int, sc: int)
    requires
        0 <= sc,
    ensures
        ({
            let r = norm_signed(m, sc);
            0 <= r.1 <= sc && m * pow10(r.1) == r.0 * pow10(sc) && (r.1 == 0 || abs1(r.0) % 10
                != 0)
        }),
{
    if m < 0 {
        lemma_norm_nat_val(-m, sc);
        let rn = norm_nat(-m, sc);
        assert((-m) * pow10(rn.1) == rn.0 * pow10(sc) ==> m * pow10(rn.1) == (-rn.0) * pow10(
            sc,
        )) by (nonlinear_arith);
    } else {
        lemma_norm_nat_val(m, sc);
    }
}

/// A canonical decimal pair is unique: two normalized pairs that stand for
/// one and the same number are identical.
pub proof fn lemma_canonical_unique(m1: int, s1: int, m2: int, s2: int)
    requires
        0 <= s1,
        0 <= s2,
        s1 == 0 || abs1(m1) % 10 != 0,
        s2 == 0 || abs1(m2) % 10 != 0,
        m1 * pow10(s2) == m2 * pow10(s1),
    ensures
        m1 == m2 && s1 == s2,
    decreases s1,
{
    if s1 == s2 {
        lemma_pow10_pos(s1);
        assert(m1 == m2) by (nonlinear_arith)
            requires
                m1 * pow10(s1) == m2 * pow10(s1),
                pow10(s1) >= 1,
        ;
    } else if s1 < s2 {
        let d = s2 - s1;
        lemma_pow10_add(s1, d);
        lemma_pow10_pos(s1);
        assert(m1 * pow10(d) == m2) by (nonlinear_arith)
            requires
                m1 * pow10(s2) == m2 * pow10(s1),
                pow10(s2) == pow10(s1) * pow10(d),
                pow10(s1) >= 1,
        ;
        assert(pow10(d) == 10 * pow10(d - 1));
        let k = m1 * pow10(d - 1);
        assert(m2 == k * 10) by (nonlinear_arith)
            requires
                m1 * pow10(d) == m2,
                pow10(d) == 10 * pow10(d - 1),
                k == m1 * pow10(d - 1),
        ;
        assert(abs1(m2) == abs1(k) * 10) by (nonlinear_arith)
            requires
                m2 == k * 10,
        ;
        vstd::arithmetic::div_mod::lemma_mod_multiples_basic(abs1(k), 10);
        assert(false);
    } else {
        lemma_canonical_unique(m2, s2, m1, s1);
    }
}

/// The exact-sum law of decimal addition: when the sum is representable,
/// the result stands exactly for the sum of the operands' numbers, in
/// canonical form.
pub proof fn lemma_real_add_val(m1: i64, s1: u64, m2: i64, s2: u64)
    ensures
        real_add_spec(m1, s1, m2, s2) matches Some(r) ==> ({
            let big: int = if s1 >= s2 {
                s1 as int
            } else {
                s2 as int
            };
            0 <= r.1 <= big && (m1 * pow10(big - s1) + m2 * pow10(big - s2)) * pow10(r.1 as int)
                == r.0 * pow10(big) && (r.1 == 0 || abs1(r.0 as int) % 10 != 0)
        }),
{
    let big: int = if s1 >= s2 {
        s1 as int
    } else {
        s2 as int
    };
    if let Some(a1) = scale_up(m1, big - s1) {
        if let Some(a2) = scale_up(m2, big - s2) {
            lemma_scale_up_val(m1, big - s1);
            lemma_scale_up_val(m2, big - s2);
            if !(a1 + a2 > i64::MAX || a1 + a2 < i64::MIN) {
                lemma_norm_signed_val((a1 + a2) as int, big);
                lemma_norm_signed_bounds((a1 + a2) as int, big);
            }
        }
    }
}

/// The exact-product law of decimal multiplication: when the product is
/// representable, the result stands exactly for the product of the
/// operands' numbers, in canonical form.
pub proof fn lemma_real_mul_val(m1: i64, s1: u64, m2: i64, s2: u64)
    ensures
        real_mul_spec(m1, s1, m2, s2) matches Some(r) ==> 0 <= r.1 <= s1 + s2 && (m1 * m2)
            * pow10(r.1 as int) == r.0 * pow10(s1 + s2) && (r.1 == 0 || abs1(r.0 as int) % 10
            != 0),
{
    if !(m1 * m2 > i64::MAX || m1 * m2 < i64::MIN || s1 + s2 > u64::MAX) {
        lemma_norm_signed_val(m1 * m2, s1 + s2);
        lemma_norm_signed_bounds(m1 * m2, s1 + s2);
    }
}


/// Decimal multiplication is associative: wherever both groupings of three
/// real operands are representable, they give one and the same canonical
/// result.
#[verifier::rlimit(60)]
pub proof fn lemma_real_mul_assoc(
    m1: i64,
    s1: u64,
    m2: i64,
    s2: u64,
    m3: i64,
    s3: u64,
    mab: i64,
    sab: u64,
    ml: i64,
    sl: u64,
    mbc: i64,
    sbc: u64,
    mr: i64,
    sr: u64,
)
    requires
        real_mul_spec(m1, s1, m2, s2) == Some((mab, sab)),
        real_mul_spec(mab, sab, m3, s3) == Some((ml, sl)),
        real_mul_spec(m2, s2, m3, s3) == Some((mbc, sbc)),
        real_mul_spec(m1, s1, mbc, sbc) == Some((mr, sr)),
    ensures
        ml == mr,
        sl == sr,
{
    lemma_real_mul_val(m1, s1, m2, s2);
    lemma_real_mul_val(mab, sab, m3, s3);
    lemma_real_mul_val(m2, s2, m3, s3);
    lemma_real_mul_val(m1, s1, mbc, sbc);
    let pab = pow10(sab as int);
    let pl = pow10(sl as int);
    let psbc = pow10(sbc as int);
    let pr = pow10(sr as int);
    let p123 = pow10(s1 + s2 + s3);
    lemma_pow10_add(sab as int, s3 as int);
    lemma_pow10_add(s1 + s2, s3 as int);
    lemma_pow10_add(s1 as int, sbc as int);
    lemma_pow10_add(s1 as int, s2 + s3);
    lemma_pow10_pos(sab as int);
    lemma_pow10_pos(sbc as int);
    lemma_pow10_pos(s1 + s2 + s3);
    let x = (m1 * m2) * m3;
    let p12 = pow10(s1 + s2);
    let p3 = pow10(s3 as int);
    let psab3 = pow10(sab + s3);
    assert(((mab * m3) * pl) * p12 == (ml * psab3) * p12) by (nonlinear_arith)
        requires
            (mab * m3) * pl == ml * psab3,
    ;
    assert(((mab * m3) * pl) * p12 == ((mab * p12) * m3) * pl) by (nonlinear_arith);
    assert((mab * p12) * m3 == ((m1 * m2) * pab) * m3) by (nonlinear_arith)
        requires
            (m1 * m2) * pab == mab * p12,
    ;
    assert(((m1 * m2) * pab) * m3 == x * pab) by (nonlinear_arith)
        requires
            x == (m1 * m2) * m3,
    ;
    assert(((mab * p12) * m3) * pl == (x * pab) * pl) by (nonlinear_arith)
        requires
            (mab * p12) * m3 == x * pab,
    ;
    assert((ml * psab3) * p12 == (ml * p123) * pab) by (nonlinear_arith)
        requires
            psab3 == pab * p3,
            p123 == p12 * p3,
    ;
    assert(x * (pl * pab) == (x * pab) * pl) by (nonlinear_arith);
    assert(x * (pl * pab) == (ml * p123) * pab);
    assert(x * pl == ml * p123) by (nonlinear_arith)
        requires
            x * (pl * pab) == (ml * p123) * pab,
            pab >= 1,
    ;
    let p1 = pow10(s1 as int);
    let p23 = pow10(s2 + s3);
    let ps1bc = pow10(s1 + sbc);
    assert(((m1 * mbc) * pr) * p23 == (mr * ps1bc) * p23) by (nonlinear_arith)
        requires
            (m1 * mbc) * pr == mr * ps1bc,
    ;
    assert(((m1 * mbc) * pr) * p23 == ((mbc * p23) * m1) * pr) by (nonlinear_arith);
    assert((mbc * p23) * m1 == ((m2 * m3) * psbc) * m1) by (nonlinear_arith)
        requires
            (m2 * m3) * psbc == mbc * p23,
    ;
    assert(((m2 * m3) * psbc) * m1 == x * psbc) by (nonlinear_arith)
        requires
            x == (m1 * m2) * m3,
    ;
    assert(((mbc * p23) * m1) * pr == (x * psbc) * pr) by (nonlinear_arith)
        requires
            (mbc * p23) * m1 == x * psbc,
    ;
    assert((mr * ps1bc) * p23 == (mr * p123) * psbc) by (nonlinear_arith)
        requires
            ps1bc == p1 * psbc,
            p123 == p1 * p23,
    ;
    assert(x * (pr * psbc) == (x * psbc) * pr) by (nonlinear_arith);
    assert(x * (pr * psbc) == (mr * p123) * psbc);
    assert(x * pr == mr * p123) by (nonlinear_arith)
        requires
            x * (pr * psbc) == (mr * p123) * psbc,
            psbc >= 1,
    ;
    assert(ml * pr == mr * pl) by (nonlinear_arith)
        requires
            x * pl == ml * p123,
            x * pr == mr * p123,
            p123 >= 1,
    ;
    lemma_canonical_unique(ml as int, sl as int, mr as int, sr as int);
}

/// Decimal addition is associative: wherever both groupings of three real
/// operands are representable, they give one and the same canonical
/// result.
#[verifier::rlimit(60)]
pub proof fn lemma_real_add_assoc(
    m1: i64,
    s1: u64,
    m2: i64,
    s2: u64,
    m3: i64,
    s3: u64,
    mab: i64,
    sab: u64,
    ml: i64,
    sl: u64,
    mbc: i64,
    sbc: u64,
    mr: i64,
    sr: u64,
)
    requires
        real_add_spec(m1, s1, m2, s2) == Some((mab, sab)),
        real_add_spec(mab, sab, m3, s3) == Some((ml, sl)),
        real_add_spec(m2, s2, m3, s3) == Some((mbc, sbc)),
        real_add_spec(m1, s1, mbc, sbc) == Some((mr, sr)),
    ensures
        ml == mr,
        sl == sr,
{
    lemma_real_add_val(m1, s1, m2, s2);
    lemma_real_add_val(mab, sab, m3, s3);
    lemma_real_add_val(m2, s2, m3, s3);
    lemma_real_add_val(m1, s1, mbc, sbc);
    let b1: int = if s1 >= s2 {
        s1 as int
    } else {
        s2 as int
    };
    let b2: int = if sab >= s3 {
        sab as int
    } else {
        s3 as int
    };
    let b3: int = if s2 >= s3 {
        s2 as int
    } else {
        s3 as int
    };
    let b4: int = if s1 >= sbc {
        s1 as int
    } else {
        sbc as int
    };
    let pab = pow10(sab as int);
    let pl = pow10(sl as int);
    let psbc = pow10(sbc as int);
    let pr = pow10(sr as int);
    let pb1 = pow10(b1);
    let pb2 = pow10(b2);
    let pb3 = pow10(b3);
    let pb4 = pow10(b4);
    let a1 = pow10(b1 - s1);
    let a2 = pow10(b1 - s2);
    let e1 = pow10(b2 - sab);
    let e2 = pow10(b2 - s3);
    let c1 = pow10(b3 - s2);
    let c2 = pow10(b3 - s3);
    let d1 = pow10(b4 - s1);
    let d2 = pow10(b4 - sbc);
    lemma_pow10_add(sab as int, b2 - sab);
    lemma_pow10_add(sbc as int, b4 - sbc);
    lemma_pow10_pos(b1);
    lemma_pow10_pos(b2);
    lemma_pow10_pos(b3);
    lemma_pow10_pos(b4);
    let lhs1 = m1 * a1 + m2 * a2;
    let lhs2 = mab * e1 + m3 * e2;
    let lhs3 = m2 * c1 + m3 * c2;
    let lhs4 = m1 * d1 + mbc * d2;
    let u = m1 * (a1 * pb2) + m2 * (a2 * pb2) + m3 * (e2 * pb1);
    let v = m1 * (d1 * pb3) + m2 * (c1 * pb4) + m3 * (c2 * pb4);
    // the left grouping, brought over the common denominator of b1 and b2
    assert((lhs2 * pl) * pb1 == (lhs2 * pb1) * pl) by (nonlinear_arith);
    assert(lhs2 * pb1 == (mab * pb1) * e1 + m3 * (e2 * pb1)) by (nonlinear_arith)
        requires
            lhs2 == mab * e1 + m3 * e2,
    ;
    assert((mab * pb1) * e1 == (lhs1 * pab) * e1) by (nonlinear_arith)
        requires
            mab * pb1 == lhs1 * pab,
    ;
    assert((lhs1 * pab) * e1 == lhs1 * pb2) by (nonlinear_arith)
        requires
            pb2 == pab * e1,
    ;
    assert(lhs1 * pb2 == m1 * (a1 * pb2) + m2 * (a2 * pb2)) by (nonlinear_arith)
        requires
            lhs1 == m1 * a1 + m2 * a2,
    ;
    assert(lhs2 * pb1 == u);
    assert(u * pl == (lhs2 * pb1) * pl) by (nonlinear_arith)
        requires
            u == lhs2 * pb1,
    ;
    assert((ml * pb2) * pb1 == ml * (pb1 * pb2)) by (nonlinear_arith);
    assert((lhs2 * pl) * pb1 == (ml * pb2) * pb1) by (nonlinear_arith)
        requires
            lhs2 * pl == ml * pb2,
    ;
    assert(u * pl == ml * (pb1 * pb2));
    // the right grouping, brought over the common denominator of b3 and b4
    assert((lhs4 * pr) * pb3 == (lhs4 * pb3) * pr) by (nonlinear_arith);
    assert(lhs4 * pb3 == m1 * (d1 * pb3) + (mbc * pb3) * d2) by (nonlinear_arith)
        requires
            lhs4 == m1 * d1 + mbc * d2,
    ;
    assert((mbc * pb3) * d2 == (lhs3 * psbc) * d2) by (nonlinear_arith)
        requires
            mbc * pb3 == lhs3 * psbc,
    ;
    assert((lhs3 * psbc) * d2 == lhs3 * pb4) by (nonlinear_arith)
        requires
            pb4 == psbc * d2,
    ;
    assert(lhs3 * pb4 == m2 * (c1 * pb4) + m3 * (c2 * pb4)) by (nonlinear_arith)
        requires
            lhs3 == m2 * c1 + m3 * c2,
    ;
    assert(lhs4 * pb3 == v);
    assert(v * pr == (lhs4 * pb3) * pr) by (nonlinear_arith)
        requires
            v == lhs4 * pb3,
    ;
    assert((mr * pb4) * pb3 == mr * (pb3 * pb4)) by (nonlinear_arith);
    assert((lhs4 * pr) * pb3 == (mr * pb4) * pb3) by (nonlinear_arith)
        requires
            lhs4 * pr == mr * pb4,
    ;
    assert(v * pr == mr * (pb3 * pb4));
    // the two groupings agree term by term over the full denominator
    lemma_pow10_add(b1 - s1, b4);
    lemma_pow10_add(b4 - s1, b1);
    assert(a1 * pb4 == d1 * pb1);
    lemma_pow10_add(b1 - s2, b3);
    lemma_pow10_add(b3 - s2, b1);
    assert(a2 * pb3 == c1 * pb1);
    lemma_pow10_add(b2 - s3, b3);
    lemma_pow10_add(b3 - s3, b2);
    assert(e2 * pb3 == c2 * pb2);
    assert((m1 * (a1 * pb2)) * (pb3 * pb4) == (m1 * (d1 * pb3)) * (pb1 * pb2)) by (
    nonlinear_arith)
        requires
            a1 * pb4 == d1 * pb1,
    ;
    assert((m2 * (a2 * pb2)) * (pb3 * pb4) == (m2 * (c1 * pb4)) * (pb1 * pb2)) by (
    nonlinear_arith)
        requires
            a2 * pb3 == c1 * pb1,
    ;
    assert((m3 * (e2 * pb1)) * (pb3 * pb4) == (m3 * (c2 * pb4)) * (pb1 * pb2)) by (
    nonlinear_arith)
        requires
            e2 * pb3 == c2 * pb2,
    ;
    assert(u * (pb3 * pb4) == (m1 * (a1 * pb2)) * (pb3 * pb4) + (m2 * (a2 * pb2)) * (pb3 * pb4)
        + (m3 * (e2 * pb1)) * (pb3 * pb4)) by (nonlinear_arith)
        requires
            u == m1 * (a1 * pb2) + m2 * (a2 * pb2) + m3 * (e2 * pb1),
    ;
    assert(v * (pb1 * pb2) == (m1 * (d1 * pb3)) * (pb1 * pb2) + (m2 * (c1 * pb4)) * (pb1 * pb2)
        + (m3 * (c2 * pb4)) * (pb1 * pb2)) by (nonlinear_arith)
        requires
            v == m1 * (d1 * pb3) + m2 * (c1 * pb4) + m3 * (c2 * pb4),
    ;
    assert(u * (pb3 * pb4) == v * (pb1 * pb2));
    // cancel the common denominators
    assert((u * pl) * (pb3 * pb4) == (u * (pb3 * pb4)) * pl) by (nonlinear_arith);
    assert((ml * (pb1 * pb2)) * (pb3 * pb4) == (u * pl) * (pb3 * pb4)) by (nonlinear_arith)
        requires
            u * pl == ml * (pb1 * pb2),
    ;
    assert((v * (pb1 * pb2)) * pl == (v * pl) * (pb1 * pb2)) by (nonlinear_arith);
    assert((ml * (pb1 * pb2)) * (pb3 * pb4) == (ml * (pb3 * pb4)) * (pb1 * pb2)) by (
    nonlinear_arith);
    assert((v * pl) * (pb1 * pb2) == (ml * (pb3 * pb4)) * (pb1 * pb2));
    assert(v * pl == ml * (pb3 * pb4)) by (nonlinear_arith)
        requires
            (v * pl) * (pb1 * pb2) == (ml * (pb3 * pb4)) * (pb1 * pb2),
            pb1 >= 1,
            pb2 >= 1,
    ;
    assert(ml * pr == mr * pl) by (nonlinear_arith)
        requires
            v * pl == ml * (pb3 * pb4),
            v * pr == mr * (pb3 * pb4),
            pb3 >= 1,
            pb4 >= 1,
    ;
    lemma_canonical_unique(ml as int, sl as int, mr as int, sr as int);
}

} // verus!
