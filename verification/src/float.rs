//! IEEE-754 doubles and singles held as their bit patterns.
//!
//! The library never computes with floating-point numbers: payload numbers,
//! link weights and thresholds travel as bit patterns, and the only
//! operations the logic needs on them (ordering, equality, clamping, and the
//! conversion of integers to doubles) are defined and proved here on those
//! bit patterns.
use vstd::prelude::*;

verus! {

/// `2^n`.
pub open spec fn p2(n: nat) -> nat
    decreases n,
{
    if n == 0 { 1 } else { 2 * p2((n - 1) as nat) }
}

/// `floor(log2(u))` for `u >= 1` (and 0 for `u <= 1`).
pub open spec fn log2(u: nat) -> nat
    decreases u,
{
    if u < 2 { 0 } else { 1 + log2(u / 2) }
}

proof fn lemma_p2_pos(n: nat)
    ensures
        p2(n) >= 1,
    decreases n,
{
    if n > 0 {
        lemma_p2_pos((n - 1) as nat);
    }
}

proof fn lemma_p2_add(a: nat, b: nat)
    ensures
        p2(a + b) == p2(a) * p2(b),
    decreases a,
{
    if a == 0 {
        assert(a + b == b);
        assert(p2(a) == 1);
        assert(p2(a) * p2(b) == p2(b)) by (nonlinear_arith) requires p2(a) == 1;
    } else {
        lemma_p2_add((a - 1) as nat, b);
        let c = (a - 1) as nat;
        assert(c + b == (a + b - 1) as nat);
        assert(p2(a + b) == 2 * p2(c + b));
        assert(p2(a) == 2 * p2(c));
        assert(p2(c + b) == p2(c) * p2(b));
        assert(2 * (p2(c) * p2(b)) == (2 * p2(c)) * p2(b)) by (nonlinear_arith);
        assert(p2(a + b) == p2(a) * p2(b));
    }
}

proof fn lemma_p2_mono(a: nat, b: nat)
    requires
        a <= b,
    ensures
        p2(a) <= p2(b),
    decreases b,
{
    if a < b {
        lemma_p2_mono(a, (b - 1) as nat);
        lemma_p2_pos((b - 1) as nat);
    }
}

/// `log2(u)` is the unique `e` with `2^e <= u < 2^(e+1)`.
proof fn lemma_log2(u: nat)
    requires
        u >= 1,
    ensures
        p2(log2(u)) <= u < p2(log2(u) + 1),
    decreases u,
{
    if u >= 2 {
        lemma_log2(u / 2);
        assert(log2(u) == 1 + log2(u / 2));
        let e = log2(u / 2);
        assert(p2(e + 1) == 2 * p2(e));
        assert(p2(e + 2) == 2 * p2(e + 1));
    }
}

proof fn lemma_log2_unique(u: nat, e: nat)
    requires
        p2(e) <= u < p2(e + 1),
    ensures
        log2(u) == e,
    decreases e,
{
    lemma_p2_pos(e);
    if e == 0 {
        assert(u < 2);
    } else {
        assert(p2(e) == 2 * p2((e - 1) as nat));
        assert(p2(e + 1) == 2 * p2(e));
        lemma_log2_unique(u / 2, (e - 1) as nat);
        assert(u >= 2) by {
            lemma_p2_pos((e - 1) as nat);
        }
    }
}

pub open spec fn two52() -> nat { 4_503_599_627_370_496 }

proof fn lemma_p2_values()
    ensures
        p2(52) == two52(),
        p2(53) == two53(),
        p2(63) == two63(),
        p2(64) == 18_446_744_073_709_551_616,
{
    reveal_with_fuel(p2, 66);
}

pub open spec fn two53() -> nat { 9_007_199_254_740_992 }

pub open spec fn two63() -> nat { 9_223_372_036_854_775_808 }

/// The significand `u` rounds to when kept to 53 bits, together with the
/// exponent, for `u >= 1`: round to nearest, ties to even, as IEEE-754
/// prescribes for conversions of integers to doubles.
pub open spec fn rounded(u: nat) -> (nat, nat) {
    let e = log2(u);
    if e <= 52 {
        (u * p2((52 - e) as nat), e)
    } else {
        let s = (e - 52) as nat;
        let q = u / p2(s);
        let r = u % p2(s);
        let h = p2((s - 1) as nat);
        let q1 = if r > h || (r == h && q % 2 == 1) { q + 1 } else { q };
        if q1 == two53() { (two52(), e + 1) } else { (q1, e) }
    }
}

/// Bit pattern of the double nearest to the natural number `u`.
pub open spec fn f64_of_nat(u: nat) -> nat {
    if u == 0 {
        0
    } else {
        let (sig, e) = rounded(u);
        ((e + 1023) * two52() + (sig - two52())) as nat
    }
}

/// Bit pattern of the double nearest to the integer `i` (`i as f64`).
pub open spec fn f64_of_int(i: int) -> nat {
    if i >= 0 { f64_of_nat(i as nat) } else { two63() + f64_of_nat((-i) as nat) }
}

/// A double bit pattern is NaN: all exponent bits set, fraction non-zero.
pub open spec fn f64_is_nan(bits: u64) -> bool {
    (bits as nat % two63()) / two52() == 2047 && bits as nat % two52() != 0
}

/// Order key of a non-NaN double: its magnitude bits, negated for negative
/// numbers.  Keys order doubles as their values do, and both zeros share
/// key 0.
pub open spec fn f64_key(bits: u64) -> int {
    let mag = bits as nat % two63();
    if bits as nat >= two63() { -mag } else { mag as int }
}

/// `partial_cmp` of two doubles given by their bit patterns: `None` when
/// either is NaN, otherwise the sign of the difference of their values.
pub open spec fn f64_order(a: u64, b: u64) -> Option<int> {
    if f64_is_nan(a) || f64_is_nan(b) {
        None
    } else if f64_key(a) < f64_key(b) {
        Some(-1)
    } else if f64_key(a) > f64_key(b) {
        Some(1)
    } else {
        Some(0)
    }
}

/// `==` on two doubles given by their bit patterns.
pub open spec fn f64_eq(a: u64, b: u64) -> bool {
    f64_order(a, b) == Some(0int)
}

/// Whether the double with bit pattern `bits` is NaN.
pub fn f64_bits_is_nan(bits: u64) -> (r: bool)
    ensures
        r == f64_is_nan(bits),
{
    let mag = bits % 0x8000_0000_0000_0000;
    mag / 0x10_0000_0000_0000 == 2047 && bits % 0x10_0000_0000_0000 != 0
}

/// `partial_cmp` of two doubles given by their bit patterns.
pub fn f64_bits_order(a: u64, b: u64) -> (r: Option<i8>)
    ensures
        match f64_order(a, b) {
            None => r is None,
            Some(c) => r matches Some(x) && x as int == c,
        },
{
    if f64_bits_is_nan(a) || f64_bits_is_nan(b) {
        return None;
    }
    let ma = a % 0x8000_0000_0000_0000;
    let mb = b % 0x8000_0000_0000_0000;
    let ka: i128 = if a >= 0x8000_0000_0000_0000 { -(ma as i128) } else { ma as i128 };
    let kb: i128 = if b >= 0x8000_0000_0000_0000 { -(mb as i128) } else { mb as i128 };
    if ka < kb {
        Some(-1)
    } else if ka > kb {
        Some(1)
    } else {
        Some(0)
    }
}

/// `2^n` for `n < 64`.
fn pow2_u64(n: u64) -> (r: u64)
    requires
        n < 64,
    ensures
        r == p2(n as nat),
{
    let mut r: u64 = 1;
    let mut i: u64 = 0;
    while i < n
        invariant
            i <= n < 64,
            r == p2(i as nat),
            r <= 0x8000_0000_0000_0000,
        decreases n - i,
    {
        proof {
            lemma_p2_mono((i + 1) as nat, 63);
            lemma_p2_values();
            assert(p2((i + 1) as nat) == 2 * p2(i as nat));
        }
        r = r * 2;
        i = i + 1;
    }
    r
}

/// `(floor(log2(u)), 2^floor(log2(u)))` for `u >= 1`.
fn log2_u64(u: u64) -> (r: (u64, u64))
    requires
        u >= 1,
    ensures
        r.0 == log2(u as nat),
        r.1 == p2(r.0 as nat),
        r.0 < 64,
{
    let mut e: u64 = 0;
    let mut p: u64 = 1;
    while p <= u / 2
        invariant
            e < 64,
            p == p2(e as nat),
            1 <= p <= u,
        decreases u - p,
    {
        proof {
            assert(p2((e + 1) as nat) == 2 * p2(e as nat));
            if e + 1 >= 64 {
                lemma_p2_mono(64, (e + 1) as nat);
                lemma_p2_values();
            }
        }
        p = p * 2;
        e = e + 1;
    }
    proof {
        assert(p2((e + 1) as nat) == 2 * p2(e as nat));
        lemma_log2_unique(u as nat, e as nat);
    }
    (e, p)
}

/// Bit pattern of `u as f64`.
pub fn f64_bits_of_u64(u: u64) -> (r: u64)
    ensures
        r == f64_of_nat(u as nat),
{
    if u == 0 {
        return 0;
    }
    let (e, p) = log2_u64(u);
    proof {
        lemma_log2(u as nat);
        lemma_p2_values();
        lemma_p2_values();
    }
    if e <= 52 {
        let k = pow2_u64(52 - e);
        proof {
            lemma_p2_add(e as nat, (52 - e) as nat);
            lemma_p2_add((e + 1) as nat, (52 - e) as nat);
            assert(p2(53) == p2((e + 1) as nat) * p2((52 - e) as nat));
            lemma_p2_pos((52 - e) as nat);
            assert(p * k <= u * k) by (nonlinear_arith) requires p <= u;
            assert((u as int) * k < p2((e + 1) as nat) * k) by (nonlinear_arith)
                requires u < p2((e + 1) as nat), k >= 1;
            lemma_p2_pos((52 - e) as nat);
        }
        let sig = u * k;
        (e + 1023) * 0x10_0000_0000_0000 + (sig - 0x10_0000_0000_0000)
    } else {
        let s = e - 52;
        let ps = pow2_u64(s);
        let h = pow2_u64(s - 1);
        proof {
            lemma_p2_pos(s as nat);
        }
        let q = u / ps;
        let rem = u % ps;
        proof {
            lemma_p2_add(52, s as nat);
            lemma_p2_add(53, s as nat);
            assert(p2(s as nat) == 2 * p2((s - 1) as nat));
            // 2^52 * 2^s <= u < 2^53 * 2^s, so 2^52 <= q < 2^53.
            assert(p2(52) * ps <= u);
            assert((u as int) < p2(53) * ps);
            assert(q >= p2(52)) by (nonlinear_arith)
                requires q == u / ps, ps >= 1, p2(52) * ps <= u;
            assert(q < p2(53)) by (nonlinear_arith)
                requires q == u / ps, ps >= 1, (u as int) < p2(53) * ps;
        }
        let up = rem > h || (rem == h && q % 2 == 1);
        let q1 = if up { q + 1 } else { q };
        if q1 == 0x20_0000_0000_0000 {
            (e + 1 + 1023) * 0x10_0000_0000_0000
        } else {
            (e + 1023) * 0x10_0000_0000_0000 + (q1 - 0x10_0000_0000_0000)
        }
    }
}

/// Bit pattern of `i as f64`.
pub fn f64_bits_of_i64(i: i64) -> (r: u64)
    ensures
        r == f64_of_int(i as int),
{
    if i >= 0 {
        f64_bits_of_u64(i as u64)
    } else {
        let mag: u64 = if i == i64::MIN { 0x8000_0000_0000_0000 } else { (-i) as u64 };
        let b = f64_bits_of_u64(mag);
        proof {
            // magnitudes up to 2^63 round to at most 2^63, whose pattern is below the sign bit
            assert(b < 0x8000_0000_0000_0000) by {
                lemma_f64_of_small(mag as nat);
            }
        }
        0x8000_0000_0000_0000 + b
    }
}

proof fn lemma_f64_of_small(u: nat)
    requires
        u <= two63(),
    ensures
        f64_of_nat(u) < two63(),
{
    if u > 0 {
        lemma_log2(u);
        let e = log2(u);
        lemma_p2_values();
        if e > 63 {
            lemma_p2_mono(64, e);
            assert(p2(64) == 2 * p2(63));
        }
        let (sig, e2) = rounded(u);
        assert(e2 <= 64);
        assert(sig < two53()) by {
            if e > 52 {
                let s = (e - 52) as nat;
                lemma_p2_pos(s);
                lemma_p2_add(53, s);
                lemma_p2_values();
                assert(u / p2(s) < p2(53)) by (nonlinear_arith)
                    requires u < p2(53) * p2(s), p2(s) >= 1;
            } else {
                lemma_p2_add((e + 1) as nat, (52 - e) as nat);
                lemma_p2_pos((52 - e) as nat);
                lemma_p2_values();
                assert(u * p2((52 - e) as nat) < p2((e + 1) as nat) * p2((52 - e) as nat)) by (nonlinear_arith)
                    requires u < p2((e + 1) as nat), p2((52 - e) as nat) >= 1;
            }
        }
    }
}

// ---------------------------------------------------------------------------
// Singles (link weights, thresholds)
// ---------------------------------------------------------------------------

pub open spec fn two23() -> nat { 8_388_608 }

pub open spec fn two31() -> nat { 2_147_483_648 }

/// A single bit pattern is NaN.
pub open spec fn f32_is_nan(bits: u32) -> bool {
    (bits as nat % two31()) / two23() == 255 && bits as nat % two23() != 0
}

/// Order key of a non-NaN single, as for doubles.
pub open spec fn f32_key(bits: u32) -> int {
    let mag = bits as nat % two31();
    if bits as nat >= two31() { -mag } else { mag as int }
}

/// `a < b` on singles given by their bit patterns.
pub open spec fn f32_lt(a: u32, b: u32) -> bool {
    !f32_is_nan(a) && !f32_is_nan(b) && f32_key(a) < f32_key(b)
}

/// `a >= b` on singles given by their bit patterns.
pub open spec fn f32_ge(a: u32, b: u32) -> bool {
    !f32_is_nan(a) && !f32_is_nan(b) && f32_key(a) >= f32_key(b)
}

/// `a >= b` on singles given by their bit patterns.
pub fn f32_bits_ge(a: u32, b: u32) -> (r: bool)
    ensures
        r == f32_ge(a, b),
{
    !f32_bits_is_nan(a) && !f32_bits_is_nan(b) && !f32_bits_lt(a, b)
}

/// Bit pattern of the single 0.0.
pub const F32_ZERO: u32 = 0;

/// Bit pattern of the single 1.0.
pub const F32_ONE: u32 = 0x3F80_0000;

/// `f32::clamp(x, 0.0, 1.0)` on bit patterns: NaN stays NaN, values below
/// zero become 0.0, values above one become 1.0, others are kept as they are.
pub open spec fn f32_unit_clamp(x: u32) -> u32 {
    if f32_lt(x, F32_ZERO) {
        F32_ZERO
    } else if f32_lt(F32_ONE, x) {
        F32_ONE
    } else {
        x
    }
}

/// Whether the single with bit pattern `bits` is NaN.
pub fn f32_bits_is_nan(bits: u32) -> (r: bool)
    ensures
        r == f32_is_nan(bits),
{
    let mag = bits % 0x8000_0000;
    mag / 0x80_0000 == 255 && bits % 0x80_0000 != 0
}

/// `a < b` on singles given by their bit patterns.
pub fn f32_bits_lt(a: u32, b: u32) -> (r: bool)
    ensures
        r == f32_lt(a, b),
{
    if f32_bits_is_nan(a) || f32_bits_is_nan(b) {
        return false;
    }
    let ma = a % 0x8000_0000;
    let mb = b % 0x8000_0000;
    let ka: i64 = if a >= 0x8000_0000 { -(ma as i64) } else { ma as i64 };
    let kb: i64 = if b >= 0x8000_0000 { -(mb as i64) } else { mb as i64 };
    ka < kb
}

/// `f32::clamp(x, 0.0, 1.0)` on bit patterns.
pub fn f32_bits_unit_clamp(x: u32) -> (r: u32)
    ensures
        r == f32_unit_clamp(x),
{
    if f32_bits_lt(x, F32_ZERO) {
        F32_ZERO
    } else if f32_bits_lt(F32_ONE, x) {
        F32_ONE
    } else {
        x
    }
}

/// The bit pattern of the double equal to the single with bit pattern `b`
/// (IEEE-754 widening, which is exact): infinities and NaNs keep their
/// payload shifted into place, normal numbers get their exponent rebased,
/// subnormal singles become normal doubles.
pub open spec fn f64_of_f32(b: u32) -> nat {
    let sign = (b as nat / two31()) * two63();
    let e = (b as nat % two31()) / two23();
    let f = b as nat % two23();
    if e == 255 {
        sign + 2047 * two52() + f * p2(29)
    } else if e == 0 && f == 0 {
        sign
    } else if e == 0 {
        let k = log2(f);
        (sign + (k + 874) * two52() + (f - p2(k)) * p2((52 - k) as nat)) as nat
    } else {
        sign + (e + 896) * two52() + f * p2(29)
    }
}

/// Widens a single to a double, on bit patterns.
#[verifier::spinoff_prover]
#[verifier::rlimit(40)]
pub fn f64_bits_of_f32(b: u32) -> (r: u64)
    ensures
        r == f64_of_f32(b),
{
    proof {
        lemma_p2_values();
        assert(p2(29) == 536_870_912) by {
            reveal_with_fuel(p2, 30);
        }
    }
    let sign: u64 = if b >= 0x8000_0000 { 0x8000_0000_0000_0000 } else { 0 };
    let e: u64 = ((b % 0x8000_0000) / 0x80_0000) as u64;
    let f: u64 = (b % 0x80_0000) as u64;
    if e == 255 {
        sign + 2047 * 0x10_0000_0000_0000 + f * 536_870_912
    } else if e == 0 && f == 0 {
        sign
    } else if e == 0 {
        let (k, pk) = log2_u64(f);
        proof {
            lemma_log2(f as nat);
            assert(k < 23) by {
                if k >= 23 {
                    lemma_p2_mono(23, k as nat);
                    assert(p2(23) == 8_388_608) by {
                        reveal_with_fuel(p2, 24);
                    }
                }
            }
        }
        let shift = pow2_u64(52 - k);
        proof {
            lemma_p2_mono((52 - k) as nat, 52);
            assert(p2(52) == two52());
            assert((f - pk) * shift <= 8_388_608 * 4_503_599_627_370_496) by (nonlinear_arith)
                requires
                    f - pk <= 8_388_608,
                    shift <= 4_503_599_627_370_496,
                    f >= pk,
            ;
            assert((f - pk) * shift < p2(52)) by {
                lemma_p2_add(k as nat, (52 - k) as nat);
                assert(f - pk < pk) by {
                    assert(p2((k + 1) as nat) == 2 * p2(k as nat));
                }
                assert((f - pk) * shift < pk * shift) by (nonlinear_arith)
                    requires
                        f - pk < pk,
                        shift >= 1,
                ;
            }
        }
        sign + (k + 874) * 0x10_0000_0000_0000 + (f - pk) * shift
    } else {
        sign + (e + 896) * 0x10_0000_0000_0000 + f * 536_870_912
    }
}


/// `m / 2^t` rounded to the nearest integer, ties to even (`t >= 1`).
pub open spec fn round_shift(m: nat, t: nat) -> nat {
    let q = m / p2(t);
    let r = m % p2(t);
    let h = p2((t - 1) as nat);
    if r > h || (r == h && q % 2 == 1) { q + 1 } else { q }
}

/// The bit pattern of `x as f32` for the double with bit pattern `bits`
/// (IEEE-754 narrowing, round to nearest, ties to even): NaNs stay quiet
/// NaNs with the high payload bits, values beyond the single range become
/// infinities, small values become subnormal singles or zero.
pub open spec fn f32_of_f64(bits: u64) -> nat {
    let sign: nat = if bits as nat >= two63() { two31() } else { 0 };
    let e = (bits as nat % two63()) / two52();
    let f = bits as nat % two52();
    if e == 2047 {
        if f == 0 { sign + 0x7F80_0000 } else { sign + 0x7FC0_0000 + (f / p2(29)) % 0x40_0000 }
    } else if e >= 897 {
        let q = round_shift(f + two52(), 29);
        let carry: nat = if q == p2(24) { 1 } else { 0 };
        let q2: nat = if q == p2(24) { two23() } else { q };
        let biased = (e - 896 + carry) as nat;
        if biased > 254 { sign + 0x7F80_0000 } else { (sign + biased * two23() + (q2 - two23())) as nat }
    } else if e == 0 {
        sign + round_shift(f, 925)
    } else {
        sign + round_shift(f + two52(), (926 - e) as nat)
    }
}

/// `round_shift` for shifts below 64.
fn round_shift_u64(m: u64, t: u64) -> (r: u64)
    requires
        1 <= t < 64,
    ensures
        r == round_shift(m as nat, t as nat),
{
    let p = pow2_u64(t);
    let h = pow2_u64(t - 1);
    proof {
        lemma_p2_pos(t as nat);
        assert(p2(t as nat) == 2 * p2((t - 1) as nat));
    }
    let q = m / p;
    let r = m % p;
    proof {
        assert(q <= m) by (nonlinear_arith) requires q == m / p, p >= 1;
        if q == u64::MAX {
            assert(m / p == u64::MAX);
            assert(p >= 2) by { lemma_p2_pos((t - 1) as nat); }
            assert(q * p <= m) by (nonlinear_arith) requires q == m / p, p >= 1;
            assert(q * p >= q * 2) by (nonlinear_arith) requires p >= 2;
        }
    }
    if r > h || (r == h && q % 2 == 1) { q + 1 } else { q }
}

/// A double significand shifted by 64 or more rounds to zero.
proof fn lemma_round_shift_far(m: nat, t: nat)
    requires
        m < two53(),
        t >= 64,
    ensures
        round_shift(m, t) == 0,
{
    lemma_p2_values();
    lemma_p2_mono(53, (t - 1) as nat);
    assert(p2(t) == 2 * p2((t - 1) as nat));
    assert(m / p2(t) == 0) by (nonlinear_arith) requires m < p2(t);
    assert(m % p2(t) == m) by (nonlinear_arith) requires m < p2(t);
}

/// Narrows a double to a single, on bit patterns.
pub fn f32_bits_of_f64(bits: u64) -> (r: u32)
    ensures
        r as nat == f32_of_f64(bits),
{
    proof {
        lemma_p2_values();
        assert(p2(29) == 536_870_912) by {
            reveal_with_fuel(p2, 30);
        }
        assert(p2(24) == 16_777_216) by {
            reveal_with_fuel(p2, 25);
        }
    }
    let sign: u64 = if bits >= 0x8000_0000_0000_0000 { 0x8000_0000 } else { 0 };
    let e: u64 = (bits % 0x8000_0000_0000_0000) / 0x10_0000_0000_0000;
    let f: u64 = bits % 0x10_0000_0000_0000;
    if e == 2047 {
        if f == 0 {
            (sign + 0x7F80_0000) as u32
        } else {
            (sign + 0x7FC0_0000 + (f / 536_870_912) % 0x40_0000) as u32
        }
    } else if e >= 897 {
        let m = f + 0x10_0000_0000_0000;
        let q = round_shift_u64(m, 29);
        proof {
            assert(q >= 8_388_608 && q <= 16_777_216) by {
                assert(m / 536_870_912 >= 8_388_608);
                assert(m / 536_870_912 < 16_777_216);
            }
        }
        let carry: u64 = if q == 16_777_216 { 1 } else { 0 };
        let q2: u64 = if q == 16_777_216 { 8_388_608 } else { q };
        let biased = e - 896 + carry;
        if biased > 254 {
            (sign + 0x7F80_0000) as u32
        } else {
            (sign + biased * 8_388_608 + (q2 - 8_388_608)) as u32
        }
    } else {
        let m = if e == 0 { f } else { f + 0x10_0000_0000_0000 };
        let t: u64 = if e == 0 { 925 } else { 926 - e };
        if t >= 64 {
            proof {
                lemma_round_shift_far(m as nat, t as nat);
            }
            sign as u32
        } else {
            let q = round_shift_u64(m, t);
            proof {
                // shifting a 53-bit significand by 30 or more leaves at most 2^23
                assert(t >= 30);
                lemma_p2_mono(30, t as nat);
                assert(p2(30) == 1_073_741_824) by {
                    reveal_with_fuel(p2, 31);
                }
                lemma_p2_mono(29, (t - 1) as nat);
                assert((m as nat) / p2(t as nat) <= 8_388_607) by (nonlinear_arith)
                    requires m < 9_007_199_254_740_992, p2(t as nat) >= 1_073_741_824;
            }
            (sign + q) as u32
        }
    }
}


// ---------------------------------------------------------------------------
// Quotients of counts as singles
// ---------------------------------------------------------------------------

/// The value of the natural `x` rounded to a single's 24 significant bits
/// (round to nearest, ties to even): the value of `x as f32`.
pub open spec fn f32_round_nat(x: nat) -> nat {
    if x < p2(24) {
        x
    } else {
        let s = (log2(x) - 23) as nat;
        round_shift(x, s) * p2(s)
    }
}

/// `floor(log2(a / b))` for positive `a` and `b`.
pub open spec fn ratio_exp(a: nat, b: nat) -> int {
    let d = log2(a) - log2(b);
    if d >= 0 {
        if a >= b * p2(d as nat) { d } else { d - 1 }
    } else {
        if a * p2((-d) as nat) >= b { d } else { d - 1 }
    }
}

/// The bit pattern of the single nearest to `a / b` (ties to even), for
/// `b > 0` and a quotient in the range of normal singles or zero: the
/// significand is the quotient scaled into `[2^23, 2^24)` and rounded, a
/// carry into `2^24` raises the exponent.
pub open spec fn f32_of_ratio(a: nat, b: nat) -> u32 {
    if a == 0 {
        0
    } else {
        let e = ratio_exp(a, b);
        let num = if e <= 23 { a * p2((23 - e) as nat) } else { a };
        let den = if e <= 23 { b } else { b * p2((e - 23) as nat) };
        let q = num / den;
        let r = num % den;
        let q1 = if 2 * r > den || (2 * r == den && q % 2 == 1) { q + 1 } else { q };
        let bits: int = if q1 == p2(24) {
            (e + 128) * 8_388_608
        } else {
            (e + 127) * 8_388_608 + (q1 - 8_388_608)
        };
        bits as u32
    }
}


/// Values of the powers of two the 128-bit routines need.
proof fn lemma_p2_big()
    ensures
        p2(24) == 16_777_216,
        p2(43) == 8_796_093_022_208,
        p2(67) == 0x8_0000_0000_0000_0000,
        p2(68) == 0x10_0000_0000_0000_0000,
        p2(69) == 0x20_0000_0000_0000_0000,
        p2(92) == 0x1000_0000_0000_0000_0000_0000,
        p2(127) == 0x8000_0000_0000_0000_0000_0000_0000_0000,
        p2(128) == 0x1_0000_0000_0000_0000_0000_0000_0000_0000,
{
    lemma_p2_values();
    assert(p2(3) == 8 && p2(4) == 16 && p2(5) == 32) by {
        reveal_with_fuel(p2, 6);
    }
    assert(p2(24) == 16_777_216) by {
        reveal_with_fuel(p2, 25);
    }
    assert(p2(28) == 268_435_456) by {
        reveal_with_fuel(p2, 29);
    }
    assert(p2(43) == 8_796_093_022_208) by {
        reveal_with_fuel(p2, 44);
    }
    lemma_p2_add(64, 3);
    lemma_p2_add(64, 4);
    lemma_p2_add(64, 5);
    lemma_p2_add(64, 28);
    lemma_p2_add(64, 63);
    lemma_p2_add(64, 64);
}

/// `2^n` for `n < 128`.
fn pow2_u128(n: u32) -> (r: u128)
    requires
        n < 128,
    ensures
        r == p2(n as nat),
{
    let mut r: u128 = 1;
    let mut i: u32 = 0;
    while i < n
        invariant
            i <= n < 128,
            r == p2(i as nat),
        decreases n - i,
    {
        proof {
            lemma_p2_mono((i + 1) as nat, 127);
            lemma_p2_big();
            assert(p2((i + 1) as nat) == 2 * p2(i as nat));
        }
        r = r * 2;
        i = i + 1;
    }
    r
}

/// `floor(log2(u))` for `u >= 1`.
fn log2_u128(u: u128) -> (r: u32)
    requires
        u >= 1,
    ensures
        r == log2(u as nat),
        r < 128,
        p2(r as nat) <= u < p2(r as nat + 1),
{
    let mut e: u32 = 0;
    let mut p: u128 = 1;
    while p <= u / 2
        invariant
            e < 128,
            p == p2(e as nat),
            1 <= p <= u,
        decreases u - p,
    {
        proof {
            assert(p2((e + 1) as nat) == 2 * p2(e as nat));
            if e + 1 >= 128 {
                lemma_p2_mono(128, (e + 1) as nat);
                lemma_p2_big();
            }
        }
        p = p * 2;
        e = e + 1;
    }
    proof {
        assert(p2((e + 1) as nat) == 2 * p2(e as nat));
        lemma_log2_unique(u as nat, e as nat);
    }
    e
}

/// `round_shift` on 128-bit numbers.
fn round_shift_u128(m: u128, t: u32) -> (r: u128)
    requires
        1 <= t < 128,
        m < 0x8000_0000_0000_0000_0000_0000_0000_0000,
    ensures
        r == round_shift(m as nat, t as nat),
        r * p2(t as nat) <= m + p2(t as nat),
        m >= p2(t as nat) ==> r >= 1,
{
    let p = pow2_u128(t);
    let h = pow2_u128(t - 1);
    proof {
        lemma_p2_pos(t as nat);
        assert(p2(t as nat) == 2 * p2((t - 1) as nat));
    }
    let q = m / p;
    let r = m % p;
    proof {
        assert(q * p <= m) by (nonlinear_arith) requires q == m / p, p >= 1;
        assert(q <= m) by (nonlinear_arith) requires q == m / p, p >= 1;
        assert((q + 1) * p <= m + p) by (nonlinear_arith) requires q * p <= m;
        if m >= p {
            assert(q >= 1) by (nonlinear_arith) requires q == m / p, m >= p, p >= 1;
        }
    }
    if r > h || (r == h && q % 2 == 1) { q + 1 } else { q }
}

/// `f32_round_nat` for numbers up to `2^66`.
pub fn f32_round_u128(x: u128) -> (r: u128)
    requires
        x <= 0x4_0000_0000_0000_0000,
    ensures
        r == f32_round_nat(x as nat),
        r <= 0x8_0000_0000_0000_0000,
        x >= 1 ==> r >= 1,
{
    proof {
        lemma_p2_big();
    }
    if x < 16_777_216 {
        return x;
    }
    let e = log2_u128(x);
    proof {
        if e < 24 {
            lemma_p2_mono(e as nat + 1, 24);
        }
        if e > 66 {
            lemma_p2_mono(67, e as nat);
        }
    }
    let s = e - 23;
    proof {
        lemma_p2_mono(s as nat, e as nat);
    }
    let q = round_shift_u128(x, s);
    let p = pow2_u128(s);
    proof {
        lemma_p2_mono(s as nat, 43);
        lemma_p2_pos(s as nat);
        assert(q * p >= 1) by (nonlinear_arith) requires q >= 1, p >= 1;
    }
    q * p
}

/// A bound on products of powers of two.
proof fn lemma_mul_below(x: nat, n: nat, m: nat)
    requires
        x < p2(n),
    ensures
        x * p2(m) < p2(n + m),
{
    lemma_p2_add(n, m);
    lemma_p2_pos(m);
    assert(x * p2(m) < p2(n) * p2(m)) by (nonlinear_arith) requires x < p2(n), p2(m) >= 1;
}

/// `ratio_exp(a, b)`, with the logarithms of `a` and `b`.
fn ratio_exp_u128(a: u128, b: u128) -> (r: (i64, u32, u32))
    requires
        1 <= a <= 0x8_0000_0000_0000_0000,
        1 <= b <= 0x8_0000_0000_0000_0000,
    ensures
        r.0 == ratio_exp(a as nat, b as nat),
        r.1 == log2(a as nat),
        r.2 == log2(b as nat),
        r.1 <= 67,
        r.2 <= 67,
        r.1 - r.2 - 1 <= r.0 <= r.1 - r.2,
{
    let la = log2_u128(a);
    let lb = log2_u128(b);
    proof {
        lemma_p2_big();
        if la > 67 {
            lemma_p2_mono(68, la as nat);
        }
        if lb > 67 {
            lemma_p2_mono(68, lb as nat);
        }
        lemma_p2_mono(la as nat + 1, 69);
        lemma_p2_mono(lb as nat + 1, 69);
    }
    if la >= lb {
        let d = la - lb;
        let pd = pow2_u128(d);
        proof {
            lemma_mul_below(b as nat, lb as nat + 1, d as nat);
        }
        let e = if a >= b * pd { d as i64 } else { d as i64 - 1 };
        (e, la, lb)
    } else {
        let d = lb - la;
        let pd = pow2_u128(d);
        proof {
            lemma_mul_below(a as nat, la as nat + 1, d as nat);
        }
        let e = if a * pd >= b { -(d as i64) } else { -(d as i64) - 1 };
        (e, la, lb)
    }
}

/// The bit pattern of the single nearest to `a / b` (see `f32_of_ratio`).
pub fn f32_bits_of_ratio(a: u128, b: u128) -> (r: u32)
    requires
        a <= 0x8_0000_0000_0000_0000,
        1 <= b <= 0x8_0000_0000_0000_0000,
    ensures
        r == f32_of_ratio(a as nat, b as nat),
{
    if a == 0 {
        return 0;
    }
    let (e, la, lb) = ratio_exp_u128(a, b);
    proof {
        lemma_p2_big();
        lemma_log2(a as nat);
        lemma_log2(b as nat);
    }
    let num: u128;
    let den: u128;
    if e <= 23 {
        let k = (23 - e) as u32;
        proof {
            lemma_mul_below(a as nat, la as nat + 1, k as nat);
            lemma_p2_mono(la as nat + 1 + k as nat, 92);
        }
        num = a * pow2_u128(k);
        den = b;
    } else {
        let k = (e - 23) as u32;
        proof {
            lemma_mul_below(b as nat, lb as nat + 1, k as nat);
            lemma_p2_mono(lb as nat + 1 + k as nat, 92);
        }
        num = a;
        let pk = pow2_u128(k);
        proof {
            lemma_p2_pos(k as nat);
            assert(b * pk >= 1) by (nonlinear_arith) requires b >= 1, pk >= 1;
        }
        den = b * pk;
    }
    quotient_bits(num, den, e)
}

/// The bits of a single with exponent `e` and significand the rounded
/// quotient `num / den`.
fn quotient_bits(num: u128, den: u128, e: i64) -> (r: u32)
    requires
        1 <= den <= 0x1000_0000_0000_0000_0000_0000,
        num <= 0x1000_0000_0000_0000_0000_0000,
        -200 <= e <= 200,
    ensures
        r == ({
            let q = num as nat / den as nat;
            let rem = num as nat % den as nat;
            let q1 = if 2 * rem > den || (2 * rem == den && q % 2 == 1) { q + 1 } else { q };
            let bits: int = if q1 == 16_777_216 {
                (e + 128) * 8_388_608
            } else {
                (e + 127) * 8_388_608 + (q1 - 8_388_608)
            };
            bits as u32
        }),
{
    let q = num / den;
    let rem = num % den;
    proof {
        assert(q <= num) by (nonlinear_arith) requires q == num / den, den >= 1;
    }
    let q1: u128 = if 2 * rem > den || (2 * rem == den && q % 2 == 1) { q + 1 } else { q };
    let bits: i128 = if q1 == 16_777_216 {
        (e as i128 + 128) * 8_388_608
    } else {
        (e as i128 + 127) * 8_388_608 + (q1 as i128 - 8_388_608)
    };
    bits as u32
}

} // verus!
