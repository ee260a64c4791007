//! Overflow-safe modular arithmetic for affine recurrences.
//!
//! An affine recurrence `x ↦ a·x + c (mod m)` advanced `n` steps at once
//! needs `aⁿ mod m` and the geometric series `1 + a + … + aⁿ⁻¹`; the
//! functions here compute both, plus a canonical non-negative remainder
//! for signed jump distances, all without intermediate overflow.
//!
//! `mul_mod` works at the widest native width (128 bits), where no larger
//! type is available for intermediate products, by binary long
//! multiplication; the narrower widths widen to the next native type,
//! multiply, and reduce.

use vstd::arithmetic::div_mod::{
    lemma_fundamental_div_mod, lemma_fundamental_div_mod_converse_mod, lemma_mod_bound,
    lemma_mod_multiples_vanish, lemma_mod_twice, lemma_mul_mod_noop_general,
    lemma_mul_mod_noop_left, lemma_small_mod,
};
use vstd::arithmetic::mul::{
    lemma_mul_basics, lemma_mul_is_associative, lemma_mul_is_commutative,
    lemma_mul_is_distributive_add, lemma_mul_is_distributive_add_other_way, lemma_mul_upper_bound,
};
use vstd::arithmetic::power::{
    lemma_pow0, lemma_pow1, lemma_pow_adds, lemma_pow_mod_noop, lemma_pow_multiplies,
    lemma_square_is_pow2, pow,
};
use vstd::math::abs;
use vstd::prelude::*;

verus! {

/// The geometric series `1 + r + r² + … + r^(n-1)`, summed to `n` terms:
/// exactly the naive loop `sum += r^i for i in 0..n`.
pub open spec fn geom_series(r: int, n: nat) -> int
    decreases n,
{
    if n == 0 {
        0
    } else {
        geom_series(r, (n - 1) as nat) + pow(r, (n - 1) as nat)
    }
}

/// Peeling the constant term off a geometric series:
/// `1 + r + … + r^(k-1) == r·(1 + r + … + r^(k-2)) + 1`.
pub proof fn lemma_geom_series_peel_left(r: int, k: nat)
    requires
        k >= 1,
    ensures
        geom_series(r, k) == r * geom_series(r, (k - 1) as nat) + 1,
    decreases k,
{
    if k == 1 {
        lemma_pow0(r);
        lemma_mul_basics(r);
    } else {
        lemma_geom_series_peel_left(r, (k - 1) as nat);
        assert(geom_series(r, k) == geom_series(r, (k - 1) as nat) + pow(r, (k - 1) as nat));
        lemma_pow1(r);
        lemma_pow_adds(r, 1, (k - 2) as nat);
        assert(pow(r, (k - 1) as nat) == r * pow(r, (k - 2) as nat));
        lemma_mul_is_distributive_add(
            r,
            geom_series(r, (k - 2) as nat),
            pow(r, (k - 2) as nat),
        );
    }
}

/// `n` repeated modular multiplications by `base`, starting from 1:
/// the step-at-a-time fold that `pow_mod` must agree with.  Zero
/// applications leave the starting 1 as it stands, unreduced.
pub open spec fn repeated_mul_mod(base: int, n: nat, m: int) -> int
    decreases n,
{
    if n == 0 {
        1int
    } else {
        (repeated_mul_mod(base, (n - 1) as nat, m) * base) % m
    }
}

/// Exponentiation by squaring agrees with `n` repeated modular
/// multiplications: the fold is 1 at `n == 0` and `baseⁿ mod m` for
/// every `n > 0`.
pub proof fn lemma_pow_mod_is_repeated_mul_mod(base: int, n: nat, m: int)
    requires
        m > 0,
    ensures
        n == 0 ==> repeated_mul_mod(base, n, m) == 1,
        n > 0 ==> repeated_mul_mod(base, n, m) == pow(base, n) % m,
    decreases n,
{
    if n == 1 {
        lemma_pow1(base);
        lemma_mul_basics(base);
        assert(repeated_mul_mod(base, 0, m) == 1);
        assert(repeated_mul_mod(base, 1, m) == (1 * base) % m);
    } else if n > 1 {
        lemma_pow_mod_is_repeated_mul_mod(base, (n - 1) as nat, m);
        assert(repeated_mul_mod(base, n, m) == ((pow(base, (n - 1) as nat) % m) * base) % m);
        lemma_mul_mod_noop_left(pow(base, (n - 1) as nat), base, m);
        lemma_mul_is_commutative(base, pow(base, (n - 1) as nat));
        lemma_pow1(base);
        lemma_pow_adds(base, (n - 1) as nat, 1);
        assert(pow(base, n) == pow(base, (n - 1) as nat) * base);
    }
}

/// `abs()` returning the unsigned type of the same bit width.
///
/// The minimum representable value negates cleanly because the negation
/// is performed as `-(a + 1) + 1`, which never leaves the signed range.
pub fn abs_as_unsigned(a: i64) -> (r: u64)
    ensures
        r == abs(a as int),
{
    if a >= 0 {
        a as u64
    } else {
        let p = -(a + 1);
        (p as u64) + 1
    }
}

/// `abs()` for the remaining signed widths, same scheme as
/// [`abs_as_unsigned`].
pub fn abs_as_unsigned_i8(a: i8) -> (r: u8)
    ensures
        r == abs(a as int),
{
    if a >= 0 {
        a as u8
    } else {
        let p = -(a + 1);
        (p as u8) + 1
    }
}

pub fn abs_as_unsigned_i16(a: i16) -> (r: u16)
    ensures
        r == abs(a as int),
{
    if a >= 0 {
        a as u16
    } else {
        let p = -(a + 1);
        (p as u16) + 1
    }
}

pub fn abs_as_unsigned_i32(a: i32) -> (r: u32)
    ensures
        r == abs(a as int),
{
    if a >= 0 {
        a as u32
    } else {
        let p = -(a + 1);
        (p as u32) + 1
    }
}

pub fn abs_as_unsigned_i128(a: i128) -> (r: u128)
    ensures
        r == abs(a as int),
{
    if a >= 0 {
        a as u128
    } else {
        let p = -(a + 1);
        (p as u128) + 1
    }
}

/// `abs()` of a value that is already unsigned: the value itself.
/// One per width, mirroring the signed variants.
pub fn abs_as_unsigned_u8(a: u8) -> (r: u8)
    ensures
        r == a,
{
    a
}

pub fn abs_as_unsigned_u16(a: u16) -> (r: u16)
    ensures
        r == a,
{
    a
}

pub fn abs_as_unsigned_u32(a: u32) -> (r: u32)
    ensures
        r == a,
{
    a
}

pub fn abs_as_unsigned_u64(a: u64) -> (r: u64)
    ensures
        r == a,
{
    a
}

pub fn abs_as_unsigned_u128(a: u128) -> (r: u128)
    ensures
        r == a,
{
    a
}

/// Canonical remainder: `a mod m`, always in `[0, m)`, even for negative `a`.
pub fn modulo(a: i64, m: u64) -> (r: u64)
    requires
        m > 0,
    ensures
        r == (a as int) % (m as int),
        r < m,
{
    if a >= 0 {
        (a as u64) % m
    } else {
        let a_abs = abs_as_unsigned(a);
        let rem = a_abs % m;
        proof {
            let q = (a_abs as int) / (m as int);
            lemma_fundamental_div_mod(a_abs as int, m as int);
            assert(a as int == -(q * (m as int)) - (rem as int));
            if rem == 0 {
                // a == -(a_abs / m) * m, a multiple of m
                assert((m as int) * (-q) + 0 == -(q * (m as int))) by (nonlinear_arith);
                lemma_mod_multiples_vanish(-q, 0, m as int);
                lemma_small_mod(0, m as nat);
            } else {
                // a == (-(a_abs / m) - 1) * m + (m - rem)
                assert((-q - 1) * (m as int) == -(q * (m as int)) - (m as int))
                    by (nonlinear_arith);
                lemma_fundamental_div_mod_converse_mod(
                    a as int,
                    m as int,
                    -q - 1,
                    m as int - rem as int,
                );
            }
        }
        if rem == 0 {
            0
        } else {
            m - rem
        }
    }
}

/// Canonical remainder at the widest native width, for jump distances
/// that exceed 64 bits.
pub fn modulo_i128(a: i128, m: u128) -> (r: u128)
    requires
        m > 0,
    ensures
        r == (a as int) % (m as int),
        r < m,
{
    if a >= 0 {
        (a as u128) % m
    } else {
        let a_abs = abs_as_unsigned_i128(a);
        let rem = a_abs % m;
        proof {
            let q = (a_abs as int) / (m as int);
            lemma_fundamental_div_mod(a_abs as int, m as int);
            assert(a as int == -(q * (m as int)) - (rem as int));
            if rem == 0 {
                // a == -(a_abs / m) * m, a multiple of m
                assert((m as int) * (-q) + 0 == -(q * (m as int))) by (nonlinear_arith);
                lemma_mod_multiples_vanish(-q, 0, m as int);
                lemma_small_mod(0, m as nat);
            } else {
                // a == (-(a_abs / m) - 1) * m + (m - rem)
                assert((-q - 1) * (m as int) == -(q * (m as int)) - (m as int))
                    by (nonlinear_arith);
                lemma_fundamental_div_mod_converse_mod(
                    a as int,
                    m as int,
                    -q - 1,
                    m as int - rem as int,
                );
            }
        }
        if rem == 0 {
            0
        } else {
            m - rem
        }
    }
}

/// The low bit and the halving shift, read arithmetically.
pub(crate) proof fn lemma_u64_low_bit_shift(n: u64)
    ensures
        (n & 1) == n % 2,
        (n >> 1u64) == n / 2,
{
    assert((n & 1) == n % 2 && (n >> 1u64) == n / 2) by (bit_vector);
}

/// The low bit and the halving shift at 128 bits, read arithmetically.
proof fn lemma_u128_low_bit_shift(n: u128)
    ensures
        (n & 1) == n % 2,
        (n >> 1u128) == n / 2,
{
    assert((n & 1) == n % 2 && (n >> 1u128) == n / 2) by (bit_vector);
}

/// One iteration of a square-and-multiply loop preserves the running
/// product `(r · t^nw) mod m`: multiplying `r` by `t` when the low
/// exponent bit is set, then squaring `t` and halving `nw`, leaves the
/// value unchanged modulo `m`.
proof fn lemma_square_and_multiply_step(r: int, t: int, r2: int, t2: int, nw: nat, m: int)
    requires
        m > 0,
        nw > 0,
        r2 % m == if nw % 2 == 1 {
            (r * t) % m
        } else {
            r % m
        },
        nw / 2 > 0 ==> t2 % m == (t * t) % m,
    ensures
        (r2 * pow(t2, nw / 2)) % m == (r * pow(t, nw)) % m,
{
    let odd = nw % 2;
    let half = nw / 2;
    lemma_fundamental_div_mod(nw as int, 2);
    assert(nw == 2 * half + odd);
    // r2 ≡ r · t^odd (mod m)
    lemma_pow0(t);
    lemma_pow1(t);
    if odd == 1 {
        assert(pow(t, odd) == t);
    } else {
        assert(pow(t, odd) == 1);
        assert(r * pow(t, odd) == r) by (nonlinear_arith)
            requires
                pow(t, odd) == 1,
        ;
    }
    assert(r2 % m == (r * pow(t, odd)) % m);
    // t2^half ≡ (t·t)^half (mod m)
    lemma_square_is_pow2(t);
    if half > 0 {
        lemma_pow_mod_noop(t2, half, m);
        lemma_pow_mod_noop(t * t, half, m);
        assert(pow(t2, half) % m == pow(t * t, half) % m);
    } else {
        lemma_pow0(t2);
        lemma_pow0(t * t);
    }
    // assemble: (r2 · t2^half) ≡ (r · t^odd) · (t·t)^half ≡ r · t^nw (mod m)
    lemma_mul_mod_noop_general(r2, pow(t2, half), m);
    lemma_mul_mod_noop_general(r * pow(t, odd), pow(t * t, half), m);
    assert((r2 * pow(t2, half)) % m == ((r * pow(t, odd)) * pow(t * t, half)) % m);
    lemma_pow_multiplies(t, 2, half);
    assert(pow(t * t, half) == pow(t, 2 * half));
    lemma_pow_adds(t, odd, 2 * half);
    lemma_mul_is_associative(r, pow(t, odd), pow(t, 2 * half));
    assert((r * pow(t, odd)) * pow(t, 2 * half) == r * pow(t, nw));
}

/// A wrapping 32-bit addition is the exact sum reduced modulo `2^32`.
pub(crate) proof fn lemma_wadd_u32(x: u32, y: u32)
    ensures
        vstd::wrapping::u32_specs::wrapping_add(x, y) == (x + y) % 0x1_0000_0000,
{
    let s = x as int + y as int;
    if s > u32::MAX {
        lemma_mod_multiples_vanish(1, s - 0x1_0000_0000, 0x1_0000_0000);
        lemma_small_mod((s - 0x1_0000_0000) as nat, 0x1_0000_0000);
    } else {
        lemma_small_mod(s as nat, 0x1_0000_0000);
    }
}

/// A wrapping 64-bit addition is the exact sum reduced modulo `2^64`.
pub(crate) proof fn lemma_wadd_u64(x: u64, y: u64)
    ensures
        vstd::wrapping::u64_specs::wrapping_add(x, y) == (x + y) % 0x1_0000_0000_0000_0000,
{
    let s = x as int + y as int;
    if s > u64::MAX {
        lemma_mod_multiples_vanish(1, s - 0x1_0000_0000_0000_0000, 0x1_0000_0000_0000_0000);
        lemma_small_mod((s - 0x1_0000_0000_0000_0000) as nat, 0x1_0000_0000_0000_0000);
    } else {
        lemma_small_mod(s as nat, 0x1_0000_0000_0000_0000);
    }
}

/// Packing two 32-bit words into one 64-bit word, low word first.
pub(crate) proof fn lemma_u32_pair_u64(x: u32, y: u32)
    ensures
        ((x as u64) | ((y as u64) << 32u64)) == x as u64 + (y as u64) * 0x1_0000_0000,
{
    assert(((x as u64) | ((y as u64) << 32u64)) == x as u64 + (y as u64) * 0x1_0000_0000)
        by (bit_vector);
}

/// Pairing the terms of a geometric series: summing `2k` powers of `t`
/// equals `(1 + t)` times the sum of `k` powers of `t²`.
proof fn lemma_geom_series_even(t: int, k: nat)
    ensures
        geom_series(t, 2 * k) == (1 + t) * geom_series(t * t, k),
    decreases k,
{
    if k == 0 {
        lemma_mul_basics(1 + t);
    } else {
        lemma_geom_series_even(t, (k - 1) as nat);
        let p = geom_series(t * t, (k - 1) as nat);
        assert(geom_series(t * t, k) == p + pow(t * t, (k - 1) as nat));
        assert(geom_series(t, 2 * k) == geom_series(t, (2 * k - 1) as nat) + pow(
            t,
            (2 * k - 1) as nat,
        ));
        assert(geom_series(t, (2 * k - 1) as nat) == geom_series(t, (2 * k - 2) as nat) + pow(
            t,
            (2 * k - 2) as nat,
        ));
        // pow(t·t, k-1) == pow(t, 2k-2) and t·pow(t, 2k-2) == pow(t, 2k-1)
        lemma_square_is_pow2(t);
        lemma_pow_multiplies(t, 2, (k - 1) as nat);
        lemma_pow1(t);
        lemma_pow_adds(t, 1, (2 * k - 2) as nat);
        assert(pow(t * t, (k - 1) as nat) == pow(t, (2 * k - 2) as nat));
        assert(t * pow(t, (2 * k - 2) as nat) == pow(t, (2 * k - 1) as nat));
        // distribute (1 + t) over the unfolded sums
        lemma_mul_is_distributive_add(1 + t, p, pow(t * t, (k - 1) as nat));
        lemma_mul_is_distributive_add_other_way(pow(t, (2 * k - 2) as nat), 1, t);
        lemma_mul_basics(pow(t, (2 * k - 2) as nat));
        lemma_mul_is_commutative(t, pow(t, (2 * k - 2) as nat));
    }
}

/// Reducing the ratio modulo `m` does not change a geometric series
/// modulo `m`.
proof fn lemma_geom_series_mod_noop(t: int, k: nat, m: int)
    requires
        m > 0,
    ensures
        geom_series(t % m, k) % m == geom_series(t, k) % m,
    decreases k,
{
    if k > 0 {
        lemma_geom_series_mod_noop(t, (k - 1) as nat, m);
        lemma_pow_mod_noop(t, (k - 1) as nat, m);
        vstd::arithmetic::div_mod::lemma_add_mod_noop(
            geom_series(t % m, (k - 1) as nat),
            pow(t % m, (k - 1) as nat),
            m,
        );
        vstd::arithmetic::div_mod::lemma_add_mod_noop(
            geom_series(t, (k - 1) as nat),
            pow(t, (k - 1) as nat),
            m,
        );
    }
}

/// Replacing each of `a`, `b`, `c` by a value congruent modulo `m`
/// leaves `a + b·c` unchanged modulo `m`.
proof fn lemma_add_mul_mod(a1: int, b1: int, c1: int, a2: int, b2: int, c2: int, m: int)
    requires
        m > 0,
        a1 % m == a2 % m,
        b1 % m == b2 % m,
        c1 % m == c2 % m,
    ensures
        (a1 + b1 * c1) % m == (a2 + b2 * c2) % m,
{
    lemma_mul_mod_noop_general(b1, c1, m);
    lemma_mul_mod_noop_general(b2, c2, m);
    assert((b1 * c1) % m == (b2 * c2) % m);
    vstd::arithmetic::div_mod::lemma_add_mod_noop(a1, b1 * c1, m);
    vstd::arithmetic::div_mod::lemma_add_mod_noop(a2, b2 * c2, m);
}

/// The geometric series `1 + r + r² + … + r^(n-1)`, with the natural
/// wraparound of the 32-bit unsigned type.
///
/// Computed in `O(log n)` by pairing terms — `S(2k; r) = (1+r)·S(k; r²)`
/// — iteratively, so the stack depth stays constant.
pub fn wrapping_geom_series(r: u32, n: u64) -> (result: u32)
    ensures
        result == geom_series(r as int, n as nat) % 0x1_0000_0000,
{
    let mut temp_r: u32 = r;
    let mut mult: u32 = 1;
    let mut result: u32 = 0;

    if n == 0 {
        proof {
            lemma_small_mod(0, 0x1_0000_0000);
        }
        return 0;
    }
    let mut n_work: u64 = n;
    proof {
        lemma_mul_basics(geom_series(r as int, n as nat));
    }
    while n_work > 1
        invariant
            n_work >= 1,
            (result as int + mult as int * geom_series(temp_r as int, n_work as nat))
                % 0x1_0000_0000 == geom_series(r as int, n as nat) % 0x1_0000_0000,
        decreases n_work,
    {
        let ghost big = 0x1_0000_0000int;
        let ghost res0 = result as int;
        let ghost m0 = mult as int;
        let ghost t0 = temp_r as int;
        let ghost nw0 = n_work as nat;
        let ghost odd = nw0 % 2;
        let ghost half = nw0 / 2;
        proof {
            lemma_u64_low_bit_shift(n_work);
            lemma_fundamental_div_mod(nw0 as int, 2);
        }
        if n_work & 1 != 0 {
            result = wrapping_pow(temp_r, n_work - 1).wrapping_mul(mult).wrapping_add(result);
            proof {
                let wp = pow(t0, (nw0 - 1) as nat) % big;
                let v1 = (wp * m0) % big;
                lemma_wadd_u32(((wp * m0) % big) as u32, res0 as u32);
                lemma_mul_mod_noop_left(pow(t0, (nw0 - 1) as nat), m0, big);
                lemma_mod_twice(pow(t0, (nw0 - 1) as nat) * m0, big);
                lemma_small_mod(res0 as nat, 0x1_0000_0000);
                vstd::arithmetic::div_mod::lemma_add_mod_noop(v1, res0, big);
                vstd::arithmetic::div_mod::lemma_add_mod_noop(
                    pow(t0, (nw0 - 1) as nat) * m0,
                    res0,
                    big,
                );
                lemma_mod_twice(v1 + res0, big);
                lemma_mul_basics(pow(t0, (nw0 - 1) as nat) * m0);
                assert(result as int % big == (res0 + odd * (pow(t0, (nw0 - 1) as nat) * m0))
                    % big);
            }
        } else {
            proof {
                lemma_mul_basics(pow(t0, (nw0 - 1) as nat) * m0);
                lemma_small_mod(res0 as nat, 0x1_0000_0000);
                assert(odd * (pow(t0, (nw0 - 1) as nat) * m0) == 0);
            }
        }
        mult = (1u32.wrapping_add(temp_r)).wrapping_mul(mult);
        temp_r = temp_r.wrapping_mul(temp_r);
        n_work = n_work >> 1;
        proof {
            // mult ≡ (1 + t0)·m0 and temp_r ≡ t0², both modulo 2^32
            lemma_wadd_u32(1, t0 as u32);
            lemma_mul_mod_noop_left(1 + t0, m0, big);
            lemma_mod_twice((1 + t0) * m0, big);
            lemma_mod_twice(t0 * t0, big);
            // the series for the squared ratio, modulo 2^32
            lemma_geom_series_mod_noop(t0 * t0, half, big);
            lemma_add_mul_mod(
                result as int,
                mult as int,
                geom_series(temp_r as int, half),
                res0 + odd * (pow(t0, (nw0 - 1) as nat) * m0),
                (1 + t0) * m0,
                geom_series(t0 * t0, half),
                big,
            );
            // pure ring identity: the invariant value is preserved exactly
            lemma_geom_series_even(t0, half);
            if odd == 1 {
                assert(geom_series(t0, nw0) == geom_series(t0, (nw0 - 1) as nat) + pow(
                    t0,
                    (nw0 - 1) as nat,
                ));
                assert(res0 + odd * (pow(t0, (nw0 - 1) as nat) * m0) + ((1 + t0) * m0)
                    * geom_series(t0 * t0, half) == res0 + m0 * geom_series(t0, nw0))
                    by (nonlinear_arith)
                    requires
                        odd == 1,
                        geom_series(t0, nw0) == geom_series(t0, (nw0 - 1) as nat) + pow(
                            t0,
                            (nw0 - 1) as nat,
                        ),
                        geom_series(t0, (nw0 - 1) as nat) == (1 + t0) * geom_series(
                            t0 * t0,
                            half,
                        ),
                        nw0 - 1 == 2 * half,
                ;
            } else {
                assert(res0 + odd * (pow(t0, (nw0 - 1) as nat) * m0) + ((1 + t0) * m0)
                    * geom_series(t0 * t0, half) == res0 + m0 * geom_series(t0, nw0))
                    by (nonlinear_arith)
                    requires
                        odd == 0,
                        odd * (pow(t0, (nw0 - 1) as nat) * m0) == 0,
                        geom_series(t0, nw0) == (1 + t0) * geom_series(t0 * t0, half),
                        nw0 == 2 * half,
                ;
            }
        }
    }
    proof {
        // n_work == 1: the series has the single term r⁰ == 1
        lemma_pow0(temp_r as int);
        assert(geom_series(temp_r as int, 0) == 0);
        assert(geom_series(temp_r as int, 1) == 1);
        lemma_mul_basics(mult as int);
        lemma_wadd_u32(result, mult);
    }
    result.wrapping_add(mult)
}

/// Multiply unsigned `a` and `b`, modulo `m`, at the widest native width.
///
/// No wider type is available for the intermediate product, so this uses
/// binary long multiplication: iterate over the bits of `a`, keeping a
/// running sum and a doubling addend, each reduced below `m` at every
/// step with wrap-safe arithmetic.  Correct for any `a` and `b`, not
/// just ones already below `m`.
pub fn mul_mod(a: u128, b: u128, m: u128) -> (r: u128)
    requires
        m > 0,
    ensures
        r == (a as int * b as int) % (m as int),
{
    let mut a_work: u128 = a;
    let mut b_work: u128 = b;
    let mut result: u128 = 0;

    if b_work >= m {
        if m > u128::MAX / 2 {
            // b < 2·m here, so one subtraction reduces it
            b_work = b_work - m;
            proof {
                lemma_fundamental_div_mod_converse_mod(
                    b as int,
                    m as int,
                    1,
                    b as int - m as int,
                );
            }
        } else {
            b_work = b_work % m;
            proof {
                lemma_mod_bound(b as int, m as int);
            }
        }
    } else {
        proof {
            lemma_small_mod(b as nat, m as nat);
        }
    }
    proof {
        assert(b_work as int == (b as int) % (m as int));
        lemma_mul_mod_noop_left(b as int, a as int, m as int);
        lemma_mul_is_commutative(b as int, a as int);
        lemma_mul_is_commutative(b_work as int, a as int);
    }
    while a_work != 0
        invariant
            m > 0,
            b_work < m,
            result < m,
            (result + b_work as int * a_work as int) % (m as int) == (a as int * b as int) % (
            m as int),
        decreases a_work,
    {
        let ghost r0 = result as int;
        let ghost b0 = b_work as int;
        let ghost a0 = a_work as int;
        proof {
            lemma_u128_low_bit_shift(a_work);
        }
        if a_work & 1 != 0 {
            if b_work >= m - result {
                result = result.wrapping_sub(m);
            }
            result = result.wrapping_add(b_work);
        }
        a_work = a_work >> 1;
        let mut temp_b = b_work;
        if b_work >= m - temp_b {
            temp_b = temp_b.wrapping_sub(m);
        }
        b_work = b_work.wrapping_add(temp_b);
        proof {
            let mi = m as int;
            // after the conditional reduction: result ≡ r0 + (a0 % 2)·b0, below m
            lemma_mul_basics(b0);
            if a0 % 2 == 1 {
                assert((a0 % 2) * b0 == b0);
                if r0 + b0 >= mi {
                    assert(result as int == r0 + b0 - mi);
                    lemma_mod_multiples_vanish(1, r0 + b0 - mi, mi);
                    assert(mi * 1 + (r0 + b0 - mi) == r0 + b0);
                    lemma_small_mod((r0 + b0 - mi) as nat, m as nat);
                } else {
                    assert(result as int == r0 + b0);
                    lemma_small_mod((r0 + b0) as nat, m as nat);
                }
            } else {
                assert((a0 % 2) * b0 == 0);
                lemma_small_mod(result as nat, m as nat);
            }
            assert(result as int % mi == (r0 + (a0 % 2) * b0) % mi && result < m);
            // after the doubling: b_work ≡ 2·b0, below m
            assert(b_work as int % mi == (2 * b0) % mi && b_work < m) by {
                assert(b_work as int == 2 * b0 - if 2 * b0 >= mi {
                    mi
                } else {
                    0
                });
                if 2 * b0 >= mi {
                    lemma_mod_multiples_vanish(1, 2 * b0 - mi, mi);
                    lemma_small_mod((2 * b0 - mi) as nat, m as nat);
                } else {
                    lemma_small_mod((2 * b0) as nat, m as nat);
                }
            }
            // the invariant product is preserved
            let a1 = a0 / 2;
            assert((result as int + b_work as int * a1) % mi == (r0 + b0 * a0) % mi) by {
                lemma_mul_mod_noop_left(b_work as int, a1, mi);
                lemma_mul_mod_noop_left(2 * b0, a1, mi);
                assert((b_work as int * a1) % mi == ((2 * b0) * a1) % mi);
                vstd::arithmetic::div_mod::lemma_add_mod_noop(
                    result as int,
                    b_work as int * a1,
                    mi,
                );
                vstd::arithmetic::div_mod::lemma_add_mod_noop(
                    r0 + (a0 % 2) * b0,
                    (2 * b0) * a1,
                    mi,
                );
                lemma_mod_twice(result as int, mi);
                lemma_mod_twice(b_work as int * a1, mi);
                lemma_mod_twice(r0 + (a0 % 2) * b0, mi);
                lemma_mod_twice((2 * b0) * a1, mi);
                lemma_fundamental_div_mod(a0, 2);
                assert(b0 * a0 == (a0 % 2) * b0 + (2 * b0) * a1) by (nonlinear_arith)
                    requires
                        a0 == 2 * a1 + a0 % 2,
                ;
            }
        }
    }
    proof {
        lemma_small_mod(result as nat, m as nat);
    }
    result
}

/// Exponentiation with wrapping: `base` to the power `n`, reduced by the
/// natural modulus of the 32-bit unsigned type.
pub fn wrapping_pow(base: u32, n: u64) -> (r: u32)
    ensures
        r == pow(base as int, n as nat) % 0x1_0000_0000,
{
    let mut result: u32 = 1;
    let mut temp_exp: u32 = base;
    let mut n_work: u64 = n;
    proof {
        lemma_mul_basics(pow(base as int, n as nat));
    }
    while n_work > 0
        invariant
            (result as int * pow(temp_exp as int, n_work as nat)) % 0x1_0000_0000 == pow(
                base as int,
                n as nat,
            ) % 0x1_0000_0000,
        decreases n_work,
    {
        let ghost r0 = result as int;
        let ghost t0 = temp_exp as int;
        let ghost nw0 = n_work as nat;
        proof {
            lemma_u64_low_bit_shift(n_work);
        }
        if n_work & 1 != 0 {
            result = result.wrapping_mul(temp_exp);
        }
        n_work = n_work >> 1;
        if n_work > 0 {
            temp_exp = temp_exp.wrapping_mul(temp_exp);
        }
        proof {
            lemma_mod_twice(r0 * t0, 0x1_0000_0000);
            lemma_mod_twice(t0 * t0, 0x1_0000_0000);
            lemma_small_mod(r0 as nat, 0x1_0000_0000);
            lemma_square_and_multiply_step(
                r0,
                t0,
                result as int,
                temp_exp as int,
                nw0,
                0x1_0000_0000,
            );
        }
    }
    proof {
        lemma_pow0(temp_exp as int);
        lemma_mul_basics(result as int);
        lemma_small_mod(result as nat, 0x1_0000_0000);
    }
    result
}

/// Exponentiation with wrapping at 8 bits.
pub fn wrapping_pow_u8(base: u8, n: u64) -> (r: u8)
    ensures
        r == pow(base as int, n as nat) % 0x100,
{
    let mut result: u8 = 1;
    let mut temp_exp: u8 = base;
    let mut n_work: u64 = n;
    proof {
        lemma_mul_basics(pow(base as int, n as nat));
    }
    while n_work > 0
        invariant
            (result as int * pow(temp_exp as int, n_work as nat)) % 0x100 == pow(
                base as int,
                n as nat,
            ) % 0x100,
        decreases n_work,
    {
        let ghost r0 = result as int;
        let ghost t0 = temp_exp as int;
        let ghost nw0 = n_work as nat;
        proof {
            lemma_u64_low_bit_shift(n_work);
        }
        if n_work & 1 != 0 {
            result = result.wrapping_mul(temp_exp);
        }
        n_work = n_work >> 1;
        if n_work > 0 {
            temp_exp = temp_exp.wrapping_mul(temp_exp);
        }
        proof {
            lemma_mod_twice(r0 * t0, 0x100);
            lemma_mod_twice(t0 * t0, 0x100);
            lemma_small_mod(r0 as nat, 0x100);
            lemma_square_and_multiply_step(r0, t0, result as int, temp_exp as int, nw0, 0x100);
        }
    }
    proof {
        lemma_pow0(temp_exp as int);
        lemma_mul_basics(result as int);
        lemma_small_mod(result as nat, 0x100);
    }
    result
}

/// Exponentiation with wrapping at 16 bits.
pub fn wrapping_pow_u16(base: u16, n: u64) -> (r: u16)
    ensures
        r == pow(base as int, n as nat) % 0x1_0000,
{
    let mut result: u16 = 1;
    let mut temp_exp: u16 = base;
    let mut n_work: u64 = n;
    proof {
        lemma_mul_basics(pow(base as int, n as nat));
    }
    while n_work > 0
        invariant
            (result as int * pow(temp_exp as int, n_work as nat)) % 0x1_0000 == pow(
                base as int,
                n as nat,
            ) % 0x1_0000,
        decreases n_work,
    {
        let ghost r0 = result as int;
        let ghost t0 = temp_exp as int;
        let ghost nw0 = n_work as nat;
        proof {
            lemma_u64_low_bit_shift(n_work);
        }
        if n_work & 1 != 0 {
            result = result.wrapping_mul(temp_exp);
        }
        n_work = n_work >> 1;
        if n_work > 0 {
            temp_exp = temp_exp.wrapping_mul(temp_exp);
        }
        proof {
            lemma_mod_twice(r0 * t0, 0x1_0000);
            lemma_mod_twice(t0 * t0, 0x1_0000);
            lemma_small_mod(r0 as nat, 0x1_0000);
            lemma_square_and_multiply_step(r0, t0, result as int, temp_exp as int, nw0, 0x1_0000);
        }
    }
    proof {
        lemma_pow0(temp_exp as int);
        lemma_mul_basics(result as int);
        lemma_small_mod(result as nat, 0x1_0000);
    }
    result
}

/// Exponentiation with wrapping at 64 bits.
pub fn wrapping_pow_u64(base: u64, n: u64) -> (r: u64)
    ensures
        r == pow(base as int, n as nat) % 0x1_0000_0000_0000_0000,
{
    let mut result: u64 = 1;
    let mut temp_exp: u64 = base;
    let mut n_work: u64 = n;
    proof {
        lemma_mul_basics(pow(base as int, n as nat));
    }
    while n_work > 0
        invariant
            (result as int * pow(temp_exp as int, n_work as nat)) % 0x1_0000_0000_0000_0000 == pow(
                base as int,
                n as nat,
            ) % 0x1_0000_0000_0000_0000,
        decreases n_work,
    {
        let ghost r0 = result as int;
        let ghost t0 = temp_exp as int;
        let ghost nw0 = n_work as nat;
        proof {
            lemma_u64_low_bit_shift(n_work);
        }
        if n_work & 1 != 0 {
            result = result.wrapping_mul(temp_exp);
        }
        n_work = n_work >> 1;
        if n_work > 0 {
            temp_exp = temp_exp.wrapping_mul(temp_exp);
        }
        proof {
            lemma_mod_twice(r0 * t0, 0x1_0000_0000_0000_0000);
            lemma_mod_twice(t0 * t0, 0x1_0000_0000_0000_0000);
            lemma_small_mod(r0 as nat, 0x1_0000_0000_0000_0000);
            lemma_square_and_multiply_step(
                r0,
                t0,
                result as int,
                temp_exp as int,
                nw0,
                0x1_0000_0000_0000_0000,
            );
        }
    }
    proof {
        lemma_pow0(temp_exp as int);
        lemma_mul_basics(result as int);
        lemma_small_mod(result as nat, 0x1_0000_0000_0000_0000);
    }
    result
}

/// Modular exponentiation: `n` modular multiplications by `base`,
/// folded from the starting value 1.  For `n > 0` the result is
/// `baseⁿ mod m`; for `n == 0` no multiplication happens and the
/// initial 1 comes back as it stands, unreduced even when `m == 1`.
pub fn pow_mod(base: u64, n: u64, m: u64) -> (r: u64)
    requires
        m > 0,
    ensures
        r == repeated_mul_mod(base as int, n as nat, m as int),
        n > 0 ==> r == pow(base as int, n as nat) % (m as int),
{
    if n == 0 {
        return 1;
    }
    if m == 1 {
        proof {
            lemma_mod_bound(pow(base as int, n as nat), 1);
            lemma_mod_bound(
                repeated_mul_mod(base as int, (n - 1) as nat, 1) * (base as int),
                1,
            );
        }
        return 0;
    }
    let mut result: u64 = 1;
    let mut temp_exp: u64 = base;
    let mut n_work: u64 = n;
    proof {
        lemma_mul_basics(pow(base as int, n as nat));
    }
    while n_work > 0
        invariant
            m > 1,
            result < m,
            (result as int * pow(temp_exp as int, n_work as nat)) % (m as int) == pow(
                base as int,
                n as nat,
            ) % (m as int),
        decreases n_work,
    {
        let ghost r0 = result as int;
        let ghost t0 = temp_exp as int;
        let ghost nw0 = n_work as nat;
        proof {
            lemma_u64_low_bit_shift(n_work);
        }
        if n_work & 1 != 0 {
            result = mul_mod_u64(result, temp_exp, m);
        }
        n_work = n_work >> 1;
        if n_work > 0 {
            temp_exp = mul_mod_u64(temp_exp, temp_exp, m);
        }
        proof {
            lemma_mod_twice(r0 * t0, m as int);
            lemma_mod_twice(t0 * t0, m as int);
            lemma_small_mod(r0 as nat, m as nat);
            lemma_mod_bound(r0 * t0, m as int);
            lemma_square_and_multiply_step(r0, t0, result as int, temp_exp as int, nw0, m as int);
        }
    }
    proof {
        lemma_pow0(temp_exp as int);
        lemma_mul_basics(result as int);
        lemma_small_mod(result as nat, m as nat);
        lemma_pow_mod_is_repeated_mul_mod(base as int, n as nat, m as int);
    }
    result
}

/// Modular exponentiation at the widest native width, where the
/// binary-long-multiplication `mul_mod` is the multiply primitive.
/// Same fold semantics as [`pow_mod`].
pub fn pow_mod_u128(base: u128, n: u128, m: u128) -> (r: u128)
    requires
        m > 0,
    ensures
        r == repeated_mul_mod(base as int, n as nat, m as int),
        n > 0 ==> r == pow(base as int, n as nat) % (m as int),
{
    if n == 0 {
        return 1;
    }
    if m == 1 {
        proof {
            lemma_mod_bound(pow(base as int, n as nat), 1);
            lemma_mod_bound(
                repeated_mul_mod(base as int, (n - 1) as nat, 1) * (base as int),
                1,
            );
        }
        return 0;
    }
    let mut result: u128 = 1;
    let mut temp_exp: u128 = base;
    let mut n_work: u128 = n;
    proof {
        lemma_mul_basics(pow(base as int, n as nat));
    }
    while n_work > 0
        invariant
            m > 1,
            result < m,
            (result as int * pow(temp_exp as int, n_work as nat)) % (m as int) == pow(
                base as int,
                n as nat,
            ) % (m as int),
        decreases n_work,
    {
        let ghost r0 = result as int;
        let ghost t0 = temp_exp as int;
        let ghost nw0 = n_work as nat;
        proof {
            lemma_u128_low_bit_shift(n_work);
        }
        if n_work & 1 != 0 {
            result = mul_mod(result, temp_exp, m);
        }
        n_work = n_work >> 1;
        if n_work > 0 {
            temp_exp = mul_mod(temp_exp, temp_exp, m);
        }
        proof {
            lemma_mod_twice(r0 * t0, m as int);
            lemma_mod_twice(t0 * t0, m as int);
            lemma_small_mod(r0 as nat, m as nat);
            lemma_mod_bound(r0 * t0, m as int);
            lemma_square_and_multiply_step(r0, t0, result as int, temp_exp as int, nw0, m as int);
        }
    }
    proof {
        lemma_pow0(temp_exp as int);
        lemma_mul_basics(result as int);
        lemma_small_mod(result as nat, m as nat);
        lemma_pow_mod_is_repeated_mul_mod(base as int, n as nat, m as int);
    }
    result
}

/// Modular exponentiation at 32 bits.  Same fold semantics as
/// [`pow_mod`].
pub fn pow_mod_u32(base: u32, n: u64, m: u32) -> (r: u32)
    requires
        m > 0,
    ensures
        r == repeated_mul_mod(base as int, n as nat, m as int),
        n > 0 ==> r == pow(base as int, n as nat) % (m as int),
{
    if n == 0 {
        return 1;
    }
    if m == 1 {
        proof {
            lemma_mod_bound(pow(base as int, n as nat), 1);
            lemma_mod_bound(
                repeated_mul_mod(base as int, (n - 1) as nat, 1) * (base as int),
                1,
            );
        }
        return 0;
    }
    let mut result: u32 = 1;
    let mut temp_exp: u32 = base;
    let mut n_work: u64 = n;
    proof {
        lemma_mul_basics(pow(base as int, n as nat));
    }
    while n_work > 0
        invariant
            m > 1,
            result < m,
            (result as int * pow(temp_exp as int, n_work as nat)) % (m as int) == pow(
                base as int,
                n as nat,
            ) % (m as int),
        decreases n_work,
    {
        let ghost r0 = result as int;
        let ghost t0 = temp_exp as int;
        let ghost nw0 = n_work as nat;
        proof {
            lemma_u64_low_bit_shift(n_work);
        }
        if n_work & 1 != 0 {
            result = mul_mod_u32(result, temp_exp, m);
        }
        n_work = n_work >> 1;
        if n_work > 0 {
            temp_exp = mul_mod_u32(temp_exp, temp_exp, m);
        }
        proof {
            lemma_mod_twice(r0 * t0, m as int);
            lemma_mod_twice(t0 * t0, m as int);
            lemma_small_mod(r0 as nat, m as nat);
            lemma_mod_bound(r0 * t0, m as int);
            lemma_square_and_multiply_step(r0, t0, result as int, temp_exp as int, nw0, m as int);
        }
    }
    proof {
        lemma_pow0(temp_exp as int);
        lemma_mul_basics(result as int);
        lemma_small_mod(result as nat, m as nat);
        lemma_pow_mod_is_repeated_mul_mod(base as int, n as nat, m as int);
    }
    result
}

/// Multiply modulo `m` at 8 bits by widening to 16 bits.
pub fn mul_mod_u8(a: u8, b: u8, m: u8) -> (r: u8)
    requires
        m > 0,
    ensures
        r == (a as int * b as int) % (m as int),
{
    proof {
        lemma_mul_upper_bound(a as int, 0xFF, b as int, 0xFF);
        lemma_mod_bound(a as int * b as int, m as int);
    }
    ((a as u16 * b as u16) % (m as u16)) as u8
}

/// Multiply modulo `m` at 16 bits by widening to 32 bits.
pub fn mul_mod_u16(a: u16, b: u16, m: u16) -> (r: u16)
    requires
        m > 0,
    ensures
        r == (a as int * b as int) % (m as int),
{
    proof {
        lemma_mul_upper_bound(a as int, 0xFFFF, b as int, 0xFFFF);
        lemma_mod_bound(a as int * b as int, m as int);
    }
    ((a as u32 * b as u32) % (m as u32)) as u16
}

/// Multiply modulo `m` at 32 bits by widening to 64 bits.
pub fn mul_mod_u32(a: u32, b: u32, m: u32) -> (r: u32)
    requires
        m > 0,
    ensures
        r == (a as int * b as int) % (m as int),
{
    proof {
        lemma_mul_upper_bound(a as int, 0xFFFF_FFFF, b as int, 0xFFFF_FFFF);
        lemma_mod_bound(a as int * b as int, m as int);
    }
    ((a as u64 * b as u64) % (m as u64)) as u32
}

/// Multiply modulo `m` at 64 bits by widening to 128 bits.
pub fn mul_mod_u64(a: u64, b: u64, m: u64) -> (r: u64)
    requires
        m > 0,
    ensures
        r == (a as int * b as int) % (m as int),
{
    proof {
        lemma_mul_upper_bound(a as int, 0xFFFF_FFFF_FFFF_FFFF, b as int, 0xFFFF_FFFF_FFFF_FFFF);
        lemma_mod_bound(a as int * b as int, m as int);
    }
    ((a as u128 * b as u128) % (m as u128)) as u64
}

} // verus!
