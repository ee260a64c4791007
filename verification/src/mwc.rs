//! Multiply-with-carry generators.
//!
//! An MWC step multiplies the low half-word and folds the high half (the
//! "carry") back in: `x ↦ (x & half_mask)·m + (x >> half_width)`.  Read
//! as a single number, the state follows the affine recurrence
//! `x ↦ m·x (mod (m << half_width) - 1)`, so jump-ahead is modular
//! exponentiation of the multiplier.
//!
//! `MWC2` concatenates two 16-bit-lag MWC generators; `MWC1` is the 1999
//! variant that combines the same two generators differently; `MWC64`
//! runs a single 64-bit calculation.

use crate::maths;
use vstd::arithmetic::div_mod::{
    lemma_mod_multiples_vanish, lemma_mul_mod_noop_left, lemma_mul_mod_noop_right,
    lemma_small_mod,
};
use vstd::arithmetic::mul::lemma_mul_basics;
use vstd::arithmetic::power::{lemma_pow0, lemma_pow1, lemma_pow_adds, pow};
use vstd::prelude::*;

verus! {

/// One 32-bit MWC step: multiply the low 16 bits, add the carry.
pub open spec fn mwc32_next(x: u32, multiplier: u32) -> u32 {
    (((x & 0xFFFFu32) * multiplier + (x >> 16u32)) % 0x1_0000_0000) as u32
}

/// One 64-bit MWC step: multiply the low 32 bits, add the carry.
pub open spec fn mwc64_next(x: u64, multiplier: u64) -> u64 {
    (((x & 0xFFFF_FFFFu64) * multiplier + (x >> 32u64)) % 0x1_0000_0000_0000_0000) as u64
}

/// Fold a seed below the modulus and away from the two fixed points of
/// the MWC recurrence (`0` and the modulus itself).
pub open spec fn mwc32_sanitised(x: u32, limit: u32) -> u32 {
    let temp = if x >= limit {
        (x - limit) as u32
    } else {
        x
    };
    if temp == 0 {
        let flipped = x ^ 0xFFFF_FFFFu32;
        if flipped >= limit {
            (flipped - limit) as u32
        } else {
            flipped
        }
    } else {
        temp
    }
}

/// 64-bit variant of [`mwc32_sanitised`].
pub open spec fn mwc64_sanitised(x: u64, limit: u64) -> u64 {
    let temp = if x >= limit {
        (x - limit) as u64
    } else {
        x
    };
    if temp == 0 {
        let flipped = x ^ 0xFFFF_FFFF_FFFF_FFFFu64;
        if flipped >= limit {
            (flipped - limit) as u64
        } else {
            flipped
        }
    } else {
        temp
    }
}

/// A word split at 16 bits, read arithmetically.
proof fn lemma_u32_split(x: u32)
    ensures
        x == (x >> 16u32) * 0x10000 + (x & 0xFFFFu32),
        (x >> 16u32) <= 0xFFFF,
        (x & 0xFFFFu32) <= 0xFFFF,
{
    assert(x == (x >> 16u32) * 0x10000 + (x & 0xFFFFu32) && (x >> 16u32) <= 0xFFFF && (x
        & 0xFFFFu32) <= 0xFFFF) by (bit_vector);
}

/// A word split at 32 bits, read arithmetically.
proof fn lemma_u64_split(x: u64)
    ensures
        x == (x >> 32u64) * 0x1_0000_0000 + (x & 0xFFFF_FFFFu64),
        (x >> 32u64) <= 0xFFFF_FFFF,
        (x & 0xFFFF_FFFFu64) <= 0xFFFF_FFFF,
{
    assert(x == (x >> 32u64) * 0x1_0000_0000 + (x & 0xFFFF_FFFFu64) && (x >> 32u64)
        <= 0xFFFF_FFFF && (x & 0xFFFF_FFFFu64) <= 0xFFFF_FFFF) by (bit_vector);
}

/// Read as one number, a 32-bit MWC step is multiplication by the
/// multiplier modulo `(multiplier << 16) - 1`: with `x = hi·2^16 + lo`,
/// `multiplier·x == hi·((multiplier << 16) - 1) + (multiplier·lo + hi)`.
pub proof fn lemma_mwc32_next_congruent(x: u32, multiplier: u32)
    requires
        1 <= multiplier <= 0xFFFF,
    ensures
        mwc32_next(x, multiplier) as int % (multiplier * 0x10000 - 1) == (multiplier * x) % (
        multiplier * 0x10000 - 1),
{
    let hi = (x >> 16u32) as int;
    let lo = (x & 0xFFFFu32) as int;
    let md = multiplier * 0x10000 - 1;
    lemma_u32_split(x);
    assert(lo * multiplier + hi < 0x1_0000_0000) by (nonlinear_arith)
        requires
            0 <= lo <= 0xFFFF,
            0 <= hi <= 0xFFFF,
            multiplier <= 0xFFFF,
    ;
    lemma_small_mod((lo * multiplier + hi) as nat, 0x1_0000_0000);
    assert(mwc32_next(x, multiplier) as int == lo * multiplier + hi);
    assert(multiplier * x == md * hi + (lo * multiplier + hi)) by (nonlinear_arith)
        requires
            x == hi * 0x10000 + lo,
            md == multiplier * 0x10000 - 1,
    ;
    lemma_mod_multiples_vanish(hi, lo * multiplier + hi, md);
}

/// 64-bit variant of [`lemma_mwc32_next_congruent`].
pub proof fn lemma_mwc64_next_congruent(x: u64, multiplier: u64)
    requires
        1 <= multiplier <= 0xFFFF_FFFF,
    ensures
        mwc64_next(x, multiplier) as int % (multiplier * 0x1_0000_0000 - 1) == (multiplier * x)
            % (multiplier * 0x1_0000_0000 - 1),
{
    let hi = (x >> 32u64) as int;
    let lo = (x & 0xFFFF_FFFFu64) as int;
    let md = multiplier * 0x1_0000_0000 - 1;
    lemma_u64_split(x);
    assert(lo * multiplier + hi < 0x1_0000_0000_0000_0000) by (nonlinear_arith)
        requires
            0 <= lo <= 0xFFFF_FFFF,
            0 <= hi <= 0xFFFF_FFFF,
            multiplier <= 0xFFFF_FFFF,
    ;
    lemma_small_mod((lo * multiplier + hi) as nat, 0x1_0000_0000_0000_0000);
    assert(mwc64_next(x, multiplier) as int == lo * multiplier + hi);
    assert(multiplier * x == md * hi + (lo * multiplier + hi)) by (nonlinear_arith)
        requires
            x == hi * 0x1_0000_0000 + lo,
            md == multiplier * 0x1_0000_0000 - 1,
    ;
    lemma_mod_multiples_vanish(hi, lo * multiplier + hi, md);
}

/// `k` raw steps of a 32-bit MWC component from `x`.
pub open spec fn mwc32_iter(x: u32, multiplier: u32, k: nat) -> u32
    decreases k,
{
    if k == 0 {
        x
    } else {
        mwc32_next(mwc32_iter(x, multiplier, (k - 1) as nat), multiplier)
    }
}

/// The modular power used by jump-ahead equals `k` raw steps, modulo
/// `(multiplier << 16) - 1`, for every `k`.
pub proof fn lemma_mwc32_jump_is_iterated(x: u32, multiplier: u32, k: nat)
    requires
        1 <= multiplier <= 0xFFFF,
    ensures
        mwc32_iter(x, multiplier, k) as int % (multiplier * 0x10000 - 1) == (pow(
            multiplier as int,
            k,
        ) * x) % (multiplier * 0x10000 - 1),
    decreases k,
{
    let md = multiplier * 0x10000 - 1;
    if k == 0 {
        lemma_pow0(multiplier as int);
        lemma_mul_basics(x as int);
    } else {
        lemma_mwc32_jump_is_iterated(x, multiplier, (k - 1) as nat);
        let prev = mwc32_iter(x, multiplier, (k - 1) as nat);
        let p = pow(multiplier as int, (k - 1) as nat);
        lemma_mwc32_next_congruent(prev, multiplier);
        // multiplier·prev ≡ multiplier·(p·x) == (multiplier·p)·x (mod md)
        lemma_mul_mod_noop_right(multiplier as int, prev as int, md);
        lemma_mul_mod_noop_right(multiplier as int, p * x, md);
        assert(multiplier * (p * (x as int)) == (multiplier * p) * x) by (nonlinear_arith);
        assert(pow(multiplier as int, k) == multiplier * p) by {
            lemma_pow1(multiplier as int);
            lemma_pow_adds(multiplier as int, 1, (k - 1) as nat);
        }
    }
}

/// `k` raw steps of the 64-bit MWC recurrence from `x`.
pub open spec fn mwc64_iter(x: u64, multiplier: u64, k: nat) -> u64
    decreases k,
{
    if k == 0 {
        x
    } else {
        mwc64_next(mwc64_iter(x, multiplier, (k - 1) as nat), multiplier)
    }
}

/// The modular power used by jump-ahead equals `k` raw steps, modulo
/// `(multiplier << 32) - 1`, for every `k`.
pub proof fn lemma_mwc64_jump_is_iterated(x: u64, multiplier: u64, k: nat)
    requires
        1 <= multiplier <= 0xFFFF_FFFF,
    ensures
        mwc64_iter(x, multiplier, k) as int % (multiplier * 0x1_0000_0000 - 1) == (pow(
            multiplier as int,
            k,
        ) * x) % (multiplier * 0x1_0000_0000 - 1),
    decreases k,
{
    let md = multiplier * 0x1_0000_0000 - 1;
    if k == 0 {
        lemma_pow0(multiplier as int);
        lemma_mul_basics(x as int);
    } else {
        lemma_mwc64_jump_is_iterated(x, multiplier, (k - 1) as nat);
        let prev = mwc64_iter(x, multiplier, (k - 1) as nat);
        let p = pow(multiplier as int, (k - 1) as nat);
        lemma_mwc64_next_congruent(prev, multiplier);
        lemma_mul_mod_noop_right(multiplier as int, prev as int, md);
        lemma_mul_mod_noop_right(multiplier as int, p * x, md);
        assert(multiplier * (p * (x as int)) == (multiplier * p) * x) by (nonlinear_arith);
        assert(pow(multiplier as int, k) == multiplier * p) by {
            lemma_pow1(multiplier as int);
            lemma_pow_adds(multiplier as int, 1, (k - 1) as nat);
        }
    }
}

fn mwc_next_u32(x: u32, multiplier: u32) -> (r: u32)
    ensures
        r == mwc32_next(x, multiplier),
{
    let ghost prod = (x & 0xFFFFu32) as int * multiplier as int;
    let r = (x & 0xFFFF).wrapping_mul(multiplier).wrapping_add(x >> 16u32);
    proof {
        maths::lemma_wadd_u32((prod % 0x1_0000_0000) as u32, x >> 16u32);
        vstd::arithmetic::div_mod::lemma_add_mod_noop(prod, (x >> 16u32) as int, 0x1_0000_0000);
        vstd::arithmetic::div_mod::lemma_mod_twice(prod, 0x1_0000_0000);
        vstd::arithmetic::div_mod::lemma_mod_twice((x >> 16u32) as int, 0x1_0000_0000);
    }
    r
}

fn mwc_next_u64(x: u64, multiplier: u64) -> (r: u64)
    ensures
        r == mwc64_next(x, multiplier),
{
    let ghost prod = (x & 0xFFFF_FFFFu64) as int * multiplier as int;
    let r = (x & 0xFFFF_FFFF).wrapping_mul(multiplier).wrapping_add(x >> 32u64);
    proof {
        maths::lemma_wadd_u64((prod % 0x1_0000_0000_0000_0000) as u64, x >> 32u64);
        vstd::arithmetic::div_mod::lemma_add_mod_noop(
            prod,
            (x >> 32u64) as int,
            0x1_0000_0000_0000_0000,
        );
        vstd::arithmetic::div_mod::lemma_mod_twice(prod, 0x1_0000_0000_0000_0000);
        vstd::arithmetic::div_mod::lemma_mod_twice((x >> 32u64) as int, 0x1_0000_0000_0000_0000);
    }
    r
}

fn mwc_sanitise_u32(x: u32, limit: u32) -> (r: u32)
    ensures
        r == mwc32_sanitised(x, limit),
{
    let mut temp = x;
    if temp >= limit {
        temp = temp - limit;
    }
    if temp == 0 {
        temp = x ^ 0xFFFF_FFFF;
        if temp >= limit {
            temp = temp - limit;
        }
    }
    temp
}

fn mwc_sanitise_u64(x: u64, limit: u64) -> (r: u64)
    ensures
        r == mwc64_sanitised(x, limit),
{
    let mut temp = x;
    if temp >= limit {
        temp = temp - limit;
    }
    if temp == 0 {
        temp = x ^ 0xFFFF_FFFF_FFFF_FFFF;
        if temp >= limit {
            temp = temp - limit;
        }
    }
    temp
}

/// MWC2 — two 16-bit-lag multiply-with-carry generators, combined with
/// the upper one rotated by 16 bits.
#[derive(Debug, Clone, PartialEq, Eq, Structural)]
pub struct MWC2 {
    pub upper: u32,
    pub lower: u32,
}

/// The state of MWC2 after one step of each component.
pub open spec fn mwc2_next_state(s: MWC2) -> MWC2 {
    (MWC2 {
        upper: mwc32_next(mwc32_sanitised(s.upper, 0x9068FFFFu32), 36969),
        lower: mwc32_next(mwc32_sanitised(s.lower, 0x464FFFFFu32), 18000),
    })
}

/// The output word of MWC2: the lower state plus the upper state rotated
/// by 16 bits, with wrapping.
pub open spec fn mwc2_current(s: MWC2) -> u32 {
    ((s.lower + (s.upper << 16u32) + (s.upper >> 16u32)) % 0x1_0000_0000) as u32
}

impl MWC2 {
    /// Multiplier of the upper component.
    pub const UPPER_M: u32 = 36969;

    /// Multiplier of the lower component.
    pub const LOWER_M: u32 = 18000;

    /// Modulus of the upper component: `(36969 << 16) - 1`.
    pub const UPPER_MOD: u32 = 0x9068FFFF;

    /// Modulus of the lower component: `(18000 << 16) - 1`.
    pub const LOWER_MOD: u32 = 0x464FFFFF;

    /// Cycle length of the upper component: `(36969 << 16) / 2 - 1`.
    pub const UPPER_CYCLE_LEN: u32 = 0x48347FFF;

    /// Cycle length of the lower component: `(18000 << 16) / 2 - 1`.
    pub const LOWER_CYCLE_LEN: u32 = 0x2327FFFF;

    pub fn new(seed1: u32, seed2: u32) -> (r: MWC2)
        ensures
            r.upper == seed1,
            r.lower == seed2,
    {
        MWC2 { upper: seed1, lower: seed2 }
    }

    fn sanitise(&mut self)
        ensures
            final(self).upper == mwc32_sanitised(old(self).upper, 0x9068FFFFu32),
            final(self).lower == mwc32_sanitised(old(self).lower, 0x464FFFFFu32),
    {
        self.upper = mwc_sanitise_u32(self.upper, MWC2::UPPER_MOD);
        self.lower = mwc_sanitise_u32(self.lower, MWC2::LOWER_MOD);
    }

    /// The output word for the current state.
    pub fn current(&self) -> (r: u32)
        ensures
            r == mwc2_current(*self),
    {
        let rotated_high = self.upper << 16u32;
        let rotated_low = self.upper >> 16u32;
        let r = self.lower.wrapping_add(rotated_high).wrapping_add(rotated_low);
        proof {
            maths::lemma_wadd_u32(self.lower, rotated_high);
            maths::lemma_wadd_u32(
                ((self.lower + rotated_high) % 0x1_0000_0000) as u32,
                rotated_low,
            );
            vstd::arithmetic::div_mod::lemma_add_mod_noop(
                self.lower as int + rotated_high as int,
                rotated_low as int,
                0x1_0000_0000,
            );
            vstd::arithmetic::div_mod::lemma_mod_twice(
                self.lower as int + rotated_high as int,
                0x1_0000_0000,
            );
            vstd::arithmetic::div_mod::lemma_mod_twice(rotated_low as int, 0x1_0000_0000);
        }
        r
    }

    /// Replace degenerate seeds, advance each component one step, and
    /// combine.
    pub fn next_u32(&mut self) -> (r: u32)
        ensures
            *final(self) == mwc2_next_state(*old(self)),
            r == mwc2_current(*final(self)),
    {
        self.sanitise();
        self.upper = mwc_next_u32(self.upper, MWC2::UPPER_M);
        self.lower = mwc_next_u32(self.lower, MWC2::LOWER_M);

        self.current()
    }

    /// Two steps, low word drawn first.
    pub fn next_u64(&mut self) -> (r: u64)
        ensures
            *final(self) == mwc2_next_state(mwc2_next_state(*old(self))),
            r == mwc2_current(mwc2_next_state(*old(self))) + mwc2_current(*final(self))
                * 0x1_0000_0000,
    {
        let x = self.next_u32();
        let y = self.next_u32();
        proof {
            maths::lemma_u32_pair_u64(x, y);
        }
        (x as u64) | ((y as u64) << 32u64)
    }

    /// Advance each component by `n` steps (`n` reduced modulo that
    /// component's cycle length) by modular exponentiation of its
    /// multiplier.
    pub fn jumpahead(&mut self, n: i64)
        ensures
            final(self).upper as int == (pow(36969, ((n as int) % 0x48347FFFint) as nat)
                * mwc32_sanitised(old(self).upper, 0x9068FFFFu32)) % 0x9068FFFFint,
            final(self).lower as int == (pow(18000, ((n as int) % 0x2327FFFFint) as nat)
                * mwc32_sanitised(old(self).lower, 0x464FFFFFu32)) % 0x464FFFFFint,
    {
        let n_upper: u64 = maths::modulo(n, MWC2::UPPER_CYCLE_LEN as u64);
        let n_lower: u64 = maths::modulo(n, MWC2::LOWER_CYCLE_LEN as u64);

        self.sanitise();
        let ghost su = self.upper as int;
        let ghost sl = self.lower as int;
        let pu = maths::pow_mod_u32(MWC2::UPPER_M, n_upper, MWC2::UPPER_MOD);
        self.upper = maths::mul_mod_u32(pu, self.upper, MWC2::UPPER_MOD);
        let pl = maths::pow_mod_u32(MWC2::LOWER_M, n_lower, MWC2::LOWER_MOD);
        self.lower = maths::mul_mod_u32(pl, self.lower, MWC2::LOWER_MOD);
        proof {
            // a zero distance leaves the fold at 1 == m⁰ mod MOD
            if n_upper == 0 {
                lemma_pow0(36969);
                lemma_small_mod(1, 0x9068FFFF);
            }
            if n_lower == 0 {
                lemma_pow0(18000);
                lemma_small_mod(1, 0x464FFFFF);
            }
            assert(pu == pow(36969, n_upper as nat) % 0x9068FFFFint);
            assert(pl == pow(18000, n_lower as nat) % 0x464FFFFFint);
            lemma_mul_mod_noop_left(pow(36969, n_upper as nat), su, 0x9068FFFFint);
            lemma_mul_mod_noop_left(pow(18000, n_lower as nat), sl, 0x464FFFFFint);
        }
    }
}

/// MWC1 — the multiply-with-carry generator from the 1999 post: the same
/// two components as MWC2, combined by a plain 16-bit shift.
#[derive(Debug, Clone, PartialEq, Eq, Structural)]
pub struct MWC1 {
    pub mwc: MWC2,
}

/// The output word of MWC1: the lower state plus the upper state shifted
/// left 16 bits, with wrapping.
pub open spec fn mwc1_current(s: MWC1) -> u32 {
    ((s.mwc.lower + (s.mwc.upper << 16u32)) % 0x1_0000_0000) as u32
}

impl MWC1 {
    pub fn new(seed1: u32, seed2: u32) -> (r: MWC1)
        ensures
            r.mwc.upper == seed1,
            r.mwc.lower == seed2,
    {
        MWC1 { mwc: MWC2::new(seed1, seed2) }
    }

    /// The output word for the current state.
    pub fn current(&self) -> (r: u32)
        ensures
            r == mwc1_current(*self),
    {
        let shifted = self.mwc.upper << 16u32;
        let r = self.mwc.lower.wrapping_add(shifted);
        proof {
            maths::lemma_wadd_u32(self.mwc.lower, shifted);
        }
        r
    }

    /// Advance the shared MWC2 state one step, but combine as MWC1.
    pub fn next_u32(&mut self) -> (r: u32)
        ensures
            final(self).mwc == mwc2_next_state(old(self).mwc),
            r == mwc1_current(*final(self)),
    {
        self.mwc.next_u32();
        self.current()
    }

    /// Two steps, low word drawn first.
    pub fn next_u64(&mut self) -> (r: u64)
        ensures
            final(self).mwc == mwc2_next_state(mwc2_next_state(old(self).mwc)),
            r == mwc1_current((MWC1 { mwc: mwc2_next_state(old(self).mwc) })) + mwc1_current(
                *final(self),
            ) * 0x1_0000_0000,
    {
        let x = self.next_u32();
        let y = self.next_u32();
        proof {
            maths::lemma_u32_pair_u64(x, y);
        }
        (x as u64) | ((y as u64) << 32u64)
    }

    /// Advance by `n` steps: exactly the MWC2 jump on the shared state.
    pub fn jumpahead(&mut self, n: i64)
        ensures
            final(self).mwc.upper as int == (pow(36969, ((n as int) % 0x48347FFFint) as nat)
                * mwc32_sanitised(old(self).mwc.upper, 0x9068FFFFu32)) % 0x9068FFFFint,
            final(self).mwc.lower as int == (pow(18000, ((n as int) % 0x2327FFFFint) as nat)
                * mwc32_sanitised(old(self).mwc.lower, 0x464FFFFFu32)) % 0x464FFFFFint,
    {
        self.mwc.jumpahead(n);
    }
}

/// MWC64 — a single multiply-with-carry generator with one 64-bit
/// calculation per step; the output is the low 32 bits of the state.
#[derive(Debug, Clone, PartialEq, Eq, Structural)]
pub struct MWC64 {
    pub mwc: u64,
}

/// The state of MWC64 after one step.
pub open spec fn mwc64_next_state(s: MWC64) -> MWC64 {
    (MWC64 { mwc: mwc64_next(mwc64_sanitised(s.mwc, 0x29A65EACFFFFFFFFu64), 698769069) })
}

impl MWC64 {
    /// Multiplier of the recurrence.
    pub const M: u64 = 698769069;

    /// Modulus: `(698769069 << 32) - 1`.
    pub const MOD: u64 = 0x29A65EACFFFFFFFF;

    /// Cycle length: `(698769069 << 32) / 2 - 1`.
    pub const CYCLE_LEN: u64 = 0x14D32F567FFFFFFF;

    /// The two 32-bit seeds become the high and low halves of the state.
    pub fn new(seed1: u32, seed2: u32) -> (r: MWC64)
        ensures
            r.mwc == ((seed1 as u64) << 32u64) ^ (seed2 as u64),
    {
        MWC64 { mwc: ((seed1 as u64) << 32u64) ^ (seed2 as u64) }
    }

    fn sanitise(&mut self)
        ensures
            final(self).mwc == mwc64_sanitised(old(self).mwc, 0x29A65EACFFFFFFFFu64),
    {
        self.mwc = mwc_sanitise_u64(self.mwc, MWC64::MOD);
    }

    fn next_mwc(&mut self)
        ensures
            final(self).mwc == mwc64_next(old(self).mwc, 698769069),
    {
        self.mwc = mwc_next_u64(self.mwc, MWC64::M);
    }

    /// The output word for the current state: the low 32 bits.
    pub fn current(&self) -> (r: u32)
        ensures
            r == self.mwc as u32,
    {
        self.mwc as u32
    }

    /// Replace a degenerate seed, advance one step, and return the low
    /// 32 bits.
    pub fn next_u32(&mut self) -> (r: u32)
        ensures
            *final(self) == mwc64_next_state(*old(self)),
            r == final(self).mwc as u32,
    {
        self.sanitise();
        self.next_mwc();
        self.current()
    }

    /// Two steps, low word drawn first.
    pub fn next_u64(&mut self) -> (r: u64)
        ensures
            *final(self) == mwc64_next_state(mwc64_next_state(*old(self))),
            r == (mwc64_next_state(*old(self)).mwc as u32) + (final(self).mwc as u32)
                * 0x1_0000_0000,
    {
        let x = self.next_u32();
        let y = self.next_u32();
        proof {
            maths::lemma_u32_pair_u64(x, y);
        }
        (x as u64) | ((y as u64) << 32u64)
    }

    /// Advance by `n` steps (`n` reduced modulo the cycle length) by
    /// modular exponentiation of the multiplier.
    pub fn jumpahead(&mut self, n: i64)
        ensures
            final(self).mwc as int == (pow(698769069, ((n as int) % 0x14D32F567FFFFFFFint) as nat)
                * mwc64_sanitised(old(self).mwc, 0x29A65EACFFFFFFFFu64)) % 0x29A65EACFFFFFFFFint,
    {
        let n_mod: u64 = maths::modulo(n, MWC64::CYCLE_LEN);
        self.sanitise();
        let ghost s0 = self.mwc as int;
        let p = maths::pow_mod(MWC64::M, n_mod, MWC64::MOD);
        self.mwc = maths::mul_mod_u64(p, self.mwc, MWC64::MOD);
        proof {
            // a zero distance leaves the fold at 1 == m⁰ mod MOD
            if n_mod == 0 {
                lemma_pow0(698769069);
                lemma_small_mod(1, 0x29A65EACFFFFFFFF);
            }
            assert(p == pow(698769069, n_mod as nat) % 0x29A65EACFFFFFFFFint);
            lemma_mul_mod_noop_left(pow(698769069, n_mod as nat), s0, 0x29A65EACFFFFFFFFint);
        }
    }
}

impl crate::RngJumpAhead for MWC2 {
    fn jumpahead(&mut self, n: i64) {
        self.jumpahead(n);
    }
}

impl crate::RngJumpAhead for MWC1 {
    fn jumpahead(&mut self, n: i64) {
        self.jumpahead(n);
    }
}

impl crate::RngJumpAhead for MWC64 {
    fn jumpahead(&mut self, n: i64) {
        self.jumpahead(n);
    }
}

} // verus!
