//! Cong — congruential random number generator.
//!
//! A congruential generator with the widely used 69069 multiplier:
//! `x[n] = 69069·x[n-1] + 12345 (mod 2^32)`, period `2^32`.  Jump-ahead
//! folds `n` steps into the closed form
//! `x[n] = 69069ⁿ·x[0] + (1 + 69069 + … + 69069ⁿ⁻¹)·12345 (mod 2^32)`.

use crate::maths;
use crate::maths::geom_series;
use vstd::arithmetic::div_mod::{
    lemma_add_mod_noop, lemma_mod_twice, lemma_mul_mod_noop_left, lemma_mul_mod_noop_right,
};
use vstd::arithmetic::mul::lemma_mul_basics;
use vstd::arithmetic::power::pow;
use vstd::prelude::*;

verus! {

/// One step of the recurrence: `x ↦ 69069·x + 12345 (mod 2^32)`.
pub open spec fn cong_next(x: u32) -> u32 {
    ((69069 * x + 12345) % 0x1_0000_0000) as u32
}

/// The state `nm` steps ahead of `x`, in closed form:
/// `69069^nm · x + (1 + 69069 + … + 69069^(nm-1)) · 12345 (mod 2^32)`.
pub open spec fn cong_jump(x: u32, nm: nat) -> int {
    (pow(69069, nm) * x + geom_series(69069, nm) * 12345) % 0x1_0000_0000
}

/// `k` single steps from `x`.
pub open spec fn cong_iter(x: u32, k: nat) -> u32
    decreases k,
{
    if k == 0 {
        x
    } else {
        cong_next(cong_iter(x, (k - 1) as nat))
    }
}

/// One affine step applied to the reduced closed form equals the closed
/// form with the power and series advanced by one term, modulo `big`.
proof fn lemma_affine_step_mod(mval: int, cval: int, p: int, g: int, x: int, big: int)
    requires
        big > 0,
    ensures
        (mval * ((p * x + g * cval) % big) + cval) % big == ((mval * p) * x + (mval * g + 1)
            * cval) % big,
{
    lemma_mul_mod_noop_right(mval, p * x + g * cval, big);
    lemma_add_mod_noop(mval * ((p * x + g * cval) % big), cval, big);
    lemma_add_mod_noop(mval * (p * x + g * cval), cval, big);
    lemma_mod_twice(mval * ((p * x + g * cval) % big), big);
    lemma_mod_twice(mval * (p * x + g * cval), big);
    lemma_mod_twice(cval, big);
    assert(mval * (p * x + g * cval) + cval == (mval * p) * x + (mval * g + 1) * cval)
        by (nonlinear_arith);
}

/// The closed form used by jump-ahead equals `k` iterated steps, for
/// every `k`.
pub proof fn lemma_cong_jump_is_iterated(x: u32, k: nat)
    ensures
        cong_jump(x, k) == cong_iter(x, k),
    decreases k,
{
    if k == 0 {
        vstd::arithmetic::power::lemma_pow0(69069);
        lemma_mul_basics(x as int);
        vstd::arithmetic::div_mod::lemma_small_mod(x as nat, 0x1_0000_0000);
    } else {
        lemma_cong_jump_is_iterated(x, (k - 1) as nat);
        let p = pow(69069, (k - 1) as nat);
        let g = geom_series(69069, (k - 1) as nat);
        let prev = cong_iter(x, (k - 1) as nat);
        assert(prev as int == (p * (x as int) + g * 12345) % 0x1_0000_0000);
        assert((69069 * (prev as int) + 12345) % 0x1_0000_0000 == ((69069 * p) * (x as int) + (
        69069 * g + 1) * 12345) % 0x1_0000_0000) by {
            lemma_affine_step_mod(69069, 12345, p, g, x as int, 0x1_0000_0000);
        }
        assert(cong_iter(x, k) as int == (69069 * (prev as int) + 12345) % 0x1_0000_0000) by {
            vstd::arithmetic::div_mod::lemma_mod_bound(
                69069 * (prev as int) + 12345,
                0x1_0000_0000,
            );
        }
        assert(pow(69069, k) == 69069 * p) by {
            vstd::arithmetic::power::lemma_pow1(69069);
            vstd::arithmetic::power::lemma_pow_adds(69069, 1, (k - 1) as nat);
        }
        assert(geom_series(69069, k) == 69069 * g + 1) by {
            maths::lemma_geom_series_peel_left(69069, k);
        }
        assert(cong_jump(x, k) == ((69069 * p) * (x as int) + (69069 * g + 1) * 12345)
            % 0x1_0000_0000);
    }
}

#[derive(Debug, Clone, PartialEq, Eq, Structural)]
pub struct Cong {
    pub cong: u32,
}

impl Cong {
    /// The multiplier of the recurrence.
    pub const M: u32 = 69069;

    /// The increment of the recurrence.
    pub const C: u32 = 12345;

    /// The generator walks all of `2^32`, so jump distances are reduced
    /// modulo `2^32`.
    pub const CYCLE_LEN: u64 = 0x1_0000_0000;

    pub fn new(seed1: u32) -> (r: Cong)
        ensures
            r.cong == seed1,
    {
        Cong { cong: seed1 }
    }

    /// Advance one step; the new state word is the output.
    pub fn next_u32(&mut self) -> (r: u32)
        ensures
            final(self).cong == cong_next(old(self).cong),
            r == final(self).cong,
    {
        let ghost x0 = self.cong as int;
        self.cong = self.cong.wrapping_mul(Cong::M).wrapping_add(Cong::C);
        proof {
            maths::lemma_wadd_u32(((69069 * x0) % 0x1_0000_0000) as u32, 12345);
            lemma_add_mod_noop(69069 * x0, 12345, 0x1_0000_0000);
            lemma_mod_twice(69069 * x0, 0x1_0000_0000);
            lemma_mod_twice(12345, 0x1_0000_0000);
        }
        self.cong
    }

    /// Two steps, low word drawn first.
    pub fn next_u64(&mut self) -> (r: u64)
        ensures
            final(self).cong == cong_next(cong_next(old(self).cong)),
            r == cong_next(old(self).cong) + cong_next(cong_next(old(self).cong))
                * 0x1_0000_0000,
    {
        let x = self.next_u32();
        let y = self.next_u32();
        proof {
            maths::lemma_u32_pair_u64(x, y);
        }
        (x as u64) | ((y as u64) << 32u64)
    }

    /// Advance by `n` steps (`n` may be negative; the distance is
    /// reduced modulo the cycle length `2^32`) in `O(log n)`, using the
    /// closed form of the affine recurrence.
    pub fn jumpahead(&mut self, n: i64)
        ensures
            final(self).cong == cong_jump(old(self).cong, ((n as int) % 0x1_0000_0000) as nat),
            final(self).cong == cong_iter(old(self).cong, ((n as int) % 0x1_0000_0000) as nat),
    {
        let ghost x0 = self.cong as int;
        let ghost big = 0x1_0000_0000int;
        let n_mod: u64 = maths::modulo(n, Cong::CYCLE_LEN);
        let ghost nm = n_mod as nat;
        let mult_exp: u32 = maths::wrapping_pow(Cong::M, n_mod);
        let g: u32 = maths::wrapping_geom_series(Cong::M, n_mod);
        let add_const: u32 = g.wrapping_mul(Cong::C);
        let cong = mult_exp.wrapping_mul(self.cong).wrapping_add(add_const);
        proof {
            // mult_exp·x ≡ 69069^nm · x and add_const ≡ geom·12345 (mod 2^32)
            lemma_mul_mod_noop_left(pow(69069, nm), x0, big);
            lemma_mul_mod_noop_left(geom_series(69069, nm), 12345, big);
            maths::lemma_wadd_u32(
                ((pow(69069, nm) * x0) % big) as u32,
                ((geom_series(69069, nm) * 12345) % big) as u32,
            );
            lemma_add_mod_noop(pow(69069, nm) * x0, geom_series(69069, nm) * 12345, big);
            lemma_mod_twice(pow(69069, nm) * x0, big);
            lemma_mod_twice(geom_series(69069, nm) * 12345, big);
            lemma_cong_jump_is_iterated(old(self).cong, nm);
        }
        self.cong = cong;
    }
}

impl crate::RngJumpAhead for Cong {
    fn jumpahead(&mut self, n: i64) {
        self.jumpahead(n);
    }
}

} // verus!
