//! SHR3 — 3-shift-register random number generator.
//!
//! `y[n] = y[n-1]·(I + L¹³)·(I + R¹⁷)·(I + L⁵)` with the state viewed as
//! a binary vector, `L` the 32×32 binary matrix shifting left by one and
//! `R` its transpose; period `2^32 - 1` (the zero state is replaced
//! before stepping).  Jump-ahead raises the step matrix to the `n`-th
//! power over GF(2).

use crate::bitcolumnmatrix::{
    identity_mat, lemma_add_apply, lemma_apply_identity, lemma_compose_apply,
    lemma_pow_apply_is_iterated, lemma_shift_apply, iter_apply, mat_add, mat_apply, mat_mul,
    mat_pow, shift_mat, BitColumnMatrix,
};
use crate::maths;
use vstd::prelude::*;

verus! {

/// The zero state is degenerate (it is a fixed point of the linear
/// step), so it is replaced by all-ones before stepping.
pub open spec fn shr3_sanitised(x: u32) -> u32 {
    if x == 0 {
        0xFFFF_FFFFu32
    } else {
        x
    }
}

/// One step: three xor-shifts.
pub open spec fn shr3_next(x: u32) -> u32 {
    let a = x ^ (x << 13u32);
    let b = a ^ (a >> 17u32);
    b ^ (b << 5u32)
}

/// The step written in the matrix algebra:
/// `(I + L⁵) · (I + R¹⁷) · (I + L¹³)`, one factor per xor-shift.
pub open spec fn shr3_step_mat() -> Seq<u32> {
    mat_mul(
        mat_add(identity_mat(), shift_mat(5)),
        mat_mul(mat_add(identity_mat(), shift_mat(-17)), mat_add(identity_mat(), shift_mat(13))),
    )
}

/// Applying the algebraic step matrix performs exactly one step of the
/// xor-shift recurrence.  (The column constants used by `jumpahead` are
/// this product written out; the tests compare the two.)
pub proof fn lemma_shr3_step_matrix(v: u32)
    ensures
        mat_apply(shr3_step_mat(), v) == shr3_next(v),
{
    let l13 = mat_add(identity_mat(), shift_mat(13));
    let r17 = mat_add(identity_mat(), shift_mat(-17));
    let l5 = mat_add(identity_mat(), shift_mat(5));
    lemma_compose_apply(l5, mat_mul(r17, l13), v);
    lemma_compose_apply(r17, l13, v);
    // (I + shift(k)) w == w ^ (w << k), resp. w ^ (w >> -k)
    lemma_add_apply(identity_mat(), shift_mat(13), v);
    lemma_apply_identity(v);
    lemma_shift_apply(13, v);
    let a = v ^ (v << 13u32);
    lemma_add_apply(identity_mat(), shift_mat(-17), a);
    lemma_apply_identity(a);
    lemma_shift_apply(-17i8, a);
    let b = a ^ (a >> 17u32);
    lemma_add_apply(identity_mat(), shift_mat(5), b);
    lemma_apply_identity(b);
    lemma_shift_apply(5, b);
}

/// `k` raw steps of the recurrence from `x` (no re-seeding in between).
pub open spec fn shr3_iter(x: u32, k: nat) -> u32
    decreases k,
{
    if k == 0 {
        x
    } else {
        shr3_next(shr3_iter(x, (k - 1) as nat))
    }
}

proof fn lemma_shr3_iter_apply(v: u32, k: nat)
    ensures
        iter_apply(shr3_step_mat(), v, k) == shr3_iter(v, k),
    decreases k,
{
    if k > 0 {
        lemma_shr3_iter_apply(v, (k - 1) as nat);
        lemma_shr3_step_matrix(shr3_iter(v, (k - 1) as nat));
    }
}

/// Jumping `k` steps with the matrix power equals `k` single steps of
/// the recurrence.
pub proof fn lemma_shr3_jump_is_iterated(v: u32, k: nat)
    ensures
        mat_apply(mat_pow(shr3_step_mat(), k), v) == shr3_iter(v, k),
{
    lemma_pow_apply_is_iterated(shr3_step_mat(), v, k);
    lemma_shr3_iter_apply(v, k);
}

#[derive(Debug, Clone, PartialEq, Eq, Structural)]
pub struct SHR3 {
    pub shr3: u32,
}

impl SHR3 {
    /// The generator cycles through all non-zero words.
    pub const CYCLE_LEN: u32 = 0xFFFF_FFFF;

    pub fn new(seed1: u32) -> (r: SHR3)
        ensures
            r.shr3 == seed1,
    {
        SHR3 { shr3: seed1 }
    }

    fn sanitise(&mut self)
        ensures
            final(self).shr3 == shr3_sanitised(old(self).shr3),
    {
        if self.shr3 == 0 {
            self.shr3 = 0xFFFF_FFFF;
        }
    }

    /// Replace a degenerate state, advance one step, and return the new
    /// state word.
    pub fn next_u32(&mut self) -> (r: u32)
        ensures
            final(self).shr3 == shr3_next(shr3_sanitised(old(self).shr3)),
            r == final(self).shr3,
    {
        self.sanitise();
        let mut shr3 = self.shr3;

        shr3 = shr3 ^ (shr3 << 13u32);
        shr3 = shr3 ^ (shr3 >> 17u32);
        shr3 = shr3 ^ (shr3 << 5u32);
        self.shr3 = shr3;

        shr3
    }

    /// Two steps, low word drawn first.
    pub fn next_u64(&mut self) -> (r: u64)
        ensures
            final(self).shr3 == shr3_next(shr3_sanitised(shr3_next(shr3_sanitised(old(self).shr3)))),
            r == shr3_next(shr3_sanitised(old(self).shr3)) + final(self).shr3 * 0x1_0000_0000,
    {
        let x = self.next_u32();
        let y = self.next_u32();
        proof {
            maths::lemma_u32_pair_u64(x, y);
        }
        (x as u64) | ((y as u64) << 32u64)
    }

    /// Advance by `n` steps (`n` may be negative; the distance is
    /// reduced modulo the cycle length `2^32 - 1`): the new state is
    /// exactly that many single steps ahead of the sanitised state,
    /// computed in `O(log n)` by raising the step matrix to that power.
    pub fn jumpahead(&mut self, n: i64)
        ensures
            final(self).shr3 == shr3_iter(
                shr3_sanitised(old(self).shr3),
                ((n as int) % 0xFFFF_FFFF) as nat,
            ),
    {
        let n_mod: u64 = maths::modulo(n, SHR3::CYCLE_LEN as u64);
        self.sanitise();
        let unity = BitColumnMatrix::one();
        let step = unity.add(&BitColumnMatrix::shift(5)).dot(
            &unity.add(&BitColumnMatrix::shift(-17)).dot(&unity.add(&BitColumnMatrix::shift(13))),
        );
        let shr3_mult = step.pow(n_mod);
        proof {
            lemma_shr3_jump_is_iterated(self.shr3, n_mod as nat);
        }
        self.shr3 = shr3_mult.dot_vec(self.shr3);
    }
}

impl crate::RngJumpAhead for SHR3 {
    fn jumpahead(&mut self, n: i64) {
        self.jumpahead(n);
    }
}

} // verus!
