//! Combined LFSR (Tausworthe) generators by L'Ecuyer.
//!
//! Each component keeps a 32-bit word `z` and steps by a GF(2)-linear
//! rule `z ↦ ((z & mask) << c) ^ (((z << a) ^ z) >> b)`; the generator
//! output XORs the components.  Every component step is a fixed bit
//! matrix, so jump-ahead raises that matrix to the `n`-th power, `n`
//! reduced modulo the component's cycle length.
//!
//! `LFSR88` (aka Taus88) combines three components, period about `2^88`;
//! `LFSR113` combines four, period about `2^113`.

use crate::bitcolumnmatrix::{
    identity_mat, iter_apply, lemma_add_apply, lemma_apply_identity, lemma_bitand_apply,
    lemma_compose_apply, lemma_pow_apply_is_iterated, lemma_shift_apply, lemma_xor_commutes,
    mat_add, mat_and, mat_apply, mat_mul, mat_pow, shift_mat, BitColumnMatrix,
};
use crate::maths;
use vstd::prelude::*;

verus! {

/// Spread a seed over both halves of the state word.
pub open spec fn lfsr_seed(seed: u32) -> u32 {
    seed ^ (seed << 16u32)
}

/// A component state below `min_value` is degenerate (its significant
/// bits are all zero); flip it first.
pub open spec fn lfsr_sanitised(z: u32, min_value: u32) -> u32 {
    if z < min_value {
        z ^ 0xFFFF_FFFFu32
    } else {
        z
    }
}

/// One component step with shift constants `a`, `b`, `c`: the mask keeps
/// the bits that participate in the recurrence.
pub open spec fn lfsr_next(z: u32, a: u32, b: u32, c: u32, min_value: u32) -> u32 {
    let mask = (0xFFFF_FFFF - (min_value - 1)) as u32;
    let feedback = ((z << a) ^ z) >> b;
    ((z & mask) << c) ^ feedback
}

/// The component step written in the matrix algebra:
/// `shift(c)·(I & mask) + shift(-b)·(I + shift(a))`.
pub open spec fn lfsr_step_mat(a: int, b: int, c: int, min_value: u32) -> Seq<u32> {
    mat_add(
        mat_mul(shift_mat(c), mat_and(identity_mat(), (0xFFFF_FFFF - (min_value - 1)) as u32)),
        mat_mul(shift_mat(-b), mat_add(identity_mat(), shift_mat(a))),
    )
}

/// Applying the algebraic step matrix performs exactly one component
/// step.  (The column constants used by `jumpahead` are the per-component
/// instances of this product written out; the tests compare the two.)
pub proof fn lemma_lfsr_step_matrix(a: u32, b: u32, c: u32, min_value: u32, z: u32)
    requires
        a < 32,
        0 < b < 32,
        c < 32,
        min_value >= 1,
    ensures
        mat_apply(lfsr_step_mat(a as int, b as int, c as int, min_value), z) == lfsr_next(
            z,
            a,
            b,
            c,
            min_value,
        ),
{
    let mask = (0xFFFF_FFFF - (min_value - 1)) as u32;
    let masked_shift = mat_mul(shift_mat(c as int), mat_and(identity_mat(), mask));
    let feedback = mat_mul(shift_mat(-(b as int)), mat_add(identity_mat(), shift_mat(a as int)));
    lemma_add_apply(masked_shift, feedback, z);
    // left summand: ((z & mask) << c)
    lemma_compose_apply(shift_mat(c as int), mat_and(identity_mat(), mask), z);
    lemma_bitand_apply(identity_mat(), mask, z);
    lemma_apply_identity(z);
    lemma_shift_apply(c as i8, z & mask);
    // right summand: ((z << a) ^ z) >> b
    lemma_compose_apply(shift_mat(-(b as int)), mat_add(identity_mat(), shift_mat(a as int)), z);
    lemma_add_apply(identity_mat(), shift_mat(a as int), z);
    lemma_shift_apply(a as i8, z);
    lemma_xor_commutes(z, z << a);
    lemma_shift_apply(-(b as int) as i8, (z << a) ^ z);
}

/// `k` raw steps of one component from `z`.
pub open spec fn lfsr_iter(z: u32, a: u32, b: u32, c: u32, min_value: u32, k: nat) -> u32
    decreases k,
{
    if k == 0 {
        z
    } else {
        lfsr_next(lfsr_iter(z, a, b, c, min_value, (k - 1) as nat), a, b, c, min_value)
    }
}

proof fn lemma_lfsr_iter_apply(a: u32, b: u32, c: u32, min_value: u32, z: u32, k: nat)
    requires
        a < 32,
        0 < b < 32,
        c < 32,
        min_value >= 1,
    ensures
        iter_apply(lfsr_step_mat(a as int, b as int, c as int, min_value), z, k) == lfsr_iter(
            z,
            a,
            b,
            c,
            min_value,
            k,
        ),
    decreases k,
{
    if k > 0 {
        lemma_lfsr_iter_apply(a, b, c, min_value, z, (k - 1) as nat);
        lemma_lfsr_step_matrix(a, b, c, min_value, lfsr_iter(z, a, b, c, min_value, (k - 1) as nat));
    }
}

/// Jumping `k` steps of one component with the matrix power equals `k`
/// single steps of its recurrence.
pub proof fn lemma_lfsr_jump_is_iterated(a: u32, b: u32, c: u32, min_value: u32, z: u32, k: nat)
    requires
        a < 32,
        0 < b < 32,
        c < 32,
        min_value >= 1,
    ensures
        mat_apply(mat_pow(lfsr_step_mat(a as int, b as int, c as int, min_value), k), z)
            == lfsr_iter(z, a, b, c, min_value, k),
{
    lemma_pow_apply_is_iterated(lfsr_step_mat(a as int, b as int, c as int, min_value), z, k);
    lemma_lfsr_iter_apply(a, b, c, min_value, z, k);
}

fn lfsr_seed_z(seed: u32) -> (r: u32)
    ensures
        r == lfsr_seed(seed),
{
    seed ^ (seed << 16u32)
}

fn lfsr_sanitise_z(z: u32, min_value: u32) -> (r: u32)
    ensures
        r == lfsr_sanitised(z, min_value),
{
    if z < min_value {
        z ^ 0xFFFF_FFFF
    } else {
        z
    }
}

fn lfsr_next_z(z: u32, a: u8, b: u8, c: u8, min_value: u32) -> (r: u32)
    requires
        a < 32,
        b < 32,
        c < 32,
        min_value >= 1,
    ensures
        r == lfsr_next(z, a as u32, b as u32, c as u32, min_value),
{
    let mask: u32 = 0xFFFF_FFFF - (min_value - 1);
    let feedback = ((z << (a as u32)) ^ z) >> (b as u32);
    ((z & mask) << (c as u32)) ^ feedback
}

/// Build the component step matrix from its shift constants, through
/// the verified matrix algebra.
fn lfsr_step_matrix(a: i8, b: i8, c: i8, min_value: u32) -> (r: BitColumnMatrix)
    requires
        0 <= a < 32,
        0 < b < 32,
        0 <= c < 32,
        min_value >= 1,
    ensures
        r@ == lfsr_step_mat(a as int, b as int, c as int, min_value),
{
    let mask: u32 = 0xFFFF_FFFF - (min_value - 1);
    let unity = BitColumnMatrix::one();
    let masked_shift = BitColumnMatrix::shift(c).dot(&unity.bitand(mask));
    let feedback = BitColumnMatrix::shift(-b).dot(&unity.add(&BitColumnMatrix::shift(a)));
    masked_shift.add(&feedback)
}

/// LFSR88 — three combined Tausworthe components.
#[derive(Debug, Clone, PartialEq, Eq, Structural)]
pub struct LFSR88 {
    pub z1: u32,
    pub z2: u32,
    pub z3: u32,
}

/// The state of LFSR88 after one step of each component.
pub open spec fn lfsr88_next_state(s: LFSR88) -> LFSR88 {
    (LFSR88 {
        z1: lfsr_next(lfsr_sanitised(s.z1, 2), 13, 19, 12, 2),
        z2: lfsr_next(lfsr_sanitised(s.z2, 8), 2, 25, 4, 8),
        z3: lfsr_next(lfsr_sanitised(s.z3, 16), 3, 11, 17, 16),
    })
}

/// The output word of LFSR88: the XOR of the components.
pub open spec fn lfsr88_current(s: LFSR88) -> u32 {
    s.z1 ^ s.z2 ^ s.z3
}

impl LFSR88 {
    /// Smallest non-degenerate value of each component.
    pub const Z1_MIN: u32 = 2;

    pub const Z2_MIN: u32 = 8;

    pub const Z3_MIN: u32 = 16;

    /// Cycle length of each component: `2^31 - 1`, `2^29 - 1`, `2^28 - 1`.
    pub const Z1_CYCLE_LEN: u32 = 0x7FFFFFFF;

    pub const Z2_CYCLE_LEN: u32 = 0x1FFFFFFF;

    pub const Z3_CYCLE_LEN: u32 = 0x0FFFFFFF;

    pub fn new(seed1: u32, seed2: u32, seed3: u32) -> (r: LFSR88)
        ensures
            r.z1 == lfsr_seed(seed1),
            r.z2 == lfsr_seed(seed2),
            r.z3 == lfsr_seed(seed3),
    {
        LFSR88 { z1: lfsr_seed_z(seed1), z2: lfsr_seed_z(seed2), z3: lfsr_seed_z(seed3) }
    }

    fn sanitise_z1(&mut self)
        ensures
            *final(self) == (LFSR88 { z1: lfsr_sanitised(old(self).z1, 2), ..*old(self) }),
    {
        self.z1 = lfsr_sanitise_z(self.z1, LFSR88::Z1_MIN);
    }

    fn sanitise_z2(&mut self)
        ensures
            *final(self) == (LFSR88 { z2: lfsr_sanitised(old(self).z2, 8), ..*old(self) }),
    {
        self.z2 = lfsr_sanitise_z(self.z2, LFSR88::Z2_MIN);
    }

    fn sanitise_z3(&mut self)
        ensures
            *final(self) == (LFSR88 { z3: lfsr_sanitised(old(self).z3, 16), ..*old(self) }),
    {
        self.z3 = lfsr_sanitise_z(self.z3, LFSR88::Z3_MIN);
    }

    fn next_z1(&mut self)
        ensures
            *final(self) == (LFSR88 { z1: lfsr_next(old(self).z1, 13, 19, 12, 2), ..*old(self) }),
    {
        self.z1 = lfsr_next_z(self.z1, 13, 19, 12, LFSR88::Z1_MIN);
    }

    fn next_z2(&mut self)
        ensures
            *final(self) == (LFSR88 { z2: lfsr_next(old(self).z2, 2, 25, 4, 8), ..*old(self) }),
    {
        self.z2 = lfsr_next_z(self.z2, 2, 25, 4, LFSR88::Z2_MIN);
    }

    fn next_z3(&mut self)
        ensures
            *final(self) == (LFSR88 { z3: lfsr_next(old(self).z3, 3, 11, 17, 16), ..*old(self) }),
    {
        self.z3 = lfsr_next_z(self.z3, 3, 11, 17, LFSR88::Z3_MIN);
    }

    /// The output word for the current state.
    pub fn current(&self) -> (r: u32)
        ensures
            r == lfsr88_current(*self),
    {
        self.z1 ^ self.z2 ^ self.z3
    }

    /// Replace degenerate components, advance each one step, and combine.
    pub fn next_u32(&mut self) -> (r: u32)
        ensures
            *final(self) == lfsr88_next_state(*old(self)),
            r == lfsr88_current(*final(self)),
    {
        self.sanitise_z1();
        self.next_z1();
        self.sanitise_z2();
        self.next_z2();
        self.sanitise_z3();
        self.next_z3();

        self.current()
    }

    /// Two steps, low word drawn first.
    pub fn next_u64(&mut self) -> (r: u64)
        ensures
            *final(self) == lfsr88_next_state(lfsr88_next_state(*old(self))),
            r == lfsr88_current(lfsr88_next_state(*old(self))) + lfsr88_current(*final(self))
                * 0x1_0000_0000,
    {
        let x = self.next_u32();
        let y = self.next_u32();
        proof {
            maths::lemma_u32_pair_u64(x, y);
        }
        (x as u64) | ((y as u64) << 32u64)
    }

    /// Advance each component by `n` steps (`n` reduced modulo that
    /// component's cycle length): each new component state is exactly
    /// that many single steps ahead of its sanitised state, computed in
    /// `O(log n)` by powers of the step matrix over GF(2).
    pub fn jumpahead(&mut self, n: i64)
        ensures
            final(self).z1 == lfsr_iter(
                lfsr_sanitised(old(self).z1, 2),
                13,
                19,
                12,
                2,
                ((n as int) % 0x7FFFFFFFint) as nat,
            ),
            final(self).z2 == lfsr_iter(
                lfsr_sanitised(old(self).z2, 8),
                2,
                25,
                4,
                8,
                ((n as int) % 0x1FFFFFFFint) as nat,
            ),
            final(self).z3 == lfsr_iter(
                lfsr_sanitised(old(self).z3, 16),
                3,
                11,
                17,
                16,
                ((n as int) % 0x0FFFFFFFint) as nat,
            ),
    {
        let n_z1: u64 = maths::modulo(n, LFSR88::Z1_CYCLE_LEN as u64);
        self.sanitise_z1();
        let z1_matrix = lfsr_step_matrix(13, 19, 12, LFSR88::Z1_MIN);
        let z1_mult = z1_matrix.pow(n_z1);
        proof {
            lemma_lfsr_jump_is_iterated(13, 19, 12, 2, self.z1, n_z1 as nat);
        }
        self.z1 = z1_mult.dot_vec(self.z1);

        let n_z2: u64 = maths::modulo(n, LFSR88::Z2_CYCLE_LEN as u64);
        self.sanitise_z2();
        let z2_matrix = lfsr_step_matrix(2, 25, 4, LFSR88::Z2_MIN);
        let z2_mult = z2_matrix.pow(n_z2);
        proof {
            lemma_lfsr_jump_is_iterated(2, 25, 4, 8, self.z2, n_z2 as nat);
        }
        self.z2 = z2_mult.dot_vec(self.z2);

        let n_z3: u64 = maths::modulo(n, LFSR88::Z3_CYCLE_LEN as u64);
        self.sanitise_z3();
        let z3_matrix = lfsr_step_matrix(3, 11, 17, LFSR88::Z3_MIN);
        let z3_mult = z3_matrix.pow(n_z3);
        proof {
            lemma_lfsr_jump_is_iterated(3, 11, 17, 16, self.z3, n_z3 as nat);
        }
        self.z3 = z3_mult.dot_vec(self.z3);
    }
}

/// LFSR113 — four combined Tausworthe components.
#[derive(Debug, Clone, PartialEq, Eq, Structural)]
pub struct LFSR113 {
    pub z1: u32,
    pub z2: u32,
    pub z3: u32,
    pub z4: u32,
}

/// The state of LFSR113 after one step of each component.
pub open spec fn lfsr113_next_state(s: LFSR113) -> LFSR113 {
    (LFSR113 {
        z1: lfsr_next(lfsr_sanitised(s.z1, 2), 6, 13, 18, 2),
        z2: lfsr_next(lfsr_sanitised(s.z2, 8), 2, 27, 2, 8),
        z3: lfsr_next(lfsr_sanitised(s.z3, 16), 13, 21, 7, 16),
        z4: lfsr_next(lfsr_sanitised(s.z4, 128), 3, 12, 13, 128),
    })
}

/// The output word of LFSR113: the XOR of the components.
pub open spec fn lfsr113_current(s: LFSR113) -> u32 {
    s.z1 ^ s.z2 ^ s.z3 ^ s.z4
}

impl LFSR113 {
    /// Smallest non-degenerate value of each component.
    pub const Z1_MIN: u32 = 2;

    pub const Z2_MIN: u32 = 8;

    pub const Z3_MIN: u32 = 16;

    pub const Z4_MIN: u32 = 128;

    /// Cycle length of each component: `2^31 - 1`, `2^29 - 1`,
    /// `2^28 - 1`, `2^25 - 1`.
    pub const Z1_CYCLE_LEN: u32 = 0x7FFFFFFF;

    pub const Z2_CYCLE_LEN: u32 = 0x1FFFFFFF;

    pub const Z3_CYCLE_LEN: u32 = 0x0FFFFFFF;

    pub const Z4_CYCLE_LEN: u32 = 0x01FFFFFF;

    pub fn new(seed1: u32, seed2: u32, seed3: u32, seed4: u32) -> (r: LFSR113)
        ensures
            r.z1 == lfsr_seed(seed1),
            r.z2 == lfsr_seed(seed2),
            r.z3 == lfsr_seed(seed3),
            r.z4 == lfsr_seed(seed4),
    {
        LFSR113 {
            z1: lfsr_seed_z(seed1),
            z2: lfsr_seed_z(seed2),
            z3: lfsr_seed_z(seed3),
            z4: lfsr_seed_z(seed4),
        }
    }

    fn sanitise_z1(&mut self)
        ensures
            *final(self) == (LFSR113 { z1: lfsr_sanitised(old(self).z1, 2), ..*old(self) }),
    {
        self.z1 = lfsr_sanitise_z(self.z1, LFSR113::Z1_MIN);
    }

    fn sanitise_z2(&mut self)
        ensures
            *final(self) == (LFSR113 { z2: lfsr_sanitised(old(self).z2, 8), ..*old(self) }),
    {
        self.z2 = lfsr_sanitise_z(self.z2, LFSR113::Z2_MIN);
    }

    fn sanitise_z3(&mut self)
        ensures
            *final(self) == (LFSR113 { z3: lfsr_sanitised(old(self).z3, 16), ..*old(self) }),
    {
        self.z3 = lfsr_sanitise_z(self.z3, LFSR113::Z3_MIN);
    }

    fn sanitise_z4(&mut self)
        ensures
            *final(self) == (LFSR113 { z4: lfsr_sanitised(old(self).z4, 128), ..*old(self) }),
    {
        self.z4 = lfsr_sanitise_z(self.z4, LFSR113::Z4_MIN);
    }

    fn next_z1(&mut self)
        ensures
            *final(self) == (LFSR113 { z1: lfsr_next(old(self).z1, 6, 13, 18, 2), ..*old(self) }),
    {
        self.z1 = lfsr_next_z(self.z1, 6, 13, 18, LFSR113::Z1_MIN);
    }

    fn next_z2(&mut self)
        ensures
            *final(self) == (LFSR113 { z2: lfsr_next(old(self).z2, 2, 27, 2, 8), ..*old(self) }),
    {
        self.z2 = lfsr_next_z(self.z2, 2, 27, 2, LFSR113::Z2_MIN);
    }

    fn next_z3(&mut self)
        ensures
            *final(self) == (LFSR113 { z3: lfsr_next(old(self).z3, 13, 21, 7, 16), ..*old(self) }),
    {
        self.z3 = lfsr_next_z(self.z3, 13, 21, 7, LFSR113::Z3_MIN);
    }

    fn next_z4(&mut self)
        ensures
            *final(self) == (LFSR113 { z4: lfsr_next(old(self).z4, 3, 12, 13, 128), ..*old(self) }),
    {
        self.z4 = lfsr_next_z(self.z4, 3, 12, 13, LFSR113::Z4_MIN);
    }

    /// The output word for the current state.
    pub fn current(&self) -> (r: u32)
        ensures
            r == lfsr113_current(*self),
    {
        self.z1 ^ self.z2 ^ self.z3 ^ self.z4
    }

    /// Replace degenerate components, advance each one step, and combine.
    pub fn next_u32(&mut self) -> (r: u32)
        ensures
            *final(self) == lfsr113_next_state(*old(self)),
            r == lfsr113_current(*final(self)),
    {
        self.sanitise_z1();
        self.next_z1();
        self.sanitise_z2();
        self.next_z2();
        self.sanitise_z3();
        self.next_z3();
        self.sanitise_z4();
        self.next_z4();

        self.current()
    }

    /// Two steps, low word drawn first.
    pub fn next_u64(&mut self) -> (r: u64)
        ensures
            *final(self) == lfsr113_next_state(lfsr113_next_state(*old(self))),
            r == lfsr113_current(lfsr113_next_state(*old(self))) + lfsr113_current(*final(self))
                * 0x1_0000_0000,
    {
        let x = self.next_u32();
        let y = self.next_u32();
        proof {
            maths::lemma_u32_pair_u64(x, y);
        }
        (x as u64) | ((y as u64) << 32u64)
    }

    /// Advance each component by `n` steps (`n` reduced modulo that
    /// component's cycle length): each new component state is exactly
    /// that many single steps ahead of its sanitised state, computed in
    /// `O(log n)` by powers of the step matrix over GF(2).
    pub fn jumpahead(&mut self, n: i64)
        ensures
            final(self).z1 == lfsr_iter(
                lfsr_sanitised(old(self).z1, 2),
                6,
                13,
                18,
                2,
                ((n as int) % 0x7FFFFFFFint) as nat,
            ),
            final(self).z2 == lfsr_iter(
                lfsr_sanitised(old(self).z2, 8),
                2,
                27,
                2,
                8,
                ((n as int) % 0x1FFFFFFFint) as nat,
            ),
            final(self).z3 == lfsr_iter(
                lfsr_sanitised(old(self).z3, 16),
                13,
                21,
                7,
                16,
                ((n as int) % 0x0FFFFFFFint) as nat,
            ),
            final(self).z4 == lfsr_iter(
                lfsr_sanitised(old(self).z4, 128),
                3,
                12,
                13,
                128,
                ((n as int) % 0x01FFFFFFint) as nat,
            ),
    {
        let n_z1: u64 = maths::modulo(n, LFSR113::Z1_CYCLE_LEN as u64);
        self.sanitise_z1();
        let z1_matrix = lfsr_step_matrix(6, 13, 18, LFSR113::Z1_MIN);
        let z1_mult = z1_matrix.pow(n_z1);
        proof {
            lemma_lfsr_jump_is_iterated(6, 13, 18, 2, self.z1, n_z1 as nat);
        }
        self.z1 = z1_mult.dot_vec(self.z1);

        let n_z2: u64 = maths::modulo(n, LFSR113::Z2_CYCLE_LEN as u64);
        self.sanitise_z2();
        let z2_matrix = lfsr_step_matrix(2, 27, 2, LFSR113::Z2_MIN);
        let z2_mult = z2_matrix.pow(n_z2);
        proof {
            lemma_lfsr_jump_is_iterated(2, 27, 2, 8, self.z2, n_z2 as nat);
        }
        self.z2 = z2_mult.dot_vec(self.z2);

        let n_z3: u64 = maths::modulo(n, LFSR113::Z3_CYCLE_LEN as u64);
        self.sanitise_z3();
        let z3_matrix = lfsr_step_matrix(13, 21, 7, LFSR113::Z3_MIN);
        let z3_mult = z3_matrix.pow(n_z3);
        proof {
            lemma_lfsr_jump_is_iterated(13, 21, 7, 16, self.z3, n_z3 as nat);
        }
        self.z3 = z3_mult.dot_vec(self.z3);

        let n_z4: u64 = maths::modulo(n, LFSR113::Z4_CYCLE_LEN as u64);
        self.sanitise_z4();
        let z4_matrix = lfsr_step_matrix(3, 12, 13, LFSR113::Z4_MIN);
        let z4_mult = z4_matrix.pow(n_z4);
        proof {
            lemma_lfsr_jump_is_iterated(3, 12, 13, 128, self.z4, n_z4 as nat);
        }
        self.z4 = z4_mult.dot_vec(self.z4);
    }
}

impl crate::RngJumpAhead for LFSR88 {
    fn jumpahead(&mut self, n: i64) {
        self.jumpahead(n);
    }
}

impl crate::RngJumpAhead for LFSR113 {
    fn jumpahead(&mut self, n: i64) {
        self.jumpahead(n);
    }
}

} // verus!
