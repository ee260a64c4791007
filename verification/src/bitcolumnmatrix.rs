//! Square bit matrices over GF(2), as linear operators on 32-bit words.
//!
//! A matrix is stored as 32 columns, each an unsigned 32-bit word;
//! column `i` is the image of the `i`-th standard basis vector.  Applying
//! the matrix to a word XOR-accumulates the columns selected by the set
//! bits of the word, so composition is matrix multiplication over GF(2)
//! and exponentiation by repeated squaring advances any GF(2)-linear
//! recurrence by `n` steps in `O(log n)` compositions.

use vstd::prelude::*;

verus! {

/// Bit `i` of `v`.
pub open spec fn bit_set(v: u32, i: u32) -> bool {
    v & (1u32 << i) != 0
}

/// The low `n` bits of a word, as a mask.
pub open spec fn low_mask(n: u32) -> u32 {
    ((1u64 << n) - 1) as u32
}

/// XOR of the columns of `cols` selected by the low `n` set bits of `v`.
pub open spec fn apply_take(cols: Seq<u32>, v: u32, n: int) -> u32
    decreases n,
{
    if n <= 0 {
        0u32
    } else if bit_set(v, (n - 1) as u32) {
        apply_take(cols, v, n - 1) ^ cols[n - 1]
    } else {
        apply_take(cols, v, n - 1)
    }
}

/// The matrix-vector product: XOR of the columns selected by the set
/// bits of `v`.
pub open spec fn mat_apply(cols: Seq<u32>, v: u32) -> u32 {
    apply_take(cols, v, 32)
}

/// Matrix product over GF(2): column `i` of `a·b` is `a` applied to
/// column `i` of `b`, so application composes.
pub open spec fn mat_mul(a: Seq<u32>, b: Seq<u32>) -> Seq<u32> {
    Seq::new(32, |i: int| mat_apply(a, b[i]))
}

/// Matrix sum over GF(2): column-wise XOR.
pub open spec fn mat_add(a: Seq<u32>, b: Seq<u32>) -> Seq<u32> {
    Seq::new(32, |i: int| a[i] ^ b[i])
}

/// The matrix with all columns zero.
pub open spec fn zero_mat() -> Seq<u32> {
    Seq::new(32, |i: int| 0u32)
}

/// The identity: ones on the diagonal, zeros elsewhere.
pub open spec fn identity_mat() -> Seq<u32> {
    Seq::new(32, |i: int| 1u32 << (i as u32))
}

/// Column `i` of the shift-by-`k` operator: the basis bit moved by `k`,
/// or zero once it falls off either end.
pub open spec fn shift_col(k: int, i: int) -> u32 {
    if 0 <= i + k < 32 {
        1u32 << ((i + k) as u32)
    } else {
        0u32
    }
}

/// The operator of `x ↦ x << k` for `k ≥ 0`, of `x ↦ x >> (-k)` for
/// `k < 0`; out-of-range shifts give the zero matrix.
pub open spec fn shift_mat(k: int) -> Seq<u32> {
    Seq::new(32, |i: int| shift_col(k, i))
}

/// Column-wise AND with a mask: the operator that masks its output.
pub open spec fn mat_and(a: Seq<u32>, mask: u32) -> Seq<u32> {
    Seq::new(32, |i: int| a[i] & mask)
}

/// Every column shifted left by `n`.
pub open spec fn mat_shl(a: Seq<u32>, n: u32) -> Seq<u32> {
    Seq::new(32, |i: int| a[i] << n)
}

/// Every column shifted right by `n`.
pub open spec fn mat_shr(a: Seq<u32>, n: u32) -> Seq<u32> {
    Seq::new(32, |i: int| a[i] >> n)
}

/// Matrix power: `n`-fold composition, `identity` at `n == 0`.
pub open spec fn mat_pow(m: Seq<u32>, n: nat) -> Seq<u32>
    decreases n,
{
    if n == 0 {
        identity_mat()
    } else {
        mat_mul(m, mat_pow(m, (n - 1) as nat))
    }
}

/// XOR has 0 as unit and every word as its own inverse.
proof fn lemma_xor_unit(a: u32)
    ensures
        a ^ 0 == a,
        0u32 ^ a == a,
        a ^ a == 0,
{
    assert(a ^ 0 == a && 0u32 ^ a == a && a ^ a == 0) by (bit_vector);
}

/// XOR terms can be regrouped pairwise.
proof fn lemma_xor_shuffle(a: u32, b: u32, c: u32, d: u32)
    ensures
        (a ^ b) ^ (c ^ d) == (a ^ c) ^ (b ^ d),
{
    assert((a ^ b) ^ (c ^ d) == (a ^ c) ^ (b ^ d)) by (bit_vector);
}

/// XOR commutes, and AND distributes over it.
proof fn lemma_xor_comm_and(a: u32, b: u32, mask: u32)
    ensures
        a ^ b == b ^ a,
        (a ^ b) & mask == (a & mask) ^ (b & mask),
        0u32 & mask == 0,
{
    assert((a ^ b == b ^ a) && ((a ^ b) & mask == (a & mask) ^ (b & mask)) && (0u32 & mask == 0))
        by (bit_vector);
}

/// Single-bit reading of XOR, zero, basis words, and the running shift
/// used by `dot_vec`.
proof fn lemma_bit_facts(v: u32, w: u32, i: u32, j: u32)
    requires
        i < 32,
        j < 32,
    ensures
        bit_set(v ^ w, i) == (bit_set(v, i) != bit_set(w, i)),
        !bit_set(0u32, i),
        bit_set(1u32 << j, i) == (i == j),
        ((v >> i) & 1 != 0) == bit_set(v, i),
        i < 31 ==> (v >> i) >> 1u32 == v >> (i + 1),
        v >> 0u32 == v,
        1u32 << 0u32 == 1u32,
{
    assert(((v ^ w) & (1u32 << i) != 0) == ((v & (1u32 << i) != 0) != (w & (1u32 << i) != 0))
        && (0u32 & (1u32 << i) == 0) && (((1u32 << j) & (1u32 << i) != 0) == (i == j)) && (((v
        >> i) & 1 != 0) == (v & (1u32 << i) != 0)) && (i < 31 ==> (v >> i) >> 1u32 == v >> (i
        + 1)) && (v >> 0u32 == v) && (1u32 << 0u32 == 1u32)) by (bit_vector)
        requires
            i < 32,
            j < 32,
    ;
}

/// Growing the low-bit mask one bit at a time.
proof fn lemma_mask_facts(v: u32, i: u32)
    requires
        i < 32,
    ensures
        v & low_mask(32) == v,
        v & low_mask(0) == 0,
        bit_set(v, i) ==> (v & low_mask(i)) ^ (1u32 << i) == v & low_mask((i + 1) as u32),
        !bit_set(v, i) ==> v & low_mask(i) == v & low_mask((i + 1) as u32),
{
    assert((v & (((1u64 << 32u32) - 1) as u32) == v) && (v & (((1u64 << 0u32) - 1) as u32) == 0) && (
    (v & (1u32 << i) != 0) ==> ((v & (((1u64 << i) - 1) as u32)) ^ (1u32 << i)) == (v & (((1u64 << (
    i + 1)) - 1) as u32))) && ((v & (1u32 << i) == 0) ==> (v & (((1u64 << i) - 1) as u32)) == (v & ((
    (1u64 << (i + 1)) - 1) as u32)))) by (bit_vector)
        requires
            i < 32,
    ;
}

/// Shifts distribute over XOR and absorb zero.
proof fn lemma_shift_distributes(x: u32, y: u32, k: u32)
    requires
        k < 32,
    ensures
        (x ^ y) << k == (x << k) ^ (y << k),
        (x ^ y) >> k == (x >> k) ^ (y >> k),
        0u32 << k == 0,
        0u32 >> k == 0,
{
    assert(((x ^ y) << k == (x << k) ^ (y << k)) && ((x ^ y) >> k == (x >> k) ^ (y >> k)) && (0u32
        << k == 0) && (0u32 >> k == 0)) by (bit_vector)
        requires
            k < 32,
    ;
}

/// Shifting a basis word moves (or drops) its single bit.
proof fn lemma_basis_shift(i: u32, k: u32)
    requires
        i < 32,
        k < 32,
    ensures
        i + k < 32 ==> (1u32 << i) << k == 1u32 << ((i + k) as u32),
        i + k >= 32 ==> (1u32 << i) << k == 0,
        i >= k ==> (1u32 << i) >> k == 1u32 << ((i - k) as u32),
        i < k ==> (1u32 << i) >> k == 0,
{
    assert((i + k < 32 ==> (1u32 << i) << k == 1u32 << ((i + k) as u32)) && (i + k >= 32 ==> (1u32
        << i) << k == 0) && (i >= k ==> (1u32 << i) >> k == 1u32 << ((i - k) as u32)) && (i < k ==> (
    1u32 << i) >> k == 0)) by (bit_vector)
        requires
            i < 32,
            k < 32,
    ;
}

/// Applying any matrix to the zero word gives zero.
proof fn lemma_apply_take_zero_vec(cols: Seq<u32>, n: int)
    requires
        n <= 32,
    ensures
        apply_take(cols, 0u32, n) == 0,
    decreases n,
{
    if n > 0 {
        lemma_apply_take_zero_vec(cols, n - 1);
        lemma_bit_facts(0, 0, (n - 1) as u32, 0);
    }
}

/// Applying the zero matrix gives zero.
proof fn lemma_apply_take_zero_mat(v: u32, n: int)
    requires
        n <= 32,
    ensures
        apply_take(zero_mat(), v, n) == 0,
    decreases n,
{
    if n > 0 {
        lemma_apply_take_zero_mat(v, n - 1);
        lemma_xor_unit(0);
    }
}

proof fn lemma_apply_take_linear(cols: Seq<u32>, v: u32, w: u32, n: int)
    requires
        n <= 32,
    ensures
        apply_take(cols, v ^ w, n) == apply_take(cols, v, n) ^ apply_take(cols, w, n),
    decreases n,
{
    if n <= 0 {
        lemma_xor_unit(0);
    } else {
        lemma_apply_take_linear(cols, v, w, n - 1);
        let i = (n - 1) as u32;
        lemma_bit_facts(v, w, i, 0);
        let av = apply_take(cols, v, n - 1);
        let aw = apply_take(cols, w, n - 1);
        let c = cols[n - 1];
        if bit_set(v, i) && bit_set(w, i) {
            // (av ^ c) ^ (aw ^ c) == (av ^ aw) ^ (c ^ c) == av ^ aw
            lemma_xor_shuffle(av, c, aw, c);
            lemma_xor_unit(c);
            lemma_xor_unit(av ^ aw);
        } else if bit_set(v, i) {
            // (av ^ c) ^ (aw ^ 0) == (av ^ aw) ^ (c ^ 0)
            lemma_xor_unit(aw);
            lemma_xor_unit(c);
            lemma_xor_shuffle(av, c, aw, 0);
        } else if bit_set(w, i) {
            // (av ^ 0) ^ (aw ^ c) == (av ^ aw) ^ (0 ^ c)
            lemma_xor_unit(av);
            lemma_xor_unit(c);
            lemma_xor_shuffle(av, 0, aw, c);
        }
    }
}

/// Application is linear over GF(2): `A·(v ⊕ w) == A·v ⊕ A·w`.
pub proof fn lemma_apply_linear(m: Seq<u32>, v: u32, w: u32)
    ensures
        mat_apply(m, v ^ w) == mat_apply(m, v) ^ mat_apply(m, w),
{
    lemma_apply_take_linear(m, v, w, 32);
}

/// Applying a matrix to a basis word selects the matching column.
proof fn lemma_apply_take_basis(cols: Seq<u32>, i: u32, n: int)
    requires
        i < 32,
        n <= 32,
    ensures
        apply_take(cols, 1u32 << i, n) == if i < n {
            cols[i as int]
        } else {
            0u32
        },
    decreases n,
{
    if n > 0 {
        lemma_apply_take_basis(cols, i, n - 1);
        lemma_bit_facts(1u32 << i, 0, (n - 1) as u32, i);
        if i == n - 1 {
            lemma_xor_unit(cols[n - 1]);
        }
    }
}

proof fn lemma_apply_take_identity(v: u32, n: int)
    requires
        0 <= n <= 32,
    ensures
        apply_take(identity_mat(), v, n) == v & low_mask(n as u32),
    decreases n,
{
    if n == 0 {
        lemma_mask_facts(v, 0);
    } else {
        lemma_apply_take_identity(v, n - 1);
        lemma_mask_facts(v, (n - 1) as u32);
    }
}

/// The identity matrix maps every word to itself.
pub proof fn lemma_apply_identity(v: u32)
    ensures
        mat_apply(identity_mat(), v) == v,
{
    lemma_apply_take_identity(v, 32);
    lemma_mask_facts(v, 0);
}

/// The zero matrix maps every word to zero.
pub proof fn lemma_apply_zero_mat(v: u32)
    ensures
        mat_apply(zero_mat(), v) == 0,
{
    lemma_apply_take_zero_mat(v, 32);
}

proof fn lemma_apply_take_mul(a: Seq<u32>, b: Seq<u32>, v: u32, n: int)
    requires
        n <= 32,
    ensures
        mat_apply(a, apply_take(b, v, n)) == apply_take(mat_mul(a, b), v, n),
    decreases n,
{
    if n <= 0 {
        lemma_apply_take_zero_vec(a, 32);
    } else {
        lemma_apply_take_mul(a, b, v, n - 1);
        if bit_set(v, (n - 1) as u32) {
            lemma_apply_linear(a, apply_take(b, v, n - 1), b[n - 1]);
        }
    }
}

/// Matrix product is function composition:
/// `(A·B) v == A (B v)` for every word `v`.
pub proof fn lemma_compose_apply(a: Seq<u32>, b: Seq<u32>, v: u32)
    ensures
        mat_apply(mat_mul(a, b), v) == mat_apply(a, mat_apply(b, v)),
{
    lemma_apply_take_mul(a, b, v, 32);
}

/// The identity matrix is a left unit of composition.
pub proof fn lemma_mul_identity_left(m: Seq<u32>)
    requires
        m.len() == 32,
    ensures
        mat_mul(identity_mat(), m) == m,
{
    assert forall|i: int| 0 <= i < 32 implies mat_mul(identity_mat(), m)[i] == m[i] by {
        lemma_apply_identity(m[i]);
    }
    assert(mat_mul(identity_mat(), m) =~= m);
}

/// The identity matrix is a right unit of composition.
pub proof fn lemma_mul_identity_right(m: Seq<u32>)
    requires
        m.len() == 32,
    ensures
        mat_mul(m, identity_mat()) == m,
{
    assert forall|i: int| 0 <= i < 32 implies mat_mul(m, identity_mat())[i] == m[i] by {
        lemma_apply_take_basis(m, i as u32, 32);
    }
    assert(mat_mul(m, identity_mat()) =~= m);
}

/// Composition is associative.
pub proof fn lemma_mul_assoc(a: Seq<u32>, b: Seq<u32>, c: Seq<u32>)
    ensures
        mat_mul(mat_mul(a, b), c) == mat_mul(a, mat_mul(b, c)),
{
    assert forall|i: int| 0 <= i < 32 implies mat_mul(mat_mul(a, b), c)[i] == mat_mul(
        a,
        mat_mul(b, c),
    )[i] by {
        lemma_compose_apply(a, b, c[i]);
    }
    assert(mat_mul(mat_mul(a, b), c) =~= mat_mul(a, mat_mul(b, c)));
}

/// A matrix power always has 32 columns.
pub proof fn lemma_mat_pow_len(m: Seq<u32>, n: nat)
    ensures
        mat_pow(m, n).len() == 32,
    decreases n,
{
    if n > 0 {
        lemma_mat_pow_len(m, (n - 1) as nat);
    }
}

/// The power laws: `A⁰ == I`, `A¹ == A`, and `Iⁿ == I`.
pub proof fn lemma_mat_pow_zero_one(m: Seq<u32>)
    requires
        m.len() == 32,
    ensures
        mat_pow(m, 0) == identity_mat(),
        mat_pow(m, 1) == m,
{
    lemma_mul_identity_right(m);
}

/// Every power of the identity is the identity.
pub proof fn lemma_mat_pow_identity(n: nat)
    ensures
        mat_pow(identity_mat(), n) == identity_mat(),
    decreases n,
{
    if n > 0 {
        lemma_mat_pow_identity((n - 1) as nat);
        lemma_mul_identity_left(identity_mat());
    }
}

/// Powers add under composition: `A^(e1+e2) == A^e1 · A^e2`.
pub proof fn lemma_mat_pow_adds(m: Seq<u32>, e1: nat, e2: nat)
    requires
        m.len() == 32,
    ensures
        mat_pow(m, e1 + e2) == mat_mul(mat_pow(m, e1), mat_pow(m, e2)),
    decreases e1,
{
    if e1 == 0 {
        lemma_mat_pow_len(m, e2);
        lemma_mul_identity_left(mat_pow(m, e2));
    } else {
        lemma_mat_pow_adds(m, (e1 - 1) as nat, e2);
        assert(mat_pow(m, e1 + e2) == mat_mul(m, mat_pow(m, (e1 + e2 - 1) as nat)));
        lemma_mul_assoc(m, mat_pow(m, (e1 - 1) as nat), mat_pow(m, e2));
        assert(mat_pow(m, e1) == mat_mul(m, mat_pow(m, (e1 - 1) as nat)));
    }
}

/// An even power is a power of the square.
proof fn lemma_mat_pow_even(m: Seq<u32>, k: nat)
    requires
        m.len() == 32,
    ensures
        mat_pow(m, 2 * k) == mat_pow(mat_mul(m, m), k),
    decreases k,
{
    if k > 0 {
        lemma_mat_pow_even(m, (k - 1) as nat);
        assert(mat_pow(m, 2 * k) == mat_mul(m, mat_pow(m, (2 * k - 1) as nat)));
        assert(mat_pow(m, (2 * k - 1) as nat) == mat_mul(m, mat_pow(m, (2 * k - 2) as nat)));
        lemma_mul_assoc(m, m, mat_pow(m, (2 * k - 2) as nat));
        assert(mat_pow(mat_mul(m, m), k) == mat_mul(mat_mul(m, m), mat_pow(mat_mul(m, m), (k
            - 1) as nat)));
    }
}

/// One iteration of the square-and-multiply loop for matrices preserves
/// the running product `R · T^nw`.
proof fn lemma_mat_square_step(r: Seq<u32>, t: Seq<u32>, r2: Seq<u32>, t2: Seq<u32>, nw: nat)
    requires
        r.len() == 32,
        t.len() == 32,
        nw > 0,
        r2 == if nw % 2 == 1 {
            mat_mul(r, t)
        } else {
            r
        },
        nw / 2 > 0 ==> t2 == mat_mul(t, t),
    ensures
        mat_mul(r2, mat_pow(t2, nw / 2)) == mat_mul(r, mat_pow(t, nw)),
{
    let half = nw / 2;
    let odd = nw % 2;
    vstd::arithmetic::div_mod::lemma_fundamental_div_mod(nw as int, 2);
    assert(nw == 2 * half + odd);
    if half == 0 {
        // nw == 1: T^0 == I on the left, T^1 == T on the right
        assert(mat_pow(t2, 0) == identity_mat());
        lemma_mul_identity_right(mat_mul(r, t));
        assert(mat_pow(t, 1) == mat_mul(t, mat_pow(t, 0)));
        lemma_mul_identity_right(t);
    } else {
        lemma_mat_pow_even(t, half);
        if odd == 1 {
            assert(mat_pow(t, nw) == mat_mul(t, mat_pow(t, (nw - 1) as nat)));
            assert((nw - 1) as nat == 2 * half);
            lemma_mul_assoc(r, t, mat_pow(t, (2 * half) as nat));
        }
    }
}

proof fn lemma_apply_take_shift_left(k: u32, v: u32, n: int)
    requires
        k < 32,
        0 <= n <= 32,
    ensures
        apply_take(shift_mat(k as int), v, n) == (v & low_mask(n as u32)) << k,
    decreases n,
{
    if n == 0 {
        lemma_mask_facts(v, 0);
        lemma_shift_distributes(0, 0, k);
    } else {
        lemma_apply_take_shift_left(k, v, n - 1);
        let i = (n - 1) as u32;
        lemma_mask_facts(v, i);
        lemma_bit_facts(v, v, i, 0);
        if bit_set(v, i) {
            lemma_basis_shift(i, k);
            lemma_shift_distributes(v & low_mask(i), 1u32 << i, k);
        }
    }
}

proof fn lemma_apply_take_shift_right(k: u32, v: u32, n: int)
    requires
        0 < k < 32,
        0 <= n <= 32,
    ensures
        apply_take(shift_mat(-(k as int)), v, n) == (v & low_mask(n as u32)) >> k,
    decreases n,
{
    if n == 0 {
        lemma_mask_facts(v, 0);
        lemma_shift_distributes(0, 0, k);
    } else {
        lemma_apply_take_shift_right(k, v, n - 1);
        let i = (n - 1) as u32;
        lemma_mask_facts(v, i);
        lemma_bit_facts(v, v, i, 0);
        if bit_set(v, i) {
            lemma_basis_shift(i, k);
            lemma_shift_distributes(v & low_mask(i), 1u32 << i, k);
        }
    }
}

/// The shift operator acts exactly as the machine shift: `shift(k)`
/// applied to `v` is `v << k` for `0 ≤ k < 32` and `v >> (-k)` for
/// `-32 < k < 0`; out-of-range shift operators send every word to zero.
pub proof fn lemma_shift_apply(k: i8, v: u32)
    ensures
        0 <= k < 32 ==> mat_apply(shift_mat(k as int), v) == v << (k as u32),
        -32 < k < 0 ==> mat_apply(shift_mat(k as int), v) == v >> ((-(k as int)) as u32),
        (k >= 32 || k <= -32) ==> mat_apply(shift_mat(k as int), v) == 0,
{
    if 0 <= k && k < 32 {
        lemma_apply_take_shift_left(k as u32, v, 32);
        lemma_mask_facts(v, 0);
    } else if -32 < k && k < 0 {
        lemma_apply_take_shift_right((-(k as int)) as u32, v, 32);
        lemma_mask_facts(v, 0);
    } else {
        assert(shift_mat(k as int) =~= zero_mat());
        lemma_apply_zero_mat(v);
    }
}

/// The shift by zero is the identity operator.
pub proof fn lemma_shift_zero_is_identity()
    ensures
        shift_mat(0) == identity_mat(),
{
    assert(shift_mat(0) =~= identity_mat());
}

proof fn lemma_apply_take_add(a: Seq<u32>, b: Seq<u32>, v: u32, n: int)
    requires
        n <= 32,
    ensures
        apply_take(mat_add(a, b), v, n) == apply_take(a, v, n) ^ apply_take(b, v, n),
    decreases n,
{
    if n <= 0 {
        lemma_xor_unit(0);
    } else {
        lemma_apply_take_add(a, b, v, n - 1);
        let av = apply_take(a, v, n - 1);
        let bv = apply_take(b, v, n - 1);
        if bit_set(v, (n - 1) as u32) {
            // (av ^ bv) ^ (a[n-1] ^ b[n-1]) == (av ^ a[n-1]) ^ (bv ^ b[n-1])
            lemma_xor_shuffle(av, bv, a[n - 1], b[n - 1]);
        }
    }
}

/// Matrix sum acts pointwise: `(A + B) v == A v ⊕ B v`, so
/// `identity + shift(k)` is exactly the operator of `x ↦ x ^ (x << k)`.
pub proof fn lemma_add_apply(a: Seq<u32>, b: Seq<u32>, v: u32)
    ensures
        mat_apply(mat_add(a, b), v) == mat_apply(a, v) ^ mat_apply(b, v),
{
    lemma_apply_take_add(a, b, v, 32);
}

/// Shifting every column left by `n` equals composing with `shift(n)` on
/// the left.
pub proof fn lemma_shl_is_compose(a: Seq<u32>, n: u32)
    requires
        n < 32,
    ensures
        mat_shl(a, n) == mat_mul(shift_mat(n as int), a),
{
    assert forall|i: int| 0 <= i < 32 implies mat_shl(a, n)[i] == mat_mul(
        shift_mat(n as int),
        a,
    )[i] by {
        lemma_shift_apply(n as i8, a[i]);
    }
    assert(mat_shl(a, n) =~= mat_mul(shift_mat(n as int), a));
}

/// Shifting every column right by `n` equals composing with `shift(-n)`
/// on the left.
pub proof fn lemma_shr_is_compose(a: Seq<u32>, n: u32)
    requires
        0 < n < 32,
    ensures
        mat_shr(a, n) == mat_mul(shift_mat(-(n as int)), a),
{
    assert forall|i: int| 0 <= i < 32 implies mat_shr(a, n)[i] == mat_mul(
        shift_mat(-(n as int)),
        a,
    )[i] by {
        lemma_shift_apply(-(n as int) as i8, a[i]);
    }
    assert(mat_shr(a, n) =~= mat_mul(shift_mat(-(n as int)), a));
}

proof fn lemma_apply_take_and(a: Seq<u32>, mask: u32, v: u32, n: int)
    requires
        n <= 32,
    ensures
        apply_take(mat_and(a, mask), v, n) == apply_take(a, v, n) & mask,
    decreases n,
{
    if n <= 0 {
        lemma_xor_comm_and(0, 0, mask);
    } else {
        lemma_apply_take_and(a, mask, v, n - 1);
        if bit_set(v, (n - 1) as u32) {
            lemma_xor_comm_and(apply_take(a, v, n - 1), a[n - 1], mask);
        }
    }
}

/// The masking operator acts pointwise: `(A & mask) v == (A v) & mask`.
pub proof fn lemma_bitand_apply(a: Seq<u32>, mask: u32, v: u32)
    ensures
        mat_apply(mat_and(a, mask), v) == mat_apply(a, v) & mask,
{
    lemma_apply_take_and(a, mask, v, 32);
}

/// XOR is commutative (stated over the public model so that step-rule
/// derivations can reorder terms).
pub proof fn lemma_xor_commutes(a: u32, b: u32)
    ensures
        a ^ b == b ^ a,
{
    lemma_xor_comm_and(a, b, 0);
}

/// `k`-fold application of a matrix to a word.
pub open spec fn iter_apply(m: Seq<u32>, v: u32, k: nat) -> u32
    decreases k,
{
    if k == 0 {
        v
    } else {
        mat_apply(m, iter_apply(m, v, (k - 1) as nat))
    }
}

/// Applying the `k`-th power of a matrix is `k`-fold application: a jump
/// by `k` equals `k` single steps of the linear recurrence.
pub proof fn lemma_pow_apply_is_iterated(m: Seq<u32>, v: u32, k: nat)
    ensures
        mat_apply(mat_pow(m, k), v) == iter_apply(m, v, k),
    decreases k,
{
    if k == 0 {
        lemma_apply_identity(v);
    } else {
        lemma_pow_apply_is_iterated(m, v, (k - 1) as nat);
        lemma_compose_apply(m, mat_pow(m, (k - 1) as nat), v);
    }
}

/// A square matrix of bits over GF(2), stored column-major: `columns[i]`
/// is the image of the `i`-th standard basis vector.
#[derive(Debug, Clone, Copy)]
pub struct BitColumnMatrix {
    pub columns: [u32; 32],
}

impl View for BitColumnMatrix {
    type V = Seq<u32>;

    open spec fn view(&self) -> Seq<u32> {
        self.columns@
    }
}

impl PartialEq for BitColumnMatrix {
    /// Two matrices are equal iff all columns are equal.
    fn eq(&self, other: &BitColumnMatrix) -> (r: bool) {
        let mut i: usize = 0;
        while i < 32
            invariant
                i <= 32,
                forall|j: int| 0 <= j < i ==> self.columns@[j] == other.columns@[j],
            decreases 32 - i,
        {
            if self.columns[i] != other.columns[i] {
                return false;
            }
            i = i + 1;
        }
        proof {
            assert(self.columns@ =~= other.columns@);
        }
        true
    }
}

impl Eq for BitColumnMatrix {

}

impl vstd::std_specs::cmp::PartialEqSpecImpl for BitColumnMatrix {
    open spec fn obeys_eq_spec() -> bool {
        true
    }

    open spec fn eq_spec(&self, other: &BitColumnMatrix) -> bool {
        self.columns@ == other.columns@
    }
}

impl BitColumnMatrix {
    /// Build a matrix from explicit column data; every bit pattern is valid.
    pub fn new(init_data: &[u32; 32]) -> (r: BitColumnMatrix)
        ensures
            r@ == init_data@,
    {
        BitColumnMatrix { columns: *init_data }
    }

    /// The zero matrix: every product with it is zero.
    pub fn zero() -> (r: BitColumnMatrix)
        ensures
            r@ == zero_mat(),
    {
        let r = BitColumnMatrix { columns: [0u32; 32] };
        proof {
            assert(r@ =~= zero_mat());
        }
        r
    }

    /// The unity matrix: ones on the diagonal, zeros elsewhere.
    pub fn one() -> (r: BitColumnMatrix)
        ensures
            r@ == identity_mat(),
    {
        let mut columns: [u32; 32] = [0u32; 32];
        let mut value: u32 = 1;
        proof {
            lemma_bit_facts(1, 1, 0, 0);
        }
        for i in 0..32usize
            invariant
                i < 32 ==> value == 1u32 << (i as u32),
                forall|j: int| 0 <= j < i ==> columns@[j] == identity_mat()[j],
        {
            columns[i] = value;
            proof {
                if i < 31 {
                    lemma_basis_shift(i as u32, 1);
                }
            }
            value = value << 1u32;
        }
        let r = BitColumnMatrix { columns };
        proof {
            assert(r@ =~= identity_mat());
        }
        r
    }

    /// The matrix-vector product ("dot"): XOR of the columns selected by
    /// the set bits of `b`.  This is the fundamental operation; the other
    /// operations are defined in terms of it.
    pub fn dot_vec(&self, b: u32) -> (r: u32)
        ensures
            r == mat_apply(self@, b),
    {
        let mut result: u32 = 0;
        let mut b_temp: u32 = b;
        proof {
            lemma_bit_facts(b, b, 0, 0);
        }
        for i in 0..32usize
            invariant
                result == apply_take(self@, b, i as int),
                i < 32 ==> b_temp == b >> (i as u32),
        {
            proof {
                lemma_bit_facts(b, b, i as u32, 0);
            }
            if b_temp & 1 != 0 {
                result = result ^ self.columns[i];
            }
            b_temp = b_temp >> 1u32;
        }
        result
    }

    /// Shift operator: the matrix of `x ↦ x << k` for `k ≥ 0`, of
    /// `x ↦ x >> (-k)` for `k < 0`; out-of-range shifts give the zero
    /// matrix, matching native shift semantics at the full width.
    pub fn shift(shift_value: i8) -> (r: BitColumnMatrix)
        ensures
            r@ == shift_mat(shift_value as int),
    {
        let k: i8 = shift_value;
        if k >= 32 || k <= -32 {
            let z = BitColumnMatrix::zero();
            proof {
                assert(z@ =~= shift_mat(k as int));
            }
            return z;
        }
        let mut columns: [u32; 32] = [0u32; 32];
        let mut value: u32 = if k >= 0 {
            1u32 << (k as u32)
        } else {
            0
        };
        let mut shift_temp: i8 = k;
        for i in 0..32usize
            invariant
                -32 < k < 32,
                shift_temp as int == if k >= 0 {
                    k as int
                } else if k as int + i as int <= 0 {
                    k as int + i as int
                } else {
                    0
                },
                value == shift_col(k as int, i as int),
                forall|j: int| 0 <= j < i ==> columns@[j] == shift_col(k as int, j),
        {
            columns[i] = value;
            if shift_temp < 0 {
                shift_temp = shift_temp + 1;
                if shift_temp == 0 {
                    value = 1;
                    proof {
                        lemma_bit_facts(1, 1, 0, 0);
                    }
                }
            } else {
                proof {
                    let pos = i as int + k as int;
                    if 0 <= pos && pos < 32 {
                        lemma_basis_shift(pos as u32, 1);
                    } else {
                        lemma_shift_distributes(0, 0, 1);
                    }
                }
                value = value << 1u32;
            }
        }
        let r = BitColumnMatrix { columns };
        proof {
            assert(r@ =~= shift_mat(k as int));
        }
        r
    }

    /// Matrix product ("dot"): column `i` of the result is `self`
    /// applied to column `i` of `b`, so application composes.
    pub fn dot(&self, b: &BitColumnMatrix) -> (r: BitColumnMatrix)
        ensures
            r@ == mat_mul(self@, b@),
    {
        let mut columns: [u32; 32] = [0u32; 32];
        for i in 0..32usize
            invariant
                forall|j: int| 0 <= j < i ==> columns@[j] == mat_mul(self@, b@)[j],
        {
            columns[i] = self.dot_vec(b.columns[i]);
        }
        let r = BitColumnMatrix { columns };
        proof {
            assert(r@ =~= mat_mul(self@, b@));
        }
        r
    }

    /// Compose in place: `self` becomes `self · b`.  Used inside
    /// exponentiation to avoid copying the accumulator.
    pub fn dot_equ(&mut self, b: &BitColumnMatrix)
        ensures
            final(self)@ == mat_mul(old(self)@, b@),
    {
        let a = BitColumnMatrix { columns: self.columns };
        for i in 0..32usize
            invariant
                a@ == old(self)@,
                forall|j: int| 0 <= j < i ==> self.columns@[j] == mat_mul(a@, b@)[j],
        {
            self.columns[i] = a.dot_vec(b.columns[i]);
        }
        proof {
            assert(self@ =~= mat_mul(old(self)@, b@));
        }
    }

    /// Matrix sum over GF(2): column-wise XOR.  `identity().add(shift(k))`
    /// is the operator of the xor-shift step `x ^= x << k`.
    pub fn add(&self, b: &BitColumnMatrix) -> (r: BitColumnMatrix)
        ensures
            r@ == mat_add(self@, b@),
    {
        let mut columns: [u32; 32] = [0u32; 32];
        for i in 0..32usize
            invariant
                forall|j: int| 0 <= j < i ==> columns@[j] == mat_add(self@, b@)[j],
        {
            columns[i] = self.columns[i] ^ b.columns[i];
        }
        let r = BitColumnMatrix { columns };
        proof {
            assert(r@ =~= mat_add(self@, b@));
        }
        r
    }

    /// Column-wise AND with a mask: the operator that masks its output.
    pub fn bitand(&self, rhs: u32) -> (r: BitColumnMatrix)
        ensures
            r@ == mat_and(self@, rhs),
    {
        let mut columns: [u32; 32] = [0u32; 32];
        for i in 0..32usize
            invariant
                forall|j: int| 0 <= j < i ==> columns@[j] == mat_and(self@, rhs)[j],
        {
            columns[i] = self.columns[i] & rhs;
        }
        let r = BitColumnMatrix { columns };
        proof {
            assert(r@ =~= mat_and(self@, rhs));
        }
        r
    }

    /// Shift every column left by `n`: the operator shifted as a whole,
    /// consistent with composing with `shift(n)` on the left.
    pub fn shl(&self, n: u32) -> (r: BitColumnMatrix)
        requires
            n < 32,
        ensures
            r@ == mat_shl(self@, n),
    {
        let mut columns: [u32; 32] = [0u32; 32];
        for i in 0..32usize
            invariant
                n < 32,
                forall|j: int| 0 <= j < i ==> columns@[j] == mat_shl(self@, n)[j],
        {
            columns[i] = self.columns[i] << n;
        }
        let r = BitColumnMatrix { columns };
        proof {
            assert(r@ =~= mat_shl(self@, n));
        }
        r
    }

    /// Shift every column right by `n`.
    pub fn shr(&self, n: u32) -> (r: BitColumnMatrix)
        requires
            n < 32,
        ensures
            r@ == mat_shr(self@, n),
    {
        let mut columns: [u32; 32] = [0u32; 32];
        for i in 0..32usize
            invariant
                n < 32,
                forall|j: int| 0 <= j < i ==> columns@[j] == mat_shr(self@, n)[j],
        {
            columns[i] = self.columns[i] >> n;
        }
        let r = BitColumnMatrix { columns };
        proof {
            assert(r@ =~= mat_shr(self@, n));
        }
        r
    }

    /// Whether every column is zero.
    pub fn is_zero(&self) -> (r: bool)
        ensures
            r == (self@ == zero_mat()),
    {
        let mut i: usize = 0;
        while i < 32
            invariant
                i <= 32,
                forall|j: int| 0 <= j < i ==> self.columns@[j] == 0,
            decreases 32 - i,
        {
            if self.columns[i] != 0 {
                proof {
                    assert(self@[i as int] != zero_mat()[i as int]);
                }
                return false;
            }
            i = i + 1;
        }
        proof {
            assert(self@ =~= zero_mat());
        }
        true
    }

    /// Raise the matrix to the power `n` by repeated squaring:
    /// `O(log n)` compositions, the whole point of the engine.
    pub fn pow(&self, n: u64) -> (r: BitColumnMatrix)
        ensures
            r@ == mat_pow(self@, n as nat),
    {
        let mut result = BitColumnMatrix::one();
        let mut temp_exp = BitColumnMatrix { columns: self.columns };
        let mut n_work: u64 = n;
        proof {
            lemma_mat_pow_len(self@, n as nat);
            lemma_mul_identity_left(mat_pow(self@, n as nat));
        }
        while n_work > 0
            invariant
                mat_mul(result@, mat_pow(temp_exp@, n_work as nat)) == mat_pow(self@, n as nat),
            decreases n_work,
        {
            let ghost r0 = result@;
            let ghost t0 = temp_exp@;
            let ghost nw0 = n_work as nat;
            proof {
                crate::maths::lemma_u64_low_bit_shift(n_work);
            }
            if n_work & 1 != 0 {
                result.dot_equ(&temp_exp);
            }
            n_work = n_work >> 1;
            if n_work > 0 {
                let temp_exp2 = temp_exp;
                temp_exp.dot_equ(&temp_exp2);
            }
            proof {
                lemma_mat_square_step(r0, t0, result@, temp_exp@, nw0);
            }
        }
        proof {
            lemma_mul_identity_right(result@);
        }
        result
    }
}

} // verus!
