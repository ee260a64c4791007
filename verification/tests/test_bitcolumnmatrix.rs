use simplerandom::bitcolumnmatrix::BitColumnMatrix;

type BitColumnMatrix32 = BitColumnMatrix;

#[test]
fn test_zero() {
    let zero = BitColumnMatrix32::zero();
    let mut x = 0x8000000_u32;
    while x != 0 {
        let mul_result = zero.dot_vec(x);
        assert_eq!(mul_result, 0);
        x = x >> 1;
    }
}

#[test]
fn test_one() {
    let one = BitColumnMatrix32::one();
    let mut x = 0x8000000_u32;
    while x != 0 {
        let mul_result = one.dot_vec(x);
        assert_eq!(mul_result, x);
        x = x >> 1;
    }
}

#[test]
fn test_shl() {
    // Left-shifting the unity matrix by n is equivalent to shift(n).
    let shl_1 = BitColumnMatrix32::one().shl(13);
    let shift_1 = BitColumnMatrix32::shift(13);
    assert_eq!(shl_1, shift_1);

    // Left-shifting a more complex matrix equals multiplying by shift(n).
    const SHR3_MATRIX_ARRAY: [u32; 32] = [
        0x00042021, 0x00084042, 0x00108084, 0x00210108, 0x00420231, 0x00840462, 0x010808C4,
        0x02101188, 0x04202310, 0x08404620, 0x10808C40, 0x21011880, 0x42023100, 0x84046200,
        0x0808C400, 0x10118800, 0x20231000, 0x40462021, 0x808C4042, 0x01080084, 0x02100108,
        0x04200210, 0x08400420, 0x10800840, 0x21001080, 0x42002100, 0x84004200, 0x08008400,
        0x10010800, 0x20021000, 0x40042000, 0x80084000,
    ];
    let shr3_matrix = BitColumnMatrix32::new(&SHR3_MATRIX_ARRAY);
    let shl_1 = shr3_matrix.clone().shl(13);
    let shift_1 = BitColumnMatrix32::shift(13).dot(&shr3_matrix);
    assert_eq!(shl_1, shift_1);
}

#[test]
fn test_shr() {
    // Right-shifting the unity matrix by n is equivalent to shift(-n).
    let shl_1 = BitColumnMatrix32::one().shr(13);
    let shift_1 = BitColumnMatrix32::shift(-13);
    assert_eq!(shl_1, shift_1);

    // Right-shifting a more complex matrix equals multiplying by shift(-n).
    const SHR3_MATRIX_ARRAY: [u32; 32] = [
        0x00042021, 0x00084042, 0x00108084, 0x00210108, 0x00420231, 0x00840462, 0x010808C4,
        0x02101188, 0x04202310, 0x08404620, 0x10808C40, 0x21011880, 0x42023100, 0x84046200,
        0x0808C400, 0x10118800, 0x20231000, 0x40462021, 0x808C4042, 0x01080084, 0x02100108,
        0x04200210, 0x08400420, 0x10800840, 0x21001080, 0x42002100, 0x84004200, 0x08008400,
        0x10010800, 0x20021000, 0x40042000, 0x80084000,
    ];
    let shr3_matrix = BitColumnMatrix32::new(&SHR3_MATRIX_ARRAY);
    let shl_1 = shr3_matrix.clone().shr(13);
    let shift_1 = BitColumnMatrix32::shift(-13).dot(&shr3_matrix);
    assert_eq!(shl_1, shift_1);
}

#[test]
fn test_shift() {
    let mask = 0xFFFFFFFF_u32;
    for shift_by in -31i8..31i8 {
        let shift = BitColumnMatrix32::shift(shift_by);
        let mut x = 0x8000000_u32;
        while x != 0 {
            let mul_result = shift.dot_vec(x);
            if shift_by >= 0 {
                assert_eq!(mul_result, (x << shift_by as u32) & mask);
            } else {
                let shift_right_by = -shift_by;
                assert_eq!(mul_result, x >> shift_right_by as u32);
            }
            x = x >> 1;
        }
    }
}

#[test]
fn test_bitand() {
    let mask = 0xA5F01248_u32;
    let mask_matrix = BitColumnMatrix32::one().bitand(mask);

    let mul_result = mask_matrix.dot_vec(0xFFFFFFFF_u32);
    assert_eq!(mul_result, mask);

    let mut x = 0x8000000_u32;
    while x != 0 {
        let mul_result = mask_matrix.dot_vec(x);
        assert_eq!(mul_result, x & mask);
        x = x >> 1;
    }
}

#[test]
fn test_shr3_matrix() {
    const SHR3_MATRIX_ARRAY: [u32; 32] = [
        0x00042021, 0x00084042, 0x00108084, 0x00210108, 0x00420231, 0x00840462, 0x010808C4,
        0x02101188, 0x04202310, 0x08404620, 0x10808C40, 0x21011880, 0x42023100, 0x84046200,
        0x0808C400, 0x10118800, 0x20231000, 0x40462021, 0x808C4042, 0x01080084, 0x02100108,
        0x04200210, 0x08400420, 0x10800840, 0x21001080, 0x42002100, 0x84004200, 0x08008400,
        0x10010800, 0x20021000, 0x40042000, 0x80084000,
    ];
    let shr3_matrix = BitColumnMatrix32::new(&SHR3_MATRIX_ARRAY);

    let shr3_matrix_a = BitColumnMatrix32::one().add(&BitColumnMatrix32::one().shl(13));
    let shr3_matrix_b = BitColumnMatrix32::one().add(&BitColumnMatrix32::one().shr(17));
    let shr3_matrix_c = BitColumnMatrix32::one().add(&BitColumnMatrix32::one().shl(5));
    let built_shr3_matrix = shr3_matrix_c.dot(&shr3_matrix_b).dot(&shr3_matrix_a);

    assert_eq!(shr3_matrix, built_shr3_matrix);
}

#[test]
fn test_pow_using_shr3() {
    const SHR3_MATRIX_ARRAY: [u32; 32] = [
        0x00042021, 0x00084042, 0x00108084, 0x00210108, 0x00420231, 0x00840462, 0x010808C4,
        0x02101188, 0x04202310, 0x08404620, 0x10808C40, 0x21011880, 0x42023100, 0x84046200,
        0x0808C400, 0x10118800, 0x20231000, 0x40462021, 0x808C4042, 0x01080084, 0x02100108,
        0x04200210, 0x08400420, 0x10800840, 0x21001080, 0x42002100, 0x84004200, 0x08008400,
        0x10010800, 0x20021000, 0x40042000, 0x80084000,
    ];
    let shr3_matrix = BitColumnMatrix32::new(&SHR3_MATRIX_ARRAY);

    const SHR3_MATRIX_POW_BILLION_ARRAY: [u32; 32] = [
        0x363ED7AC, 0xF891F4FD, 0xD1F74339, 0xA7DAB3E4, 0x77AE86B9, 0x0489CBC8, 0xC5DF9FF8,
        0x878F08E3, 0x4F8A70E5, 0x5DBE9A6A, 0xFECF0847, 0x77EB376E, 0xE2C97CF1, 0x878C7D68,
        0xB949B585, 0x4E643902, 0xAA197C6D, 0xE42F09A2, 0xC09479E5, 0x83CF163A, 0x1383F309,
        0x872692BB, 0xB4CF5CB0, 0x8476A25F, 0x95B3EC9E, 0x2A6D6AF0, 0x567C560B, 0xFAFE8FA3,
        0x61D228A8, 0x1CDED1C2, 0x833D6334, 0xF99D2B11,
    ];
    let shr3_pow_billion_matrix = BitColumnMatrix32::new(&SHR3_MATRIX_POW_BILLION_ARRAY);

    let result = shr3_matrix.pow(1_000_000_000_u64);

    assert_eq!(result, shr3_pow_billion_matrix);
}

#[test]
fn test_lfsr113_1_matrix() {
    const LFSR88_Z1_MATRIX_ARRAY: [u32; 32] = [
        0x00000000, 0x00002000, 0x00004000, 0x00008000, 0x00010000, 0x00020000, 0x00040001,
        0x00080002, 0x00100004, 0x00200008, 0x00400010, 0x00800020, 0x01000040, 0x02000080,
        0x04000100, 0x08000200, 0x10000400, 0x20000800, 0x40001000, 0x80000001, 0x00000002,
        0x00000004, 0x00000008, 0x00000010, 0x00000020, 0x00000040, 0x00000080, 0x00000100,
        0x00000200, 0x00000400, 0x00000800, 0x00001000,
    ];
    let lfsr88_z1_matrix = BitColumnMatrix32::new(&LFSR88_Z1_MATRIX_ARRAY);

    let lfsr88_z1_matrix_a = BitColumnMatrix32::one().add(&BitColumnMatrix32::one().shl(13));
    let lfsr88_z1_matrix_b = BitColumnMatrix32::one().shr(19);
    let lfsr88_z1_matrix_c = BitColumnMatrix32::one().bitand(0xFFFFFFFE);
    let lfsr88_z1_matrix_d = BitColumnMatrix32::one().shl(12);
    let built_lfsr88_z1_matrix = lfsr88_z1_matrix_d
        .dot(&lfsr88_z1_matrix_c)
        .add(&lfsr88_z1_matrix_b.dot(&lfsr88_z1_matrix_a));

    assert_eq!(lfsr88_z1_matrix, built_lfsr88_z1_matrix);
}

#[test]
fn test_compose_is_apply_after_apply() {
    // Applying a product of matrices equals applying the factors in turn.
    const SHR3_MATRIX_ARRAY: [u32; 32] = [
        0x00042021, 0x00084042, 0x00108084, 0x00210108, 0x00420231, 0x00840462, 0x010808C4,
        0x02101188, 0x04202310, 0x08404620, 0x10808C40, 0x21011880, 0x42023100, 0x84046200,
        0x0808C400, 0x10118800, 0x20231000, 0x40462021, 0x808C4042, 0x01080084, 0x02100108,
        0x04200210, 0x08400420, 0x10800840, 0x21001080, 0x42002100, 0x84004200, 0x08008400,
        0x10010800, 0x20021000, 0x40042000, 0x80084000,
    ];
    let a = BitColumnMatrix32::new(&SHR3_MATRIX_ARRAY);
    let b = BitColumnMatrix32::shift(7).add(&BitColumnMatrix32::one());
    for v in [0u32, 1, 0x12345678, 0xDEADBEEF, 0xFFFFFFFF] {
        assert_eq!(a.dot(&b).dot_vec(v), a.dot_vec(b.dot_vec(v)));
    }
}

#[test]
fn test_apply_is_linear() {
    // A·(v ^ w) == A·v ^ A·w.
    let a = BitColumnMatrix32::shift(5).add(&BitColumnMatrix32::shift(-11));
    let pairs = [
        (0u32, 0u32),
        (1, 0x80000000),
        (0x12345678, 0x9ABCDEF0),
        (0xFFFFFFFF, 0x55555555),
    ];
    for (v, w) in pairs {
        assert_eq!(a.dot_vec(v ^ w), a.dot_vec(v) ^ a.dot_vec(w));
    }
}

#[test]
fn test_pow_laws() {
    const SHR3_MATRIX_ARRAY: [u32; 32] = [
        0x00042021, 0x00084042, 0x00108084, 0x00210108, 0x00420231, 0x00840462, 0x010808C4,
        0x02101188, 0x04202310, 0x08404620, 0x10808C40, 0x21011880, 0x42023100, 0x84046200,
        0x0808C400, 0x10118800, 0x20231000, 0x40462021, 0x808C4042, 0x01080084, 0x02100108,
        0x04200210, 0x08400420, 0x10800840, 0x21001080, 0x42002100, 0x84004200, 0x08008400,
        0x10010800, 0x20021000, 0x40042000, 0x80084000,
    ];
    let a = BitColumnMatrix32::new(&SHR3_MATRIX_ARRAY);
    // A^0 == I, A^1 == A, I^n == I.
    assert_eq!(a.pow(0), BitColumnMatrix32::one());
    assert_eq!(a.pow(1), a);
    assert_eq!(BitColumnMatrix32::one().pow(1_000_000_007), BitColumnMatrix32::one());
    // A^(m+n) == A^m · A^n.
    assert_eq!(a.pow(1000 + 23), a.pow(1000).dot(&a.pow(23)));
}

#[test]
fn test_shift_out_of_range_and_zero() {
    // Out-of-range shift amounts give the zero matrix.
    assert_eq!(BitColumnMatrix32::shift(32), BitColumnMatrix32::zero());
    assert_eq!(BitColumnMatrix32::shift(-32), BitColumnMatrix32::zero());
    assert_eq!(BitColumnMatrix32::shift(127), BitColumnMatrix32::zero());
    assert_eq!(BitColumnMatrix32::shift(-128), BitColumnMatrix32::zero());
    // shift(0) is the identity.
    assert_eq!(BitColumnMatrix32::shift(0), BitColumnMatrix32::one());
    // is_zero recognises exactly the zero matrix.
    assert!(BitColumnMatrix32::zero().is_zero());
    assert!(!BitColumnMatrix32::one().is_zero());
}

#[test]
fn test_dot_equ_matches_dot() {
    let a = BitColumnMatrix32::shift(3).add(&BitColumnMatrix32::one());
    let b = BitColumnMatrix32::shift(-9).add(&BitColumnMatrix32::shift(14));
    let mut c = a.clone();
    c.dot_equ(&b);
    assert_eq!(c, a.dot(&b));
}

fn lfsr_step_matrix(a: i8, b: i8, c: i8, min_value: u32) -> BitColumnMatrix32 {
    // shift(c) · (I & mask) + shift(-b) · (I + shift(a))
    let mask = 0xFFFFFFFF_u32 - (min_value - 1);
    let masked_shift = BitColumnMatrix32::shift(c).dot(&BitColumnMatrix32::one().bitand(mask));
    let feedback = BitColumnMatrix32::shift(-b)
        .dot(&BitColumnMatrix32::one().add(&BitColumnMatrix32::shift(a)));
    masked_shift.add(&feedback)
}

#[test]
fn test_lfsr_step_matrices_match_constants() {
    // Each jump-ahead matrix constant equals the algebraic product for
    // that component's shift parameters.
    const LFSR88_Z2: [u32; 32] = [
        0x00000000, 0x00000000, 0x00000000, 0x00000080, 0x00000100, 0x00000200, 0x00000400,
        0x00000800, 0x00001000, 0x00002000, 0x00004000, 0x00008000, 0x00010000, 0x00020000,
        0x00040000, 0x00080000, 0x00100000, 0x00200000, 0x00400000, 0x00800000, 0x01000000,
        0x02000000, 0x04000000, 0x08000001, 0x10000002, 0x20000005, 0x4000000A, 0x80000014,
        0x00000028, 0x00000050, 0x00000020, 0x00000040,
    ];
    const LFSR88_Z3: [u32; 32] = [
        0x00000000, 0x00000000, 0x00000000, 0x00000000, 0x00200000, 0x00400000, 0x00800000,
        0x01000000, 0x02000001, 0x04000002, 0x08000004, 0x10000009, 0x20000012, 0x40000024,
        0x80000048, 0x00000090, 0x00000120, 0x00000240, 0x00000480, 0x00000900, 0x00001200,
        0x00002400, 0x00004800, 0x00009000, 0x00012000, 0x00024000, 0x00048000, 0x00090000,
        0x00120000, 0x00040000, 0x00080000, 0x00100000,
    ];
    const LFSR113_Z1: [u32; 32] = [
        0x00000000, 0x00080000, 0x00100000, 0x00200000, 0x00400000, 0x00800000, 0x01000000,
        0x02000001, 0x04000002, 0x08000004, 0x10000008, 0x20000010, 0x40000020, 0x80000041,
        0x00000082, 0x00000104, 0x00000208, 0x00000410, 0x00000820, 0x00001040, 0x00002080,
        0x00004100, 0x00008200, 0x00010400, 0x00020800, 0x00041000, 0x00002000, 0x00004000,
        0x00008000, 0x00010000, 0x00020000, 0x00040000,
    ];
    const LFSR113_Z2: [u32; 32] = [
        0x00000000, 0x00000000, 0x00000000, 0x00000020, 0x00000040, 0x00000080, 0x00000100,
        0x00000200, 0x00000400, 0x00000800, 0x00001000, 0x00002000, 0x00004000, 0x00008000,
        0x00010000, 0x00020000, 0x00040000, 0x00080000, 0x00100000, 0x00200000, 0x00400000,
        0x00800000, 0x01000000, 0x02000000, 0x04000000, 0x08000001, 0x10000002, 0x20000005,
        0x4000000A, 0x80000014, 0x00000008, 0x00000010,
    ];
    const LFSR113_Z3: [u32; 32] = [
        0x00000000, 0x00000000, 0x00000000, 0x00000000, 0x00000800, 0x00001000, 0x00002000,
        0x00004000, 0x00008001, 0x00010002, 0x00020004, 0x00040008, 0x00080010, 0x00100020,
        0x00200040, 0x00400080, 0x00800100, 0x01000200, 0x02000400, 0x04000000, 0x08000000,
        0x10000001, 0x20000002, 0x40000004, 0x80000008, 0x00000010, 0x00000020, 0x00000040,
        0x00000080, 0x00000100, 0x00000200, 0x00000400,
    ];
    const LFSR113_Z4: [u32; 32] = [
        0x00000000, 0x00000000, 0x00000000, 0x00000000, 0x00000000, 0x00000000, 0x00000000,
        0x00100000, 0x00200000, 0x00400001, 0x00800002, 0x01000004, 0x02000009, 0x04000012,
        0x08000024, 0x10000048, 0x20000090, 0x40000120, 0x80000240, 0x00000480, 0x00000900,
        0x00001200, 0x00002400, 0x00004800, 0x00009000, 0x00012000, 0x00024000, 0x00048000,
        0x00090000, 0x00020000, 0x00040000, 0x00080000,
    ];
    assert_eq!(lfsr_step_matrix(2, 25, 4, 8), BitColumnMatrix32::new(&LFSR88_Z2));
    assert_eq!(lfsr_step_matrix(3, 11, 17, 16), BitColumnMatrix32::new(&LFSR88_Z3));
    assert_eq!(lfsr_step_matrix(6, 13, 18, 2), BitColumnMatrix32::new(&LFSR113_Z1));
    assert_eq!(lfsr_step_matrix(2, 27, 2, 8), BitColumnMatrix32::new(&LFSR113_Z2));
    assert_eq!(lfsr_step_matrix(13, 21, 7, 16), BitColumnMatrix32::new(&LFSR113_Z3));
    assert_eq!(lfsr_step_matrix(3, 12, 13, 128), BitColumnMatrix32::new(&LFSR113_Z4));
}
