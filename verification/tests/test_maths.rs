use simplerandom::maths::abs_as_unsigned;
use simplerandom::maths::abs_as_unsigned_i128;
use simplerandom::maths::abs_as_unsigned_i16;
use simplerandom::maths::abs_as_unsigned_i32;
use simplerandom::maths::abs_as_unsigned_i8;
use simplerandom::maths::abs_as_unsigned_u128;
use simplerandom::maths::abs_as_unsigned_u16;
use simplerandom::maths::abs_as_unsigned_u32;
use simplerandom::maths::abs_as_unsigned_u64;
use simplerandom::maths::abs_as_unsigned_u8;
use simplerandom::maths::modulo;
use simplerandom::maths::modulo_i128;
use simplerandom::maths::mul_mod;
use simplerandom::maths::mul_mod_u16;
use simplerandom::maths::mul_mod_u32;
use simplerandom::maths::mul_mod_u64;
use simplerandom::maths::mul_mod_u8;
use simplerandom::maths::pow_mod;
use simplerandom::maths::pow_mod_u32;
use simplerandom::maths::wrapping_geom_series;
use simplerandom::maths::wrapping_pow;
use simplerandom::maths::wrapping_pow_u16;
use simplerandom::maths::wrapping_pow_u64;
use simplerandom::maths::wrapping_pow_u8;

#[test]
fn test_mul_mod_generic() {
    // The generic binary-long-multiplication algorithm; the result of
    // a·b mod m does not depend on the working width.
    let result = mul_mod(129, 35, 251);
    assert_eq!(result, 248);

    let result = mul_mod(12785, 35067, 36969);
    assert_eq!(result, 8532);
    let result = mul_mod(0xFFFE, 0xFFFE, 0xFFFF);
    assert_eq!(result, 1);

    let result = mul_mod(1, 1, 0x9068FFFF);
    assert_eq!(result, 1);
    let result = mul_mod(2, 0x40000000, 0x9068FFFF);
    assert_eq!(result, 0x80000000);
    let result = mul_mod(4, 0x40000000, 0x9068FFFF);
    assert_eq!(result, 0x6F970001);
    let result = mul_mod(123456789, 3111222333, 0x9068FFFF);
    assert_eq!(result, 1473911797);
    let result = mul_mod(0xFFFFFFFE, 0xFFFFFFFE, 0xFFFFFFFF);
    assert_eq!(result, 1);

    let result = mul_mod(1, 1, 0x29A65EACFFFFFFFF);
    assert_eq!(result, 1);
    let result = mul_mod(
        12345678901234567890,
        10888777666555444333,
        0x29A65EACFFFFFFFF,
    );
    assert_eq!(result, 1426802886101663366);

    let result = mul_mod(
        155718596121766287585345689834087598824_u128,
        246971076467827994563959167304353476447,
        95808270567529502542106925837186468775,
    );
    assert_eq!(result, 57525510646347994906099177489276808553_u128);
}

#[test]
fn test_mul_mod() {
    // u8
    let result = mul_mod_u8(129_u8, 35, 251);
    assert_eq!(result, 248_u8);

    // u16
    let result = mul_mod_u16(12785_u16, 35067, 36969);
    assert_eq!(result, 8532_u16);
    let result = mul_mod_u16(0xFFFE_u16, 0xFFFE, 0xFFFF);
    assert_eq!(result, 1_u16);

    // u32
    let result = mul_mod_u32(1_u32, 1, 0x9068FFFF);
    assert_eq!(result, 1_u32);
    let result = mul_mod_u32(2_u32, 0x40000000, 0x9068FFFF);
    assert_eq!(result, 0x80000000_u32);
    let result = mul_mod_u32(4_u32, 0x40000000, 0x9068FFFF);
    assert_eq!(result, 0x6F970001_u32);
    let result = mul_mod_u32(123456789_u32, 3111222333, 0x9068FFFF);
    assert_eq!(result, 1473911797_u32);
    let result = mul_mod_u32(0xFFFFFFFE_u32, 0xFFFFFFFE, 0xFFFFFFFF);
    assert_eq!(result, 1_u32);

    // u64
    let result = mul_mod_u64(1_u64, 1, 0x29A65EACFFFFFFFF);
    assert_eq!(result, 1_u64);
    let result = mul_mod_u64(
        12345678901234567890_u64,
        10888777666555444333,
        0x29A65EACFFFFFFFF,
    );
    assert_eq!(result, 1426802886101663366_u64);

    // u128
    let result = mul_mod(
        155718596121766287585345689834087598824_u128,
        246971076467827994563959167304353476447,
        95808270567529502542106925837186468775,
    );
    assert_eq!(result, 57525510646347994906099177489276808553_u128);
}

#[test]
fn test_abs_as_unsigned() {
    // u8
    let result = abs_as_unsigned_u8(0_u8);
    assert_eq!(result, 0_u8);
    let result = abs_as_unsigned_u8(0xFF_u8);
    assert_eq!(result, 0xFF_u8);

    // i8
    let result = abs_as_unsigned_i8(0x7F_i8);
    assert_eq!(result, 0x7F_u8);
    let result = abs_as_unsigned_i8(0_i8);
    assert_eq!(result, 0_u8);
    let result = abs_as_unsigned_i8(-1_i8);
    assert_eq!(result, 1_u8);
    let result = abs_as_unsigned_i8(-0x7E_i8);
    assert_eq!(result, 0x7E_u8);
    let result = abs_as_unsigned_i8(-0x7F_i8);
    assert_eq!(result, 0x7F_u8);
    let result = abs_as_unsigned_i8(-0x80_i8);
    assert_eq!(result, 0x80_u8);

    // u16
    let result = abs_as_unsigned_u16(0_u16);
    assert_eq!(result, 0_u16);
    let result = abs_as_unsigned_u16(0xFFFF_u16);
    assert_eq!(result, 0xFFFF_u16);

    // i16
    let result = abs_as_unsigned_i16(0x7FFF_i16);
    assert_eq!(result, 0x7FFF_u16);
    let result = abs_as_unsigned_i16(0_i16);
    assert_eq!(result, 0_u16);
    let result = abs_as_unsigned_i16(-1_i16);
    assert_eq!(result, 1_u16);
    let result = abs_as_unsigned_i16(-0x7FFE_i16);
    assert_eq!(result, 0x7FFE_u16);
    let result = abs_as_unsigned_i16(-0x7FFF_i16);
    assert_eq!(result, 0x7FFF_u16);
    let result = abs_as_unsigned_i16(-0x8000_i16);
    assert_eq!(result, 0x8000_u16);

    // u32
    let result = abs_as_unsigned_u32(0_u32);
    assert_eq!(result, 0_u32);
    let result = abs_as_unsigned_u32(0xFFFFFFFF_u32);
    assert_eq!(result, 0xFFFFFFFF_u32);

    // i32
    let result = abs_as_unsigned_i32(0x7FFFFFFF_i32);
    assert_eq!(result, 0x7FFFFFFF_u32);
    let result = abs_as_unsigned_i32(0_i32);
    assert_eq!(result, 0_u32);
    let result = abs_as_unsigned_i32(-1_i32);
    assert_eq!(result, 1_u32);
    let result = abs_as_unsigned_i32(-0x7FFFFFFE_i32);
    assert_eq!(result, 0x7FFFFFFE_u32);
    let result = abs_as_unsigned_i32(-0x7FFFFFFF_i32);
    assert_eq!(result, 0x7FFFFFFF_u32);
    let result = abs_as_unsigned_i32(-0x80000000_i32);
    assert_eq!(result, 0x80000000_u32);

    // u64
    let result = abs_as_unsigned_u64(0_u64);
    assert_eq!(result, 0_u64);
    let result = abs_as_unsigned_u64(0xFFFFFFFFFFFFFFFF_u64);
    assert_eq!(result, 0xFFFFFFFFFFFFFFFF_u64);

    // i64
    let result = abs_as_unsigned(0x7FFFFFFFFFFFFFFF_i64);
    assert_eq!(result, 0x7FFFFFFFFFFFFFFF_u64);
    let result = abs_as_unsigned(0_i64);
    assert_eq!(result, 0_u64);
    let result = abs_as_unsigned(-1_i64);
    assert_eq!(result, 1_u64);
    let result = abs_as_unsigned(-0x7FFFFFFFFFFFFFFE_i64);
    assert_eq!(result, 0x7FFFFFFFFFFFFFFE_u64);
    let result = abs_as_unsigned(-0x7FFFFFFFFFFFFFFF_i64);
    assert_eq!(result, 0x7FFFFFFFFFFFFFFF_u64);
    let result = abs_as_unsigned(-0x8000000000000000_i64);
    assert_eq!(result, 0x8000000000000000_u64);

    // u128
    let result = abs_as_unsigned_u128(0_u128);
    assert_eq!(result, 0_u128);
    let result = abs_as_unsigned_u128(0xFFFFFFFFFFFFFFFFFFFFFFFFFFFFFFFF_u128);
    assert_eq!(result, 0xFFFFFFFFFFFFFFFFFFFFFFFFFFFFFFFF_u128);

    // i128
    let result = abs_as_unsigned_i128(0x7FFFFFFFFFFFFFFFFFFFFFFFFFFFFFFF_i128);
    assert_eq!(result, 0x7FFFFFFFFFFFFFFFFFFFFFFFFFFFFFFF_u128);
    let result = abs_as_unsigned_i128(0_i128);
    assert_eq!(result, 0_u128);
    let result = abs_as_unsigned_i128(-1_i128);
    assert_eq!(result, 1_u128);
    let result = abs_as_unsigned_i128(-0x7FFFFFFFFFFFFFFFFFFFFFFFFFFFFFFE_i128);
    assert_eq!(result, 0x7FFFFFFFFFFFFFFFFFFFFFFFFFFFFFFE_u128);
    let result = abs_as_unsigned_i128(-0x7FFFFFFFFFFFFFFFFFFFFFFFFFFFFFFF_i128);
    assert_eq!(result, 0x7FFFFFFFFFFFFFFFFFFFFFFFFFFFFFFF_u128);
    let result = abs_as_unsigned_i128(-0x80000000000000000000000000000000_i128);
    assert_eq!(result, 0x80000000000000000000000000000000_u128);
}

#[test]
fn test_modulo() {
    let result = modulo(217, 103);
    assert_eq!(result, 11);

    let result = modulo(3_000_000_000, 103);
    assert_eq!(result, 61);

    let result = modulo(-1_000_000_000, 207);
    assert_eq!(result, 26);

    let result = modulo(-1_000_000_000, 40239);
    assert_eq!(result, 19628);

    let result = modulo(-1_000_000_000, 3442199977);
    assert_eq!(result, 2442199977);

    let result = modulo(-1_000_000_000_000_000_000, 3442199977);
    assert_eq!(result, 423026668);

    let result = modulo(1_000_000_000_000_000_000, 3442199977);
    assert_eq!(result, 3019173309);
}

#[test]
fn test_modulo_negative_multiple() {
    // A negative multiple of the modulus reduces to 0, not to m.
    assert_eq!(modulo(-14, 7), 0);
    assert_eq!(modulo(-7, 7), 0);
    assert_eq!(modulo(0, 7), 0);
    assert_eq!(modulo(i64::MIN, 2), 0);
    // The most negative value reduces correctly too.
    assert_eq!(modulo(i64::MIN, 10), 2);
}

#[test]
fn test_modulo_i128() {
    // Jump distances wider than 64 bits reduce at the widest width.
    assert_eq!(
        modulo_i128(-1_000_000_000_000_000_000_000_000_000_000, 3442199977),
        3218307750
    );
    assert_eq!(
        modulo_i128(1_000_000_000_000_000_000_000_000_000_000, 3442199977),
        223892227
    );
    assert_eq!(modulo_i128(1 << 100, 1000000007), 976371285);
    assert_eq!(modulo_i128(i128::MIN, 9), 7);
    assert_eq!(modulo_i128(-14, 7), 0);
}

#[test]
fn test_wrapping_pow() {
    let result = wrapping_pow_u8(87_u8, 123);
    assert_eq!(result, 135_u8);

    let result = wrapping_pow_u8(0xFD_u8, 0xFF);
    assert_eq!(result, 0x55_u8);

    let result = wrapping_pow_u8(87_u8, 12345);
    assert_eq!(result, 151_u8);

    let result = wrapping_pow_u16(0xFFFD_u16, 0xFFFF);
    assert_eq!(result, 0x5555_u16);

    let result = wrapping_pow(0xFFFFFFFD_u32, 0xFFFFFFFF);
    assert_eq!(result, 0x55555555_u32);

    let result = wrapping_pow_u64(0xFFFFFFFFFFFFFFFD_u64, 0xFFFFFFFFFFFFFFFF);
    assert_eq!(result, 0x5555555555555555_u64);
}

#[test]
fn test_pow_mod() {
    // base^n mod m does not depend on the working width.
    let result = pow_mod(87, 12345, 251);
    assert_eq!(result, 188);

    let result = pow_mod(252, 255, 255);
    assert_eq!(result, 198);

    let result = pow_mod(10235, 12345, 63644);
    assert_eq!(result, 45795);

    let result = pow_mod(648518821, 12345, 3288555137);
    assert_eq!(result, 2953876344);

    let result = pow_mod(0xFFFFFFFC, 0xFFFFFFFF, 0xFFFFFFFF);
    assert_eq!(result, 0x71C71C71);

    let result = pow_mod(
        0xFFFFFFFFFFFFFFFC_u64,
        0xFFFFFFFFFFFFFFFF_u64,
        0xFFFFFFFFFFFFFFFF_u64,
    );
    assert_eq!(result, 0x7C4A71C0F57CAAB0_u64);
}

#[test]
fn test_pow_mod_u32_values() {
    let result = pow_mod_u32(648518821_u32, 12345, 3288555137);
    assert_eq!(result, 2953876344_u32);
    let result = pow_mod_u32(0xFFFFFFFC_u32, 0xFFFFFFFF, 0xFFFFFFFF);
    assert_eq!(result, 0x71C71C71_u32);
    // m == 1: every product reduces to 0, but a zero exponent performs
    // no multiplication and returns the initial 1 unreduced.
    assert_eq!(pow_mod_u32(12345, 6789, 1), 0);
    assert_eq!(pow_mod(12345, 6789, 1), 0);
    assert_eq!(pow_mod_u32(12345, 0, 1), 1);
    assert_eq!(pow_mod(12345, 0, 1), 1);
    assert_eq!(pow_mod(12345, 0, 97), 1);
}

#[test]
fn test_pow_mod_matches_repeated_mul_mod() {
    // pow_mod agrees with n repeated modular multiplications.
    let m = 3288555137_u32;
    let base = 648518821_u32;
    let mut acc: u32 = 1;
    for n in 0..40u64 {
        assert_eq!(pow_mod_u32(base, n, m), acc);
        acc = mul_mod_u32(acc, base, m);
    }
}

#[test]
fn test_wrapping_geom_series() {
    let result = wrapping_geom_series(21345_u32, 12345);
    assert_eq!(result, 2573576889_u32);

    let result = wrapping_geom_series(0xFFFFFFFD_u32, 12345);
    assert_eq!(result, 0xB7068D89_u32);

    let result = wrapping_geom_series(0xFFFFFFFD_u32, 123456789);
    assert_eq!(result, 0xBA21CFAD_u32);

    let result = wrapping_geom_series(69069_u32, 1_000_000_000_000_000_000_u64);
    assert_eq!(result, 629932032_u32);
}

#[test]
fn test_wrapping_geom_series_matches_naive_sum() {
    // 1 + r + r^2 + ... + r^(n-1), with wrapping add and mul.
    for r in [0u32, 1, 2, 21345, 0xFFFFFFFD] {
        let mut sum: u32 = 0;
        let mut term: u32 = 1;
        for n in 0..30u64 {
            assert_eq!(wrapping_geom_series(r, n), sum);
            sum = sum.wrapping_add(term);
            term = term.wrapping_mul(r);
        }
    }
}

#[test]
fn test_mul_mod_large_operands() {
    // Operands far above the modulus are still reduced exactly.
    assert_eq!(mul_mod(u128::MAX, u128::MAX, 0xFFFF_FFFF_FFFF_FFFF), 0);
    assert_eq!(mul_mod(u128::MAX, 2, u128::MAX), 0);
    assert_eq!(mul_mod(u128::MAX - 1, u128::MAX - 1, u128::MAX), 1);
    assert_eq!(mul_mod(7, 9, 1), 0);
}
