use simplerandom::Cong;
use simplerandom::KISS;
use simplerandom::KISS2;
use simplerandom::LFSR113;
use simplerandom::LFSR88;
use simplerandom::MWC1;
use simplerandom::MWC2;
use simplerandom::MWC64;
use simplerandom::SHR3;

#[test]
fn test_kiss_million() {
    let mut rng = KISS::new(2247183469, 99545079, 3269400377, 3950144837);
    let mut k: u32 = 0;
    for _ in 0..1_000_000 {
        k = rng.next_u32();
    }
    assert_eq!(k, 2100752872);

    let mut rng_ja = KISS::new(2247183469, 99545079, 3269400377, 3950144837);
    rng_ja.jumpahead(1_000_000);
    assert_eq!(rng_ja, rng);
    assert_eq!(rng_ja.next_u32(), rng.next_u32());
}

#[test]
fn test_cong_million() {
    let mut rng = Cong::new(2051391225);
    let mut k: u32 = 0;
    for _ in 0..1_000_000 {
        k = rng.next_u32();
    }
    assert_eq!(k, 2416584377);

    let mut rng_ja = Cong::new(2051391225);
    rng_ja.jumpahead(1_000_000);
    assert_eq!(rng_ja, rng);
    assert_eq!(rng_ja.next_u32(), rng.next_u32());
}

#[test]
fn test_shr3_million() {
    let mut rng = SHR3::new(3360276411);
    let mut k: u32 = 0;
    for _ in 0..1_000_000 {
        k = rng.next_u32();
    }
    assert_eq!(k, 1153302609);

    let mut rng_ja = SHR3::new(3360276411);
    rng_ja.jumpahead(1_000_000);
    assert_eq!(rng_ja, rng);
    assert_eq!(rng_ja.next_u32(), rng.next_u32());
}

#[test]
fn test_mwc1_million() {
    let mut rng = MWC1::new(2374144069, 1046675282);
    let mut k: u32 = 0;
    for _ in 0..1_000_000 {
        k = rng.next_u32();
    }
    assert_eq!(k, 904977562);

    let mut rng_ja = MWC1::new(2374144069, 1046675282);
    rng_ja.jumpahead(1_000_000);
    assert_eq!(rng_ja, rng);
    assert_eq!(rng_ja.next_u32(), rng.next_u32());
}

#[test]
fn test_mwc2_million() {
    let mut rng = MWC2::new(0, 0);
    let mut k: u32 = 0;
    for _ in 0..1_000_000 {
        k = rng.next_u32();
    }
    assert_eq!(k, 767834450);

    let mut rng_ja = MWC2::new(0, 0);
    rng_ja.jumpahead(1_000_000);
    assert_eq!(rng_ja, rng);
    assert_eq!(rng_ja.next_u32(), rng.next_u32());
}

#[test]
fn test_mwc64_million() {
    let mut rng = MWC64::new(0, 0);
    let mut k: u32 = 0;
    for _ in 0..1_000_000 {
        k = rng.next_u32();
    }
    assert_eq!(k, 2191957470);

    let mut rng_ja = MWC64::new(0, 0);
    rng_ja.jumpahead(1_000_000);
    assert_eq!(rng_ja, rng);
    assert_eq!(rng_ja.next_u32(), rng.next_u32());
}

#[test]
fn test_kiss2_million() {
    let mut rng = KISS2::new(0, 0, 0, 0);
    let mut k: u32 = 0;
    for _ in 0..1_000_000 {
        k = rng.next_u32();
    }
    assert_eq!(k, 4044786495);

    let mut rng_ja = KISS2::new(0, 0, 0, 0);
    rng_ja.jumpahead(1_000_000);
    assert_eq!(rng_ja, rng);
    assert_eq!(rng_ja.next_u32(), rng.next_u32());
}

#[test]
fn test_lfsr113_million() {
    let mut rng = LFSR113::new(0, 0, 0, 0);
    let mut k: u32 = 0;
    for _ in 0..1_000_000 {
        k = rng.next_u32();
    }
    assert_eq!(k, 300959510);

    let mut rng_ja = LFSR113::new(0, 0, 0, 0);
    rng_ja.jumpahead(1_000_000);
    assert_eq!(rng_ja, rng);
    assert_eq!(rng_ja.next_u32(), rng.next_u32());
}

#[test]
fn test_lfsr88_million() {
    let mut rng = LFSR88::new(0, 0, 0);
    let mut k: u32 = 0;
    for _ in 0..1_000_000 {
        k = rng.next_u32();
    }
    assert_eq!(k, 3774296834);

    let mut rng_ja = LFSR88::new(0, 0, 0);
    rng_ja.jumpahead(1_000_000);
    assert_eq!(rng_ja, rng);
    assert_eq!(rng_ja.next_u32(), rng.next_u32());
}

#[test]
fn test_cong_sequence_and_jump() {
    let mut s = Cong::new(1);
    assert_eq!(s.next_u32(), 81414);
    assert_eq!(s.next_u32(), 1328228615);
    assert_eq!(s.next_u32(), 3215746516);
    assert_eq!(s.next_u32(), 2752347901);
    s.jumpahead(1_000_000);
    assert_eq!(s.next_u32(), 2250891922);
}

#[test]
fn test_shr3_sequence_and_jump() {
    let mut s = SHR3::new(1);
    assert_eq!(s.next_u32(), 270369);
    assert_eq!(s.next_u32(), 67634689);
    assert_eq!(s.next_u32(), 2647435461);
    assert_eq!(s.next_u32(), 307599695);
    s.jumpahead(1_000_000);
    assert_eq!(s.next_u32(), 1105614340);
}

#[test]
fn test_mwc1_sequence_and_jump() {
    let mut s = MWC1::new(1, 2);
    assert_eq!(s.next_u32(), 2422836384);
    assert_eq!(s.next_u32(), 1907405312);
    assert_eq!(s.next_u32(), 3696412319);
    assert_eq!(s.next_u32(), 560774291);
    s.jumpahead(1_000_000_000_000);
    assert_eq!(s.next_u32(), 1656029560);
}

#[test]
fn test_mwc2_sequence_and_jump() {
    let mut s = MWC2::new(1, 2);
    assert_eq!(s.next_u32(), 2422836384);
    assert_eq!(s.next_u32(), 1907426166);
    assert_eq!(s.next_u32(), 3696423159);
    assert_eq!(s.next_u32(), 560799047);
    s.jumpahead(1_000_000_000_000);
    assert_eq!(s.next_u32(), 1656033328);
}

#[test]
fn test_kiss_sequence_and_jump() {
    let mut s = KISS::new(1, 2, 3, 4);
    assert_eq!(s.next_u32(), 2424001924);
    assert_eq!(s.next_u32(), 107884083);
    assert_eq!(s.next_u32(), 623570573);
    assert_eq!(s.next_u32(), 538815332);
    s.jumpahead(1_000_000_000_000_000_000);
    assert_eq!(s.next_u32(), 101779707);
}

#[test]
fn test_mwc64_sequence_and_jump() {
    let mut s = MWC64::new(1, 2);
    assert_eq!(s.next_u32(), 1397538139);
    assert_eq!(s.next_u32(), 3563413631);
    assert_eq!(s.next_u32(), 3101181111);
    assert_eq!(s.next_u32(), 1402594920);
    s.jumpahead(1_000_000_000_000_000_000);
    assert_eq!(s.next_u32(), 655025777);
}

#[test]
fn test_kiss2_sequence_and_jump() {
    let mut s = KISS2::new(1, 2, 3, 4);
    assert_eq!(s.next_u32(), 1398839167);
    assert_eq!(s.next_u32(), 1816301020);
    assert_eq!(s.next_u32(), 431342393);
    assert_eq!(s.next_u32(), 2488040595);
    s.jumpahead(1_000_000_000_000_000_000);
    assert_eq!(s.next_u32(), 666798061);
}

#[test]
fn test_lfsr88_sequence_and_jump() {
    let mut s = LFSR88::new(1, 2, 3);
    assert_eq!(s.next_u32(), 270534496);
    assert_eq!(s.next_u32(), 75498003);
    assert_eq!(s.next_u32(), 539432965);
    assert_eq!(s.next_u32(), 536871567);
    s.jumpahead(1_000_000_000_000_000_000);
    assert_eq!(s.next_u32(), 1799734280);
}

#[test]
fn test_lfsr113_sequence_and_jump() {
    let mut s = LFSR113::new(1, 2, 3, 4);
    assert_eq!(s.next_u32(), 2173174600);
    assert_eq!(s.next_u32(), 3360260106);
    assert_eq!(s.next_u32(), 5252608);
    assert_eq!(s.next_u32(), 1645469841);
    s.jumpahead(1_000_000_000_000_000_000);
    assert_eq!(s.next_u32(), 2384440028);
}

#[test]
fn test_jumpahead_negative_wraps() {
    // Jumping ahead by the cycle length minus one equals stepping back
    // one: one more step returns to the starting point.
    let mut s = Cong::new(99);
    let start = s.clone();
    s.jumpahead(-1);
    s.next_u32();
    assert_eq!(s, start);
}

#[test]
fn test_next_u64_combines_two_words() {
    let mut a = Cong::new(1);
    let mut b = Cong::new(1);
    let low = b.next_u32() as u64;
    let high = b.next_u32() as u64;
    assert_eq!(a.next_u64(), low | (high << 32));
    assert_eq!(a, b);

    let mut c = LFSR113::new(5, 6, 7, 8);
    let mut d = LFSR113::new(5, 6, 7, 8);
    let low = d.next_u32() as u64;
    let high = d.next_u32() as u64;
    assert_eq!(c.next_u64(), low | (high << 32));
}

#[test]
fn test_jumpahead_zero_after_sanitise() {
    // A jump of zero steps only replaces degenerate seed values.
    let mut s = SHR3::new(12345);
    s.jumpahead(0);
    assert_eq!(s, SHR3::new(12345));

    let mut z = SHR3::new(0);
    z.jumpahead(0);
    assert_eq!(z, SHR3::new(0xFFFFFFFF));
}

#[test]
fn test_jumpahead_small_equals_steps() {
    // A short jump equals the same number of next_u32 calls, generator
    // by generator.
    let mut a = KISS::new(11, 22, 33, 44);
    let mut b = KISS::new(11, 22, 33, 44);
    for _ in 0..7 {
        a.next_u32();
    }
    b.jumpahead(7);
    assert_eq!(a, b);

    let mut c = KISS2::new(55, 66, 77, 88);
    let mut d = KISS2::new(55, 66, 77, 88);
    for _ in 0..7 {
        c.next_u32();
    }
    d.jumpahead(7);
    assert_eq!(c, d);

    let mut e = LFSR88::new(9, 8, 7);
    let mut f = LFSR88::new(9, 8, 7);
    for _ in 0..7 {
        e.next_u32();
    }
    f.jumpahead(7);
    assert_eq!(e, f);
}

#[test]
fn test_mwc_constants() {
    // The modulus and cycle-length constants are (m << half) - 1 and
    // (m << half) / 2 - 1 for each multiplier.
    assert_eq!(MWC2::UPPER_MOD, (MWC2::UPPER_M << 16) - 1);
    assert_eq!(MWC2::LOWER_MOD, (MWC2::LOWER_M << 16) - 1);
    assert_eq!(MWC2::UPPER_CYCLE_LEN, (MWC2::UPPER_M << 16) / 2 - 1);
    assert_eq!(MWC2::LOWER_CYCLE_LEN, (MWC2::LOWER_M << 16) / 2 - 1);
    assert_eq!(MWC64::MOD, (MWC64::M << 32) - 1);
    assert_eq!(MWC64::CYCLE_LEN, (MWC64::M << 32) / 2 - 1);
    assert_eq!(LFSR88::Z1_CYCLE_LEN, (1 << 31) - 1);
    assert_eq!(LFSR88::Z2_CYCLE_LEN, (1 << 29) - 1);
    assert_eq!(LFSR88::Z3_CYCLE_LEN, (1 << 28) - 1);
    assert_eq!(LFSR113::Z4_CYCLE_LEN, (1 << 25) - 1);
}
