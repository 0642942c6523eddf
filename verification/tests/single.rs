use imgtool::single::Single;

fn next(state: &mut u64) -> u64 {
    *state = state.wrapping_mul(6364136223846793005).wrapping_add(1442695040888963407);
    *state >> 11
}

fn some_bits(state: &mut u64) -> u32 {
    let pick = next(state) % 10;
    let raw = next(state) as u32;
    if pick == 0 {
        let special = [
            0u32,
            0x8000_0000,
            0x7f80_0000,
            0xff80_0000,
            0x7fc0_0000,
            1,
            0x007f_ffff,
            0x0080_0000,
            0x7f7f_ffff,
            0x3f80_0000,
            0x4f80_0000,
            0x4f7f_ffff,
        ];
        special[(raw as usize) % special.len()]
    } else if pick < 4 {
        raw
    } else {
        // exponents near those of pixel counts and of ratios
        let exponent = 90 + (raw >> 8) % 80;
        (raw & 0x8000_0000) | (exponent << 23) | (raw & 0x007f_ffff)
    }
}

fn same(bits: u32, expected: f32) -> bool {
    if expected.is_nan() {
        f32::from_bits(bits).is_nan()
    } else {
        bits == expected.to_bits()
    }
}

#[test]
fn from_u64_is_the_cast() {
    let mut state = 1u64;
    for _ in 0..200_000 {
        let width = next(&mut state) % 65;
        let n = if width == 64 { next(&mut state) << 11 | 0x7ff } else { next(&mut state) & ((1u64 << width) - 1) };
        assert_eq!(Single::from_u64(n).to_bits(), (n as f32).to_bits(), "{}", n);
    }
    for n in [0u64, 1, 2, 3, 0xff_ffff, 0x100_0000, 0x100_0001, 0x100_0002, 0x100_0003, u64::MAX, u64::MAX - 1, 1 << 63, (1 << 63) + (1 << 39), (1 << 63) + (1 << 39) + 1, 0xffff_ff7f_ffff_ffff, 0xffff_ff80_0000_0000] {
        assert_eq!(Single::from_u64(n).to_bits(), (n as f32).to_bits(), "{}", n);
    }
}

#[test]
fn from_u64_exact_values() {
    assert_eq!(Single::from_u64(0).to_bits(), 0);
    assert_eq!(Single::from_u64(1).to_bits(), 0x3f80_0000);
    assert_eq!(Single::from_u64(800).to_bits(), 0x4448_0000);
    // 2^24 + 1 lies between two numbers of the format and goes to the even one
    assert_eq!(Single::from_u64(16_777_217).to_bits(), 0x4b80_0000);
    assert_eq!(Single::from_u64(16_777_219).to_bits(), 0x4b80_0002);
}

#[test]
fn times_is_the_product() {
    let mut state = 2u64;
    for _ in 0..300_000 {
        let a = some_bits(&mut state);
        let b = some_bits(&mut state);
        let got = Single::from_bits(a).times(Single::from_bits(b)).to_bits();
        let expected = f32::from_bits(a) * f32::from_bits(b);
        assert!(same(got, expected), "{:#x} * {:#x}: {:#x}, expected {:#x}", a, b, got, expected.to_bits());
    }
}

#[test]
fn times_exact_values() {
    let three = Single::from_bits(3.0f32.to_bits());
    let half = Single::from_bits(0.5f32.to_bits());
    assert_eq!(three.times(half).to_bits(), 0x3fc0_0000);
    let infinity = Single::from_bits(0x7f80_0000);
    let zero = Single::from_bits(0);
    assert_eq!(infinity.times(zero).to_bits(), 0x7fc0_0000);
    assert_eq!(infinity.times(three).to_bits(), 0x7f80_0000);
    let minus_three = Single::from_bits((-3.0f32).to_bits());
    assert_eq!(minus_three.times(half).to_bits(), 0xbfc0_0000);
    assert_eq!(minus_three.times(zero).to_bits(), 0x8000_0000);
    // the largest finite number times two is out of range
    let largest = Single::from_bits(0x7f7f_ffff);
    assert_eq!(largest.times(Single::from_bits(2.0f32.to_bits())).to_bits(), 0x7f80_0000);
    // the smallest positive number times a half is a tie, and goes to zero
    let smallest = Single::from_bits(1);
    assert_eq!(smallest.times(half).to_bits(), 0);
    assert_eq!(Single::from_bits(3).times(half).to_bits(), 2);
}

#[test]
fn over_is_the_quotient() {
    let mut state = 3u64;
    for _ in 0..300_000 {
        let a = some_bits(&mut state);
        let b = some_bits(&mut state);
        let got = Single::from_bits(a).over(Single::from_bits(b)).to_bits();
        let expected = f32::from_bits(a) / f32::from_bits(b);
        assert!(same(got, expected), "{:#x} / {:#x}: {:#x}, expected {:#x}", a, b, got, expected.to_bits());
    }
}

#[test]
fn over_of_whole_numbers_is_the_quotient() {
    let mut state = 4u64;
    for _ in 0..200_000 {
        let a = next(&mut state) % 5000;
        let b = next(&mut state) % 5000;
        let got = Single::from_u64(a).over(Single::from_u64(b)).to_bits();
        let expected = a as f32 / b as f32;
        assert!(same(got, expected), "{} / {}", a, b);
    }
}

#[test]
fn over_exact_values() {
    let one = Single::from_u64(1);
    let three = Single::from_u64(3);
    assert_eq!(one.over(three).to_bits(), 0x3eaa_aaab);
    assert_eq!(Single::from_u64(25).over(three).to_bits(), (25.0f32 / 3.0f32).to_bits());
    let zero = Single::from_u64(0);
    assert_eq!(one.over(zero).to_bits(), 0x7f80_0000);
    assert_eq!(zero.over(zero).to_bits(), 0x7fc0_0000);
    assert_eq!(zero.over(three).to_bits(), 0);
    let infinity = Single::from_bits(0x7f80_0000);
    assert_eq!(three.over(infinity).to_bits(), 0);
    assert_eq!(infinity.over(infinity).to_bits(), 0x7fc0_0000);
}

#[test]
fn to_u32_is_the_cast() {
    let mut state = 5u64;
    for _ in 0..300_000 {
        let a = some_bits(&mut state);
        assert_eq!(Single::from_bits(a).to_u32(), f32::from_bits(a) as u32, "{:#x}", a);
    }
}

#[test]
fn to_u32_exact_values() {
    assert_eq!(Single::from_bits(800.0f32.to_bits()).to_u32(), 800);
    assert_eq!(Single::from_bits(799.99994f32.to_bits()).to_u32(), 799);
    assert_eq!(Single::from_bits(0.99f32.to_bits()).to_u32(), 0);
    assert_eq!(Single::from_bits((-5.0f32).to_bits()).to_u32(), 0);
    assert_eq!(Single::from_bits(f32::NAN.to_bits()).to_u32(), 0);
    assert_eq!(Single::from_bits(f32::INFINITY.to_bits()).to_u32(), u32::MAX);
    assert_eq!(Single::from_bits(4294967296.0f32.to_bits()).to_u32(), u32::MAX);
    assert_eq!(Single::from_bits(4294967040.0f32.to_bits()).to_u32(), 4294967040);
}

#[test]
fn is_zero_ignores_the_sign() {
    assert!(Single::from_bits(0.0f32.to_bits()).is_zero());
    assert!(Single::from_bits((-0.0f32).to_bits()).is_zero());
    assert!(!Single::from_bits(f32::NAN.to_bits()).is_zero());
    assert!(!Single::from_bits(1).is_zero());
    assert_eq!(Single::from_bits(7).to_bits(), 7);
}
