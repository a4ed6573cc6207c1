use fv1_asm::literal::{decimal_bits, round_units};
use fv1_asm::wide::{compare, div_rem, mul_add, subtract};
use fv1_asm::Float32;

fn limbs_of(mut value: u128) -> Vec<u32> {
    let mut limbs = Vec::new();
    while value != 0 {
        limbs.push(value as u32);
        value >>= 32;
    }
    limbs
}

fn limbs_of_digits(digits: &str) -> Vec<u32> {
    let mut limbs = Vec::new();
    for d in digits.bytes() {
        limbs = mul_add(&limbs, 10, (d - b'0') as u32);
    }
    limbs
}

fn expected(digits: &str, exponent: i128) -> u32 {
    format!("{}e{}", digits, exponent).parse::<f32>().unwrap().to_bits()
}

struct Random(u64);

impl Random {
    fn next(&mut self) -> u64 {
        self.0 ^= self.0 << 13;
        self.0 ^= self.0 >> 7;
        self.0 ^= self.0 << 17;
        self.0
    }
}

#[test]
fn limb_arithmetic() {
    assert_eq!(mul_add(&vec![], 10, 7), vec![7]);
    assert_eq!(mul_add(&vec![], 10, 0), Vec::<u32>::new());
    assert_eq!(mul_add(&vec![0xFFFF_FFFF], 0xFFFF_FFFF, 0xFFFF_FFFF), vec![0, 0xFFFF_FFFF]);
    assert_eq!(mul_add(&limbs_of(u64::MAX as u128), 10, 9), limbs_of(u64::MAX as u128 * 10 + 9));
    assert_eq!(div_rem(&limbs_of(1_000_000_007u128 * 1_000_000_009), 10), (limbs_of(100_000_001_600_000_006), 3));
    assert_eq!(div_rem(&vec![5], 10), (vec![], 5));
    assert_eq!(div_rem(&vec![], 2), (vec![], 0));
    assert_eq!(div_rem(&limbs_of(1u128 << 100), 2), (limbs_of(1u128 << 99), 0));
    let mut random = Random(0x1234_5678_9ABC_DEF1);
    for _ in 0..20_000 {
        let a = ((random.next() as u128) << 64 | random.next() as u128) >> (random.next() % 100);
        let m = (random.next() as u32).max(1);
        let c = random.next() as u32;
        if let Some(product) = a.checked_mul(m as u128).and_then(|p| p.checked_add(c as u128)) {
            assert_eq!(mul_add(&limbs_of(a), m, c), limbs_of(product));
        }
        assert_eq!(div_rem(&limbs_of(a), m), (limbs_of(a / m as u128), (a % m as u128) as u32));
    }
}

#[test]
fn rounding_of_units() {
    // Units are 2^-150: the smallest positive number is two units.
    assert_eq!(round_units(vec![], true), 0);
    assert_eq!(round_units(vec![1], true), 0);
    assert_eq!(round_units(vec![1], false), 1);
    assert_eq!(round_units(vec![2], true), 1);
    assert_eq!(round_units(vec![3], true), 2);
    assert_eq!(round_units(vec![5], true), 2);
    assert_eq!(round_units(vec![5], false), 3);
    assert_eq!(round_units(vec![0xFF_FFFF], true), 0x80_0000);
    assert_eq!(round_units(vec![0x100_0000], true), 0x80_0000);
    assert_eq!(round_units(limbs_of(1u128 << 127), true), (127u32 + 127 - 150) << 23);
}

#[test]
fn decimal_bits_agree_with_parsing() {
    let cases: Vec<(&str, i128)> = vec![
        ("0", 0),
        ("0", 1000),
        ("0", -1000),
        ("1", 0),
        ("5", -1),
        ("1", -1),
        ("3", -1),
        ("15", -1),
        ("25", -2),
        ("1", 38),
        ("34028235", 31),
        ("340282356779733661637539395458142568447", 0),
        ("340282356779733661637539395458142568448", 0),
        ("340282346638528859811704183484516925440", 0),
        ("34028236", 31),
        ("1", 39),
        ("1", 400),
        ("1", -45),
        ("14", -46),
        ("7", -46),
        ("70064923216240853546186479164495806564013097093825788587853", -104),
        ("70064923216240853546186479164495806564013097093825788587854", -104),
        ("70064923216240853546186479164495806564013097093825788587852", -104),
        ("1", -46),
        ("1", -400),
        ("11754943508222875", -54),
        ("117549435", -46),
        ("16777217", 0),
        ("16777219", 0),
        ("16777218", 0),
        ("167772170000000000000000000000000000000000000000001", -43),
        ("9007199254740993", 0),
        ("123456789012345678901234567890123456789012345678901234567890", -30),
        ("99999999999999999999999999999999999999999999999999", -50),
    ];
    for (digits, exponent) in cases {
        assert_eq!(
            decimal_bits(limbs_of_digits(digits), exponent),
            expected(digits, exponent),
            "{}e{}",
            digits,
            exponent
        );
    }
    assert_eq!(decimal_bits(limbs_of(1), 1i128 << 100), 0x7F80_0000);
    assert_eq!(decimal_bits(limbs_of(1), -(1i128 << 100)), 0);
    assert_eq!(decimal_bits(limbs_of(0), 1i128 << 100), 0);
}

#[test]
fn decimal_bits_agree_with_parsing_at_random() {
    let mut random = Random(0x0DDB_1A5E_5BAD_5EED);
    for _ in 0..60_000 {
        let digits = random.next() >> (random.next() % 64);
        let exponent = (random.next() % 120) as i128 - 75;
        let text = format!("{}", digits);
        assert_eq!(
            decimal_bits(limbs_of(digits as u128), exponent),
            expected(&text, exponent),
            "{}e{}",
            digits,
            exponent
        );
    }
}

#[test]
fn every_float_parses_back_from_its_shortest_text() {
    let mut bits: u32 = 0;
    loop {
        let value = f32::from_bits(bits);
        if value.is_finite() {
            // The text in exponent form: digits, a point, digits, e, exponent.
            let text = format!("{:e}", value);
            let (mantissa, exponent) = text.split_once('e').unwrap();
            let exponent: i128 = exponent.parse().unwrap();
            let (whole, fraction) = mantissa.split_once('.').unwrap_or((mantissa, ""));
            let digits = format!("{}{}", whole, fraction);
            assert_eq!(
                decimal_bits(limbs_of_digits(&digits), exponent - fraction.len() as i128),
                bits,
                "{}",
                text
            );
        }
        match bits.checked_add(48_611) {
            Some(next) if next < 0x8000_0000 => bits = next,
            _ => break,
        }
    }
}

#[test]
fn halfway_cases_round_to_even() {
    // Exactly between two neighbours: the one with an even last bit.
    let mut random = Random(0xFEED_FACE_CAFE_BEEF);
    for _ in 0..3000 {
        let bits = (random.next() % 0x7F00_0000) as u32;
        let low = f32::from_bits(bits) as f64;
        let high = f32::from_bits(bits + 1) as f64;
        assert!(high.is_finite());
        let middle = (low + high) / 2.0;
        // A double has a finite decimal expansion: write it out in full.
        let text = format!("{:.1100}", middle);
        let (whole, fraction) = text.split_once('.').unwrap();
        let digits = format!("{}{}", whole, fraction);
        let expected = if bits % 2 == 0 { bits } else { bits + 1 };
        assert_eq!(text.parse::<f32>().unwrap().to_bits(), expected);
        assert_eq!(
            decimal_bits(limbs_of_digits(&digits), -(fraction.len() as i128)),
            expected,
            "{}",
            middle
        );
        // A little more than halfway goes up, a little less goes down.
        let above = format!("{}1", digits);
        assert_eq!(decimal_bits(limbs_of_digits(&above), -(fraction.len() as i128) - 1), bits + 1);
    }
}

#[test]
fn limb_comparison_and_difference() {
    let mut random = Random(0x5DEE_CE66_D1CE_4E5B);
    for _ in 0..20_000 {
        let a = ((random.next() as u128) << 64 | random.next() as u128) >> (random.next() % 128);
        let b = ((random.next() as u128) << 64 | random.next() as u128) >> (random.next() % 128);
        let expected = if a < b { -1 } else if a == b { 0 } else { 1 };
        assert_eq!(compare(&limbs_of(a), &limbs_of(b)), expected);
        assert_eq!(compare(&limbs_of(a), &limbs_of(a)), 0);
        let (large, little) = if a >= b { (a, b) } else { (b, a) };
        assert_eq!(subtract(&limbs_of(large), &limbs_of(little)), limbs_of(large - little));
    }
    assert_eq!(subtract(&limbs_of(1 << 64), &limbs_of(1)), limbs_of((1 << 64) - 1));
    assert_eq!(subtract(&limbs_of(5), &limbs_of(5)), Vec::<u32>::new());
}

#[test]
fn numbers_from_decimal_digits() {
    assert_eq!(Float32::from_decimal(false, 1, 0).to_bits(), 1.0f32.to_bits());
    assert_eq!(Float32::from_decimal(false, 0, 0).to_bits(), 0.0f32.to_bits());
    assert_eq!(Float32::from_decimal(true, 0, 0).to_bits(), (-0.0f32).to_bits());
    assert_eq!(Float32::from_decimal(true, 1, 0).to_bits(), (-1.0f32).to_bits());
    assert_eq!(Float32::from_decimal(false, 4, -1).to_bits(), 0.4f32.to_bits());
    assert_eq!(Float32::from_decimal(false, 3, -1).to_bits(), 0.3f32.to_bits());
    assert_eq!(Float32::from_decimal(false, 9, -1).to_bits(), 0.9f32.to_bits());
    assert_eq!(Float32::from_decimal(false, 5, -1).to_bits(), 0.5f32.to_bits());
    assert_eq!(Float32::from_decimal(false, u64::MAX, 0).to_bits(), (u64::MAX as f32).to_bits());
    assert_eq!(Float32::from_decimal(false, 1, i32::MAX).to_bits(), f32::INFINITY.to_bits());
    assert_eq!(Float32::from_decimal(true, 1, i32::MIN).to_bits(), (-0.0f32).to_bits());
    let mut random = Random(0x1357_9BDF_0246_8ACE);
    for _ in 0..20_000 {
        let digits = random.next() >> (random.next() % 64);
        let exponent = (random.next() % 100) as i32 - 60;
        let negative = random.next() % 2 == 0;
        let text = format!("{}{}e{}", if negative { "-" } else { "" }, digits, exponent);
        assert_eq!(
            Float32::from_decimal(negative, digits, exponent).to_bits(),
            text.parse::<f32>().unwrap().to_bits(),
            "{}",
            text
        );
    }
}

#[test]
fn reciprocal_agrees_with_division() {
    let mut bits: u32 = 0;
    loop {
        let value = f32::from_bits(bits);
        let found = Float32::from_bits(bits).reciprocal();
        let expected = 1.0f32 / value;
        if expected.is_nan() {
            assert!(f32::from_bits(found.to_bits()).is_nan(), "bits {:#x}", bits);
        } else {
            assert_eq!(found.to_bits(), expected.to_bits(), "bits {:#x}", bits);
        }
        match bits.checked_add(150_001) {
            Some(next) => bits = next,
            None => break,
        }
    }
    for value in [0.0f32, -0.0, 1.0, -1.0, 0.8, 0.9, 3.0, f32::INFINITY, f32::NEG_INFINITY, f32::MAX, f32::MIN_POSITIVE, 1e-45, 2.9387359e-39, 5.877472e-39] {
        let found = Float32::from_bits(value.to_bits()).reciprocal();
        assert_eq!(found.to_bits(), (1.0f32 / value).to_bits(), "{}", value);
    }
    assert_eq!(Float32::from_bits(0x7F80_0001).reciprocal().to_bits(), 0x7FC0_0001);
    assert_eq!(Float32::from_bits(0xFFC0_1234).reciprocal().to_bits(), 0xFFC0_1234);
}
