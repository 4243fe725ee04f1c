use gguf_recast::ieee::convert::{
    divide_double, divide_single, double_to_single, floor_double, multiply_and_cut,
    multiply_double, single_to_double, single_to_half,
};
use gguf_recast::ieee::decimal::g6;
use gguf_recast::ieee::reading::read_count;

fn samples() -> Vec<u64> {
    let mut v = vec![
        0,
        1,
        0x000f_ffff_ffff_ffff,
        0x0010_0000_0000_0000,
        0x7fef_ffff_ffff_ffff,
        0x7ff0_0000_0000_0000,
        1.0f64.to_bits(),
        (f32::MAX as f64).to_bits(),
        3.4028235677973366e38f64.to_bits(),
        1e-45f64.to_bits(),
        7.006492321624085e-46f64.to_bits(),
        1.401298464324817e-45f64.to_bits(),
        65519.99f64.to_bits(),
        65520.0f64.to_bits(),
    ];
    let mut x: u64 = 0x9e37_79b9_7f4a_7c15;
    for i in 0..3000u64 {
        x ^= x << 13;
        x ^= x >> 7;
        x ^= x << 17;
        let field = if i % 3 == 0 { x >> 52 & 0x7ff } else { 1023 - 160 + (x >> 52) % 320 };
        let bits = (x & 0x800f_ffff_ffff_ffff) | (field.min(2046) << 52);
        v.push(bits);
    }
    v
}

#[test]
fn doubles_to_singles() {
    for x in samples() {
        assert_eq!(double_to_single(x), (f64::from_bits(x) as f32).to_bits(), "{x:#x}");
    }
    assert!(f32::from_bits(double_to_single(f64::NAN.to_bits())).is_nan());
}

#[test]
fn singles_to_doubles() {
    for x in samples() {
        let y = (x >> 20) as u32;
        if !f32::from_bits(y).is_nan() {
            assert_eq!(single_to_double(y), (f32::from_bits(y) as f64).to_bits(), "{y:#x}");
        }
    }
}

#[test]
fn singles_divided() {
    let all = samples();
    for w in all.windows(2) {
        let a = f64::from_bits(w[0]) as f32;
        let b = f64::from_bits(w[1]) as f32;
        let q = f32::from_bits(divide_single(a.to_bits(), b.to_bits()));
        assert!(q.to_bits() == (a / b).to_bits() || (q.is_nan() && (a / b).is_nan()), "{a} {b}");
    }
    assert_eq!(divide_single(1.0f32.to_bits(), 0), f32::INFINITY.to_bits());
    assert!(f32::from_bits(divide_single(0, 0)).is_nan());
    assert!(f32::from_bits(divide_single(0x7f80_0001, 0x3f80_0000)).is_nan());
    assert_eq!(divide_single((-1.0f32).to_bits(), f32::INFINITY.to_bits()), 0x8000_0000);
}

#[test]
fn doubles_divided_by_whole_numbers() {
    for x in samples() {
        let x = x & !(1 << 63);
        assert_eq!(divide_double(x, 30000), (f64::from_bits(x) / 30000.0).to_bits(), "{x:#x}");
    }
}

#[test]
fn doubles_multiplied_and_cut() {
    for (i, x) in samples().into_iter().enumerate() {
        let n = (i as u64).pow(5) + 1;
        let product = n as f64 * f64::from_bits(x);
        assert_eq!(multiply_and_cut(n, x), product as u32, "{n} {x:#x}");
        let x = x & !(1 << 63);
        if f64::from_bits(x).is_finite() {
            let product = n as f64 * f64::from_bits(x);
            assert_eq!(multiply_double(n, x), product.to_bits());
            assert_eq!(floor_double(product.to_bits(), u64::MAX), product as u64);
        }
    }
    assert_eq!(multiply_and_cut(256, 0.25f64.to_bits()), 64);
    assert_eq!(multiply_and_cut(256, f64::NAN.to_bits()), 0);
    assert_eq!(multiply_and_cut(0, f64::INFINITY.to_bits()), 0);
    assert_eq!(multiply_and_cut(1, f64::INFINITY.to_bits()), u32::MAX);
}

#[test]
fn singles_to_halves() {
    for (x, h) in [
        (0.0f32, 0u16),
        (-0.0, 0x8000),
        (1.0, 0x3c00),
        (-2.0, 0xc000),
        (65504.0, 0x7bff),
        (65519.996, 0x7bff),
        (65520.0, 0x7c00),
        (f32::INFINITY, 0x7c00),
        (f32::NEG_INFINITY, 0xfc00),
        (5.9604645e-8, 1),
        (2.9802322e-8, 0),
        (2.9802326e-8, 1),
        (6.1035156e-5, 0x0400),
        (6.097555e-5, 0x03ff),
        (0.333_333_34, 0x3555),
        (1.000_488_3, 0x3c00),
        (1.001_464_8, 0x3c02),
    ] {
        assert_eq!(single_to_half(x.to_bits()), h, "{x}");
    }
    assert_eq!(single_to_half(0x7fc0_0000), 0x7e00);
    assert_eq!(single_to_half(0xff80_0001), 0xfc01);
}

#[test]
fn six_digits_follow_exponent_notation() {
    for x in samples() {
        let x = x & !(1 << 63);
        let v = f64::from_bits(x);
        if v == 0.0 || !v.is_finite() {
            continue;
        }
        let s = format!("{v:.5e}");
        let (mant, exp) = s.split_once('e').unwrap();
        let back: f64 = g6(x).parse().unwrap();
        let want: f64 = format!("{mant}e{exp}").parse().unwrap();
        assert_eq!(back, want, "{v}");
    }
    assert_eq!(g6(f64::NAN.to_bits()), "nan");
    assert_eq!(g6(f64::INFINITY.to_bits()), "inf");
    assert_eq!(g6(f64::NEG_INFINITY.to_bits()), "-inf");
    assert_eq!(g6((-0.0f64).to_bits()), "0");
    assert_eq!(g6((-2.5f64).to_bits()), "-2.5");
    assert_eq!(g6(999999.5f64.to_bits()), "1e+06");
    assert_eq!(g6(9.9999949e-5f64.to_bits()), "9.99999e-05");
    assert_eq!(g6(1e-300f64.to_bits()), "1e-300");
    assert_eq!(g6(100000.0f64.to_bits()), "100000");
}

#[test]
fn decimal_counts_follow_double_arithmetic() {
    let texts = [
        "7", "7.1", "0.5", "1.5", "27", "0.1", "123456.789", "0.30000000000000004", "9007199254740993",
        "9007199254740993.0000000000000000000000001", "18446744073709551615", "18446744073709551616",
        "0.00000000000000000000000000000000000001", "00012.500", "1.", ".5", "8388608.499999999999999",
        "4503599627370496.5", "4503599627370497.5", "4503599627370497.50000000000000000000001",
    ];
    for t in texts {
        for k in 0..5usize {
            let c: Vec<char> = t.chars().collect();
            let want = (t.parse::<f64>().unwrap() * 1000f64.powi(k as i32)) as i64;
            assert_eq!(read_count(&c, k), Some(want), "{t} {k}");
        }
    }
    for t in ["", ".", "1.2.3", "a3", "8x7", "-1", "1e3"] {
        let c: Vec<char> = t.chars().collect();
        assert_eq!(read_count(&c, 1), None, "{t}");
    }
}
