use gguf_recast::fp::bf16_to_f16_table;
use gguf_recast::gguf::output::FileError;
use gguf_recast::gguf::reader::{GgufError, Reader};
use gguf_recast::gguf::writer::Writer;
use gguf_recast::gguf::{Value, T_BF16, T_F16, T_F32, T_Q8_0};
use gguf_recast::recast::kvs::copy_kvs;
use gguf_recast::recast::plan::{dtype_name, plan_tensor, Kind, Tier};
use gguf_recast::recast::policy::{find_patterns, Listed, Policy, PolicyError};
use gguf_recast::recast::run::{analyze, count_band, run, RecastError, Recasting};
use gguf_recast::recast::values::{
    bf16_absmax, cast_pass2, classify_band, count_scaled, fmt_g6, rotate_rows, t4_row_scales, Band,
};
use gguf_recast::recast::wht::{largest_pow2_le, walsh_hadamard_row};
use gguf_recast::recast::Options;

fn bf(x: f32) -> u16 {
    (x.to_bits() >> 16) as u16
}

fn wide(b: u16) -> f32 {
    f32::from_bits((b as u32) << 16)
}

fn le(words: &[u16]) -> Vec<u8> {
    words.iter().flat_map(|w| w.to_le_bytes()).collect()
}

fn words(b: &[u8]) -> Vec<u16> {
    b.chunks_exact(2).map(|c| u16::from_le_bytes([c[0], c[1]])).collect()
}

/// The nearest half, by the float arithmetic of the machine.
fn half(x: f32) -> u16 {
    let sign = ((x.to_bits() >> 16) & 0x8000) as u16;
    let a = x.abs() as f64;
    if a.is_nan() {
        return sign | 0x7e00;
    }
    let mut best = 0u16;
    let mut distance = f64::INFINITY;
    // Every finite half, and the next power of two in place of infinity.
    for h in 0..=0x7c00u16 {
        let e = (h >> 10) as i32;
        let f = (h & 0x3ff) as f64;
        let v = if e == 0 {
            f * 2f64.powi(-24)
        } else {
            (1024.0 + f) * 2f64.powi(e - 25)
        };
        let d = (v - a).abs();
        if d < distance || (d == distance && h % 2 == 0) {
            best = h;
            distance = d;
        }
    }
    if a > 65536.0 {
        best = 0x7c00;
    }
    sign | best
}

fn wht(row: &mut [f32]) {
    let d = row.len();
    let mut h = 1;
    while h < d {
        let mut i = 0;
        while i < d {
            for j in i..i + h {
                let a = row[j];
                let b = row[j + h];
                row[j] = a + b;
                row[j + h] = a - b;
            }
            i += 2 * h;
        }
        h *= 2;
    }
    let norm = (d as f64).sqrt() as f32;
    for x in row.iter_mut() {
        *x /= norm;
    }
}

const SMALL: [f32; 6] = [1.0, -2.5, 0.15625, 300.0, -0.0009765625, 65280.0];
const LARGE: [f32; 6] = [1.0e6, -3.5, 70000.0, 0.5, -131072.0, 12.0];

fn elems(v: &[f32]) -> Vec<u16> {
    v.iter().map(|&x| bf(x)).collect()
}

/// A file with a small and a large matrix, a large vector, zeros, a preserved
/// tensor, and tensors of other types.
fn sample() -> Vec<u8> {
    let mut w = Writer::new(Vec::new());
    w.add_kv("general.architecture", Value::Str("toy".to_string()));
    w.add_kv("general.name", Value::Str("Toy".to_string()));
    w.add_kv("empty.text", Value::Str(String::new()));
    w.add_kv("empty.list", Value::ArrI32(vec![]));
    w.add_kv("list", Value::ArrI32(vec![1, 2]));
    w.add_kv("count", Value::U32(7));
    w.add_tensor_info("small", vec![2, 3], T_BF16, 12);
    w.add_tensor_info("large", vec![2, 3], T_BF16, 12);
    w.add_tensor_info("vector", vec![6], T_BF16, 12);
    w.add_tensor_info("zeros", vec![4], T_BF16, 8);
    w.add_tensor_info("keep.norm", vec![6], T_BF16, 12);
    w.add_tensor_info("single", vec![2], T_F32, 8);
    w.add_tensor_info("packed", vec![32], T_Q8_0, 34);
    w.write_header();
    w.write_tensor_data(&le(&elems(&SMALL)));
    w.write_tensor_data(&le(&elems(&LARGE)));
    w.write_tensor_data(&le(&elems(&LARGE)));
    w.write_tensor_data(&[0; 8]);
    w.write_tensor_data(&le(&elems(&LARGE)));
    w.write_tensor_data(&[1, 2, 3, 4, 5, 6, 7, 8]);
    w.write_tensor_data(&[9; 34]);
    w.finish()
}

const POLICY: &str = "{\"preserve_bf16\": [\"norm$\", 5, \"^never\"]}";

fn tensor(file: &[u8], name: &str) -> (u32, Vec<u64>, Vec<u8>) {
    let r = Reader::open(file).unwrap();
    let t = r.tensors.iter().find(|t| t.name == name).unwrap();
    (t.dtype, t.dims.clone(), r.tensor_data(file, t).unwrap())
}

fn outcome(tier: &str, force: bool) -> (Vec<String>, Vec<u8>) {
    let o = run(&sample(), POLICY, tier, force).unwrap();
    (o.tsv, o.file.unwrap())
}

#[test]
fn g6_formatting_matches_python() {
    let cases: &[(f64, &str)] = &[
        (0.0, "0"),
        (1.0, "1"),
        (0.95, "0.95"),
        (65504.0, "65504"),
        (65536.0, "65536"),
        (1234567.0, "1.23457e+06"),
        (0.000123456789, "0.000123457"),
        (0.0000123456789, "1.23457e-05"),
        (32768.0, "32768"),
        (3.14159265, "3.14159"),
        (123456.7, "123457"),
        (2.5e-07, "2.5e-07"),
        (1e30, "1e+30"),
    ];
    for (x, expect) in cases {
        assert_eq!(&fmt_g6(x.to_bits()), expect, "for {x}");
    }
}

#[test]
fn band_classification() {
    assert_eq!(classify_band(0.0f64.to_bits()).name(), "A");
    assert_eq!(classify_band(32768.0f64.to_bits()).name(), "A");
    assert_eq!(classify_band(32769.0f64.to_bits()).name(), "B");
    assert_eq!(classify_band(65504.0f64.to_bits()).name(), "B");
    assert_eq!(classify_band(65505.0f64.to_bits()).name(), "C");
    assert_eq!(classify_band(f64::NAN.to_bits()).name(), "C");
    assert_eq!(classify_band((-1.0f64).to_bits()).name(), "A");
    assert_eq!(classify_band(f64::INFINITY.to_bits()).name(), "C");
}

#[test]
fn wht_butterfly_matches_reference() {
    // H_2 on [1, 0] -> [1/sqrt(2), 1/sqrt(2)]
    let mut row: Vec<u32> = vec![1.0f32.to_bits(), 0.0f32.to_bits()];
    walsh_hadamard_row(&mut row);
    let s = 1.0 / 2.0f32.sqrt();
    assert_eq!(row, vec![s.to_bits(), s.to_bits()]);
    // Orthonormality: WHT twice = identity (up to f32 rounding on d=4).
    let mut r2: Vec<u32> = [1.0f32, 2.0, 3.0, 4.0].iter().map(|x| x.to_bits()).collect();
    let orig = r2.clone();
    walsh_hadamard_row(&mut r2);
    walsh_hadamard_row(&mut r2);
    for (a, b) in r2.iter().zip(&orig) {
        assert!((f32::from_bits(*a) - f32::from_bits(*b)).abs() < 1e-5);
    }
}

#[test]
fn wht_follows_single_arithmetic() {
    for k in 0..9 {
        let d = 1usize << k;
        let mut float: Vec<f32> = (0..d)
            .map(|i| ((i * 7919 + 13) % 1009) as f32 * 0.37 - 150.0)
            .collect();
        let mut bits: Vec<u32> = float.iter().map(|x| x.to_bits()).collect();
        wht(&mut float);
        walsh_hadamard_row(&mut bits);
        let got: Vec<f32> = bits.iter().map(|b| f32::from_bits(*b)).collect();
        assert_eq!(got, float);
    }
}

#[test]
fn bf16_absmax_bit_trick() {
    // -3.0 (0xc040), 2.0 (0x4000) -> absmax 3.0
    assert_eq!(bf16_absmax(&[0xc040, 0x4000]), 3.0f64.to_bits());
    assert_eq!(bf16_absmax(&[]), 0.0f64.to_bits());
    assert_eq!(bf16_absmax(&[0x0000, 0x8000]), 0.0f64.to_bits());
}

#[test]
fn powers_of_two() {
    assert_eq!(largest_pow2_le(0), 1);
    assert_eq!(largest_pow2_le(1), 1);
    assert_eq!(largest_pow2_le(5), 4);
    assert_eq!(largest_pow2_le(5120), 4096);
    assert_eq!(largest_pow2_le(8192), 8192);
}

#[test]
fn row_scales_follow_single_arithmetic() {
    let e = elems(&[1.0, -2.0, 3.0, 70000.0, 1.0e6, -1.0]);
    let plain = t4_row_scales(&e, 3, false);
    assert_eq!(plain, vec![1.0f32.to_bits(), (wide(bf(1.0e6)) / 30000.0f32).to_bits()]);
    assert_eq!(count_scaled(&plain), 1);
    let forced = t4_row_scales(&e, 3, true);
    assert_eq!(
        forced,
        vec![(3.0f32 / 30000.0).to_bits(), (wide(bf(1.0e6)) / 30000.0f32).to_bits()]
    );
    assert_eq!(t4_row_scales(&[0, 0], 2, true), vec![1e-30f32.to_bits()]);
    // What is not a number does not count.
    assert_eq!(t4_row_scales(&[0x7fc0, bf(2.0)], 2, false), vec![1.0f32.to_bits()]);
}

#[test]
fn rotation_takes_the_front_of_each_row() {
    let mut v: Vec<u32> = [1.0f32, 2.0, 9.0, 3.0, 5.0, 8.0].iter().map(|x| x.to_bits()).collect();
    rotate_rows(&mut v, 3, 2);
    let mut a = [1.0f32, 2.0];
    let mut b = [3.0f32, 5.0];
    wht(&mut a);
    wht(&mut b);
    let want: Vec<u32> = [a[0], a[1], 9.0, b[0], b[1], 8.0].iter().map(|x| x.to_bits()).collect();
    assert_eq!(v, want);
}

#[test]
fn casts_follow_single_arithmetic() {
    let table = bf16_to_f16_table();
    let e = elems(&LARGE);
    let one = 1.0f64.to_bits();
    assert!(cast_pass2(&e, &[6], one, 0, &table).is_none());
    let scale = 1.0e6f64 / 30000.0;
    let got = cast_pass2(&e, &[6], scale.to_bits(), 0, &table).unwrap();
    let want: Vec<u16> = e.iter().map(|&b| half(wide(b) / scale as f32)).collect();
    assert_eq!(words(&got), want);
    let small = elems(&SMALL);
    let got = cast_pass2(&small, &[6], one, 0, &table).unwrap();
    let want: Vec<u16> = small.iter().map(|&b| half(wide(b))).collect();
    assert_eq!(words(&got), want);
    // A transform without rows of that length is none.
    let got = cast_pass2(&small, &[6], one, 4, &table).unwrap();
    assert_eq!(words(&got), want);
    let got = cast_pass2(&small, &[6], one, 6, &table).unwrap();
    assert_eq!(words(&got), want);
    let got = cast_pass2(&small, &[2, 3], one, 5, &table).unwrap();
    assert_eq!(words(&got), want);
}

#[test]
fn first_tier_casts_what_fits() {
    let (tsv, file) = outcome("T1", false);
    let (dtype, dims, data) = tensor(&file, "small");
    assert_eq!((dtype, dims), (T_F16, vec![3, 2]));
    let want: Vec<u16> = SMALL.iter().map(|&x| half(wide(bf(x)))).collect();
    assert_eq!(words(&data), want);
    for name in ["large", "vector", "keep.norm"] {
        assert_eq!(tensor(&file, name).0, T_BF16);
        assert_eq!(tensor(&file, name).2, le(&elems(&LARGE)));
    }
    assert_eq!(tensor(&file, "zeros"), (T_F16, vec![4], vec![0; 8]));
    assert_eq!(tensor(&file, "single"), (T_F32, vec![2], vec![1, 2, 3, 4, 5, 6, 7, 8]));
    assert_eq!(tensor(&file, "packed"), (T_Q8_0, vec![32], vec![9; 34]));
    assert_eq!(tsv[0], "name\tsrc_type\tout_type\tband\tabsmax\tn_elem\tnote");
    assert_eq!(tsv[1], "small\tBF16\tF16\tB\t65280\t6\tT1 RNE-cast (band B)");
    assert_eq!(tsv[2], "large\tBF16\tBF16\tC\t999424\t6\tT1 BF16 fallback");
    assert_eq!(tsv[4], "zeros\tBF16\tF16\tA\t0\t4\tzero-tensor");
    assert_eq!(tsv[5], "keep.norm\tBF16\tBF16\t-\t0\t6\tpolicy-preserve");
    assert_eq!(tsv[6], "single\tF32\tF32\t-\t0\t2\tpassthrough");
    assert_eq!(tsv[7], "packed\tQ8_0\tQ8_0\t-\t0\t32\tpassthrough");
}

#[test]
fn metadata_are_copied_and_extended() {
    let (_, file) = outcome("T1", true);
    let r = Reader::open(&file).unwrap();
    let keys: Vec<&str> = r.kvs.iter().map(|(k, _)| k.as_str()).collect();
    assert_eq!(
        keys,
        [
            "general.architecture",
            "general.name",
            "list",
            "count",
            "recast.tier",
            "recast.force_rescale"
        ]
    );
    assert_eq!(r.get("recast.tier"), Some(&Value::Str("T1".to_string())));
    assert_eq!(r.get("recast.force_rescale"), Some(&Value::Bool(true)));
    assert_eq!(r.get("count"), Some(&Value::U32(7)));
    let mut out = Vec::new();
    copy_kvs(&[("x".to_string(), Value::ArrBool(vec![]))], &mut out).unwrap();
    assert!(out.is_empty());
}

/// A small file with one array in its metadata.
fn with_array(v: Value) -> Vec<u8> {
    let mut w = Writer::new(Vec::new());
    w.add_kv("general.architecture", Value::Str("toy".to_string()));
    w.add_kv("list", v);
    w.add_tensor_info("v", vec![2], T_BF16, 4);
    w.write_header();
    w.write_tensor_data(&le(&elems(&[3.0, 6.0])));
    w.finish()
}

#[test]
fn arrays_of_whole_numbers_become_i32() {
    let arrays = [
        Value::ArrU8(vec![1, 2]),
        Value::ArrI8(vec![1, 2]),
        Value::ArrU16(vec![1, 2]),
        Value::ArrI16(vec![1, 2]),
        Value::ArrU32(vec![1, 2]),
        Value::ArrU64(vec![1, 2]),
        Value::ArrI64(vec![1, 2]),
    ];
    for tier in ["T1", "T2", "T3", "T4", "T5"] {
        for v in &arrays {
            let o = run(&with_array(v.clone()), "{}", tier, false).unwrap();
            let file = o.file.unwrap();
            let r = Reader::open(&file).unwrap();
            assert_eq!(r.get("list"), Some(&Value::ArrI32(vec![1, 2])));
        }
    }
    let mut out = Vec::new();
    let edges = Value::ArrI64(vec![i32::MIN as i64, i32::MAX as i64]);
    copy_kvs(&[("x".to_string(), edges)], &mut out).unwrap();
    assert_eq!(out, vec![("x".to_string(), Value::ArrI32(vec![i32::MIN, i32::MAX]))]);
}

#[test]
fn arrays_of_doubles_become_singles() {
    let doubles = vec![2.5f64.to_bits(), 0.1f64.to_bits(), 1.0e300f64.to_bits()];
    let o = run(&with_array(Value::ArrF64(doubles)), "{}", "T1", false).unwrap();
    let file = o.file.unwrap();
    let r = Reader::open(&file).unwrap();
    assert_eq!(
        r.get("list"),
        Some(&Value::ArrF32(vec![
            2.5f32.to_bits(),
            0.1f32.to_bits(),
            f32::INFINITY.to_bits()
        ]))
    );
}

#[test]
fn numbers_beyond_32_bits_are_refused() {
    for v in [
        Value::ArrU32(vec![1, 1 << 31]),
        Value::ArrU64(vec![u64::MAX]),
        Value::ArrI64(vec![i32::MIN as i64 - 1]),
    ] {
        match run(&with_array(v.clone()), "{}", "T1", false) {
            Err(RecastError::ArrayRange(key)) => assert_eq!(key, "list"),
            _ => panic!("not refused"),
        }
        let mut out = vec![("a".to_string(), Value::U8(1))];
        let e = copy_kvs(&[("b".to_string(), Value::U8(2)), ("x".to_string(), v)], &mut out);
        assert_eq!(e, Err("x".to_string()));
        assert_eq!(out, vec![("a".to_string(), Value::U8(1))]);
    }
}

#[test]
fn second_tier_scales_what_does_not_fit() {
    let max = wide(bf(1.0e6)) as f64;
    let scale = max / 30000.0;
    let (tsv, file) = outcome("T2", false);
    assert_eq!(tsv[1], "small\tBF16\tF16\tB\t65280\t6\tT2 no-rescale");
    assert_eq!(tsv[2], "large\tBF16\tF16\tC\t999424\t6\tT2 per-tensor /33.3141");
    let want: Vec<u16> = LARGE.iter().map(|&x| half(wide(bf(x)) / scale as f32)).collect();
    assert_eq!(words(&tensor(&file, "large").2), want);
    let r = Reader::open(&file).unwrap();
    assert_eq!(
        r.get("recast.scales.names"),
        Some(&Value::ArrStr(vec!["large".to_string(), "vector".to_string()]))
    );
    let bits = (scale as f32).to_bits();
    assert_eq!(r.get("recast.scales.values"), Some(&Value::ArrF32(vec![bits, bits])));
    let (tsv, _) = outcome("T3", true);
    assert_eq!(tsv[1], "small\tBF16\tF16\tB\t65280\t6\tT3 per-tensor /2.176");
}

#[test]
fn fourth_tier_records_scales_without_applying_them() {
    let mut w = Writer::new(Vec::new());
    w.add_kv("general.architecture", Value::Str("toy".to_string()));
    w.add_tensor_info("m", vec![2, 2], T_BF16, 8);
    w.add_tensor_info("v", vec![2], T_BF16, 4);
    w.write_header();
    let e = elems(&[1.0, 2.0, 30.0, 40.0]);
    w.write_tensor_data(&le(&e));
    w.write_tensor_data(&le(&elems(&[3.0, 6.0])));
    let b = w.finish();
    let o = run(&b, "{}", "T4", true).unwrap();
    let file = o.file.unwrap();
    assert_eq!(o.tsv[1], "m\tBF16\tF16\tA\t40\t4\tT4 per-channel (2/2 rows scaled)");
    assert_eq!(o.tsv[2], "v\tBF16\tF16\tA\t6\t2\tT4 falls-back-T2 /0.0002");
    let want: Vec<u16> = [1.0f32, 2.0, 30.0, 40.0].iter().map(|&x| half(x)).collect();
    assert_eq!(words(&tensor(&file, "m").2), want);
    let r = Reader::open(&file).unwrap();
    assert_eq!(r.get("recast.per_channel.names"), Some(&Value::ArrStr(vec!["m".to_string()])));
    assert_eq!(r.get("recast.per_channel.lengths"), Some(&Value::ArrI32(vec![2])));
    assert_eq!(
        r.get("recast.per_channel.values"),
        Some(&Value::ArrF32(vec![(2.0f32 / 30000.0).to_bits(), (40.0f32 / 30000.0).to_bits()]))
    );
}

#[test]
fn fifth_tier_rotates_then_scales() {
    let (tsv, file) = outcome("T5", false);
    let mut f: Vec<f32> = LARGE.iter().map(|&x| wide(bf(x))).collect();
    wht(&mut f[0..2]);
    wht(&mut f[3..5]);
    let post = f.iter().fold(0.0f32, |m, &x| m.max(x.abs())) as f64;
    let scale = (post / 30000.0).max(1e-30);
    let want: Vec<u16> = f.iter().map(|&x| half(x / scale as f32)).collect();
    assert_eq!(words(&tensor(&file, "large").2), want);
    assert_eq!(
        tsv[2],
        format!(
            "large\tBF16\tF16\tC\t999424\t6\tT5 hadamard d=2, post_absmax={}, /{}",
            fmt_g6(post.to_bits()),
            fmt_g6(scale.to_bits())
        )
    );
    assert_eq!(tsv[3], "vector\tBF16\tF16\tC\t999424\t6\tT5 falls-back-T2 /33.3141");
    let r = Reader::open(&file).unwrap();
    assert_eq!(
        r.get("recast.hadamard.names"),
        Some(&Value::ArrStr(vec!["small".to_string(), "large".to_string()]))
    );
    assert_eq!(r.get("recast.hadamard.values"), Some(&Value::ArrI32(vec![2, 2])));
}

#[test]
fn dry_run_looks_only() {
    let o = run(&sample(), POLICY, "dry-run", false).unwrap();
    assert!(o.file.is_none());
    assert_eq!(o.tsv[1], "small\tBF16\tBF16\tB\t65280\t6\tdry-run band B");
    assert_eq!(o.tsv[2], "large\tBF16\tBF16\tC\t999424\t6\tdry-run band C");
}

#[test]
fn bands_are_counted() {
    let b = sample();
    let r = Reader::open(&b).unwrap();
    let p = Policy::load(POLICY).unwrap();
    let a = analyze(&b, &r, &p, Tier::T2, false).unwrap();
    assert_eq!(count_band(&a.entries, Band::A), 1);
    assert_eq!(count_band(&a.entries, Band::B), 1);
    assert_eq!(count_band(&a.entries, Band::C), 2);
    assert_eq!(count_band(&a.entries, Band::Untouched), 3);
    assert_eq!(a.entries[5].kind, Kind::F32Passthrough);
    assert_eq!(a.entries[6].kind, Kind::RawPassthrough);
}

#[test]
fn streaming_writes_what_one_call_writes() {
    let b = sample();
    let whole = run(&b, "{}", "T1", false).unwrap().file.unwrap();
    let r = Reader::open(&b).unwrap();
    let p = Policy::load("{}").unwrap();
    let a = analyze(&b, &r, &p, Tier::T1, false).unwrap();
    let kvs = Reader::open(&whole).unwrap().kvs;
    let mut c = Recasting::start(&b, r, a.entries, kvs).unwrap();
    let mut out = c.take();
    while c.step().unwrap() {
        out.extend(c.take());
    }
    assert_eq!(out, whole);
}

#[test]
fn policies_are_patterns() {
    let p = Policy::load("preserve_bf16:\n  - '^blk\\.[0-9]+\\.attn_norm'\n  - token_embd\n").unwrap();
    assert!(p.matches_preserve("blk.12.attn_norm.weight"));
    assert!(p.matches_preserve("x.token_embd.weight"));
    assert!(!p.matches_preserve("blk.x.attn_norm.weight"));
    let none = Policy::load("{}").unwrap();
    assert!(!none.matches_preserve("token_embd"));
    assert_eq!(Policy::load("a: [").err(), Some(PolicyError::BadYaml));
    assert_eq!(Policy::load("cast_fp16: x").err(), Some(PolicyError::CastNotList));
    assert_eq!(Policy::load("preserve_bf16: {a: 1}").err(), Some(PolicyError::PreserveNotList));
    assert_eq!(Policy::load("preserve_bf16: ['(']").err(), Some(PolicyError::BadPattern));
    assert_eq!(Policy::load("cast_fp16: ['[']").err(), Some(PolicyError::BadPattern));
}

#[test]
fn policies_out_of_lists() {
    let items = |v: &[Option<&str>]| Listed::Items(v.iter().map(|t| t.map(str::to_string)).collect());
    let p = Policy::of_lists(&Listed::Absent, &items(&[Some("^a"), None, Some("b$")])).unwrap();
    assert!(p.matches_preserve("ax"));
    assert!(p.matches_preserve("xb"));
    assert!(!p.matches_preserve("bxa"));
    assert_eq!(Policy::of_lists(&Listed::NotList, &Listed::NotList).err(), Some(PolicyError::CastNotList));
    assert_eq!(
        Policy::of_lists(&Listed::Absent, &Listed::NotList).err(),
        Some(PolicyError::PreserveNotList)
    );
    let default = || vec![".*".to_string()];
    assert_eq!(find_patterns(&Listed::Absent, default()), Some(default()));
    assert_eq!(find_patterns(&items(&[None, Some("x")]), default()), Some(vec!["x".to_string()]));
    assert_eq!(find_patterns(&Listed::NotList, default()), None);
}

#[test]
fn preserved_tensors_are_planned_apart() {
    let b = sample();
    let r = Reader::open(&b).unwrap();
    let large = r.tensors.iter().find(|t| t.name == "large").unwrap();
    let kept = plan_tensor(&r, &b, large, true, Tier::T2, false).unwrap();
    assert_eq!((kept.kind, kept.out_dtype), (Kind::Bf16Passthrough, T_BF16));
    let cast = plan_tensor(&r, &b, large, false, Tier::T2, false).unwrap();
    assert!(matches!(cast.kind, Kind::CastF16 { hadamard_d: 0, .. }));
    assert_eq!((cast.out_dtype, cast.band), (T_F16, Band::C));
}

#[test]
fn recast_errors() {
    let b = sample();
    assert!(matches!(run(&b, "{}", "T6", false), Err(RecastError::UnknownTier)));
    assert!(matches!(
        run(&b, "a: [", "T1", false),
        Err(RecastError::Policy(PolicyError::BadYaml))
    ));
    assert!(matches!(
        run(b"nope", "{}", "T1", false),
        Err(RecastError::Gguf(GgufError::NotGguf))
    ));
    assert!(matches!(
        run(&b[..b.len() - 64], "{}", "T1", false),
        Err(RecastError::Gguf(GgufError::UnexpectedEof))
    ));
    let mut w = Writer::new(Vec::new());
    w.add_kv("general.architecture", Value::U32(1));
    w.write_header();
    assert!(matches!(
        run(&w.finish(), "{}", "T1", false),
        Err(RecastError::NoArchitecture)
    ));
    // Recast a second time, the recast's own entries stand in the way.
    let once = run(&b, "{}", "T1", false).unwrap().file.unwrap();
    match run(&once, "{}", "T1", false) {
        Err(RecastError::File(FileError::DuplicateKey(k))) => assert_eq!(k, "recast.tier"),
        _ => panic!("not refused"),
    }
    let mut w = Writer::new(Vec::new());
    w.add_kv("general.architecture", Value::Str("toy".to_string()));
    w.add_tensor_info("none", vec![3, 0], T_BF16, 0);
    w.write_header();
    w.write_tensor_data(&[]);
    match run(&w.finish(), "{}", "T4", false) {
        Err(RecastError::EmptyRows(name)) => assert_eq!(name, "none"),
        _ => panic!("not refused"),
    }
    // The fourth tier does not scale the rows of a matrix.
    match run(&b, "{}", "T4", false) {
        Err(RecastError::Infinite { name, scale, hadamard_d }) => {
            assert_eq!(name, "large");
            assert_eq!(scale, 1.0f64.to_bits());
            assert_eq!(hadamard_d, 0);
        }
        _ => panic!("not refused"),
    }
}

#[test]
fn scaled_casts_never_overflow() {
    for bits in [0x0001u16, 0x0002, 0x0003, 0x007f, 0x0080, 0x3f80, 0x477f, 0x4780, 0x7f7f] {
        let mut w = Writer::new(Vec::new());
        w.add_kv("general.architecture", Value::Str("toy".to_string()));
        w.add_tensor_info("v", vec![2], T_BF16, 4);
        w.write_header();
        w.write_tensor_data(&le(&[bits, bits | 0x8000]));
        let b = w.finish();
        for force in [false, true] {
            let o = run(&b, "{}", "T2", force).unwrap();
            let scale = if force || wide(bits) > 65504.0 {
                wide(bits) as f64 / 30000.0
            } else {
                1.0
            };
            let want = half(wide(bits) / scale as f32);
            assert_eq!(words(&tensor(&o.file.unwrap(), "v").2), vec![want, want | 0x8000]);
        }
    }
}

#[test]
fn transformed_rows_never_overflow() {
    let rows: [[u16; 4]; 6] = [
        [0x7f7f, 0x7f7f, 0x7f7f, 0x7f7f],
        [0x7f80, 0x3f80, 0xff80, 0x3f80],
        [0x477f, 0x477f, 0xc77f, 0x477f],
        [0x46ea, 0x46ea, 0x46ea, 0x46ea],
        [0x0001, 0x8001, 0x0001, 0x0001],
        [0x7fc0, 0x4780, 0x0000, 0x4780],
    ];
    for row in rows {
        for force in [false, true] {
            let mut w = Writer::new(Vec::new());
            w.add_kv("general.architecture", Value::Str("toy".to_string()));
            w.add_tensor_info("m", vec![1, 4], T_BF16, 8);
            w.write_header();
            w.write_tensor_data(&le(&row));
            let o = run(&w.finish(), "{}", "T5", force).unwrap();
            let halves = words(&tensor(&o.file.unwrap(), "m").2);
            assert!(halves.iter().all(|h| h & 0x7fff != 0x7c00), "{row:x?}");
        }
    }
}

#[test]
fn names_of_tiers_and_types() {
    for t in ["dry-run", "T1", "T2", "T3", "T4", "T5"] {
        assert_eq!(Tier::parse(t).unwrap().name(), t);
    }
    assert!(Tier::parse("t1").is_none());
    let o = Options {
        input: "a.gguf".to_string(),
        output: None,
        policy: "p.yaml".to_string(),
        tier: "dry-run".to_string(),
        absmax_tsv: None,
        force_rescale: false,
    };
    assert_eq!(Tier::parse(&o.tier), Some(Tier::DryRun));
    let names: Vec<&str> = [0, 1, 2, 8, 30, 43, 99].iter().map(|&t| dtype_name(t)).collect();
    assert_eq!(names, ["F32", "F16", "Q4_0", "Q8_0", "BF16", "Q4_0_AR16", "?"]);
}
