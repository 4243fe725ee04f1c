use gguf_recast::gguf::{
    ggml_pad, resolve_ftype, resolve_type_code, type_sizes, GgufError, Reader, Value, Writer,
    ALIGNMENT, T_F16, T_F32, T_Q8_0,
};

fn sample() -> Vec<u8> {
    let mut w = Writer::new(Vec::new());
    w.add_string("general.architecture", "llama");
    w.add_kv("a.u32", Value::U32(7));
    w.add_kv("a.f32", Value::F32(0.25f32.to_bits()));
    w.add_kv("a.arr", Value::ArrI32(vec![1, 2, 3]));
    w.add_string("a.empty", ""); // dropped
    w.add_tensor_info("t0", vec![2, 4], T_F32, 32);
    w.add_tensor_info("t1", vec![3], T_F16, 6);
    w.write_header();
    w.write_tensor_data(&[1u8; 32]);
    w.write_tensor_data(&[2u8; 6]);
    w.finish()
}

#[test]
fn writer_reader_roundtrip() {
    let bytes = sample();
    let r = Reader::open(&bytes).unwrap();
    assert_eq!(r.kvs.len(), 4);
    assert_eq!(r.get("a.u32"), Some(&Value::U32(7)));
    assert_eq!(r.tensors.len(), 2);
    assert_eq!(r.tensors[0].dims, vec![4, 2]); // reversed on disk
    assert_eq!(r.tensors[1].offset, 32); // 32-byte tensor needs no padding
    assert_eq!(r.data_start % ALIGNMENT, 0);
    let d = r.tensor_data(&bytes, &r.tensors[1]).unwrap();
    assert_eq!(d, vec![2u8; 6]);
}

#[test]
fn padding_math() {
    assert_eq!(ggml_pad(0, 32), 0);
    assert_eq!(ggml_pad(1, 32), 32);
    assert_eq!(ggml_pad(32, 32), 32);
    assert_eq!(ggml_pad(33, 32), 64);
}

#[test]
fn header_starts_with_magic_and_counts() {
    let bytes = sample();
    assert_eq!(&bytes[0..4], b"GGUF");
    assert_eq!(&bytes[4..8], &3u32.to_le_bytes());
    assert_eq!(&bytes[8..16], &2u64.to_le_bytes());
    assert_eq!(&bytes[16..24], &4u64.to_le_bytes());
    assert_eq!(&bytes[24..32], &20u64.to_le_bytes());
    assert_eq!(&bytes[32..52], b"general.architecture");
    assert_eq!(&bytes[52..56], &8u32.to_le_bytes());
    assert_eq!(&bytes[56..64], &5u64.to_le_bytes());
    assert_eq!(&bytes[64..69], b"llama");
}

#[test]
fn every_value_reads_back() {
    let values = vec![
        Value::U8(200),
        Value::I8(-3),
        Value::U16(65000),
        Value::I16(-300),
        Value::U32(u32::MAX),
        Value::I32(-70000),
        Value::F32((-1.5f32).to_bits()),
        Value::Bool(true),
        Value::Str("h\u{e9}llo \u{1f999}".to_string()),
        Value::U64(u64::MAX),
        Value::I64(i64::MIN),
        Value::F64(2.5f64.to_bits()),
        Value::ArrStr(vec!["a".to_string(), String::new()]),
        Value::ArrI32(vec![-1, 0, 1]),
        Value::ArrF32(vec![1.0f32.to_bits()]),
        Value::ArrBool(vec![true, false]),
        Value::ArrU8(vec![0, 255]),
        Value::ArrI8(vec![-128, 127]),
        Value::ArrU16(vec![65535]),
        Value::ArrI16(vec![-32768, 1]),
        Value::ArrU32(vec![u32::MAX, 0]),
        Value::ArrU64(vec![u64::MAX]),
        Value::ArrI64(vec![i64::MIN, i64::MAX]),
        Value::ArrF64(vec![2.5f64.to_bits()]),
        Value::ArrU16(vec![]),
    ];
    let mut w = Writer::new(Vec::new());
    for (i, v) in values.iter().enumerate() {
        w.add_kv(&format!("k{i}"), v.clone());
    }
    w.write_header();
    let bytes = w.finish();
    let r = Reader::open(&bytes).unwrap();
    let read: Vec<Value> = r.kvs.into_iter().map(|(_, v)| v).collect();
    assert_eq!(read, values);
}

#[test]
fn chunks_write_what_one_call_writes() {
    let mut w = Writer::new(Vec::new());
    w.add_string("general.architecture", "llama");
    w.add_kv("a.u32", Value::U32(7));
    w.add_kv("a.f32", Value::F32(0.25f32.to_bits()));
    w.add_kv("a.arr", Value::ArrI32(vec![1, 2, 3]));
    w.add_tensor_info("t0", vec![2, 4], T_F32, 32);
    w.add_tensor_info("t1", vec![3], T_F16, 6);
    w.write_header();
    assert_eq!(w.begin_tensor(), 32);
    w.write_chunk(&[1u8; 20]);
    w.write_chunk(&[]);
    w.write_chunk(&[1u8; 5]);
    w.write_chunk(&[1u8; 7]);
    w.end_tensor();
    let mut first = w.take_output();
    assert_eq!(w.begin_tensor(), 6);
    w.write_chunk(&[2u8; 6]);
    w.end_tensor();
    first.extend(w.finish());
    assert_eq!(first, sample());
}

#[test]
fn duplicate_keys_and_names_are_seen() {
    let mut w = Writer::new(Vec::new());
    w.add_string("k", "v");
    w.add_tensor_info("t", vec![1], T_F32, 4);
    assert!(w.has_key("k") && !w.has_key("t"));
    assert!(w.has_tensor("t") && !w.has_tensor("k"));
}

#[test]
fn truncated_and_foreign_bytes_are_refused() {
    let bytes = sample();
    assert_eq!(Reader::open(&bytes[..3]).err(), Some(GgufError::UnexpectedEof));
    assert_eq!(Reader::open(&bytes[..40]).err(), Some(GgufError::UnexpectedEof));
    assert_eq!(Reader::open(b"GGML....").err(), Some(GgufError::NotGguf));
    let mut v2 = bytes.clone();
    v2[4] = 2;
    assert_eq!(Reader::open(&v2).err(), Some(GgufError::UnsupportedVersion(2)));
    let mut text = bytes.clone();
    text[32] = 0xff;
    assert_eq!(Reader::open(&text).err(), Some(GgufError::BadUtf8));
    let mut scalar = bytes.clone();
    scalar[52] = 13;
    assert_eq!(Reader::open(&scalar).err(), Some(GgufError::BadScalarType));
}

fn header(kvs: u64, tensors: u64, rest: &[u8]) -> Vec<u8> {
    let mut b = b"GGUF".to_vec();
    b.extend(3u32.to_le_bytes());
    b.extend(tensors.to_le_bytes());
    b.extend(kvs.to_le_bytes());
    b.extend(rest);
    b
}

#[test]
fn arrays_keep_their_element_type() {
    let mut rest = 1u64.to_le_bytes().to_vec();
    rest.extend(b"k");
    rest.extend(9u32.to_le_bytes());
    rest.extend(10u32.to_le_bytes());
    rest.extend(2u64.to_le_bytes());
    rest.extend(7u64.to_le_bytes());
    rest.extend(u64::MAX.to_le_bytes());
    let b = header(1, 0, &rest);
    let r = Reader::open(&b).unwrap();
    assert_eq!(r.get("k"), Some(&Value::ArrU64(vec![7, u64::MAX])));
    assert_eq!(Reader::open(&b[..b.len() - 1]).err(), Some(GgufError::UnexpectedEof));
}

#[test]
fn a_tensor_without_data_needs_none() {
    let mut w = Writer::new(Vec::new());
    w.add_tensor_info("full", vec![2], T_F32, 8);
    w.add_tensor_info("none", vec![0], T_F32, 0);
    w.write_header();
    let b = w.take_output();
    let r = Reader::open(&b).unwrap();
    assert_eq!(r.tensors[1].nbytes, 0);
    assert_eq!(r.tensors[1].offset, 32);
    // Its data would start behind the end of the file.
    assert_eq!(r.tensor_data(&b, &r.tensors[1]).unwrap(), Vec::<u8>::new());
    assert_eq!(r.tensor_data(&b, &r.tensors[0]).err(), Some(GgufError::UnexpectedEof));
}

#[test]
fn unsupported_elements_and_types_are_named() {
    let mut rest = 1u64.to_le_bytes().to_vec();
    rest.extend(b"k");
    rest.extend(9u32.to_le_bytes());
    for elem in [9u32, 13] {
        let mut array = rest.clone();
        array.extend(elem.to_le_bytes());
        array.extend(0u64.to_le_bytes());
        assert_eq!(
            Reader::open(&header(1, 0, &array)).err(),
            Some(GgufError::UnsupportedArrayElement { elem, key: "k".to_string() })
        );
    }
    let tensor = |dtype: u32, dims: &[u64]| {
        let mut rest = 1u64.to_le_bytes().to_vec();
        rest.extend(b"t");
        rest.extend((dims.len() as u32).to_le_bytes());
        for d in dims {
            rest.extend(d.to_le_bytes());
        }
        rest.extend(dtype.to_le_bytes());
        rest.extend(0u64.to_le_bytes());
        header(0, 1, &rest)
    };
    assert_eq!(
        Reader::open(&tensor(999, &[4])).err(),
        Some(GgufError::UnsupportedTensorType {
            resolved: 999,
            stored: 999,
            name: "t".to_string()
        })
    );
    assert_eq!(
        Reader::open(&tensor(T_F32, &[1 << 40, 1 << 40])).err(),
        Some(GgufError::SizeOverflow { name: "t".to_string() })
    );
    let r = Reader::open(&tensor(T_Q8_0, &[64, 2])).unwrap();
    assert_eq!(r.tensors[0].nbytes, 136);
}

#[test]
fn type_table() {
    assert_eq!(type_sizes(T_F32), Some((1, 4)));
    assert_eq!(type_sizes(T_F16), Some((1, 2)));
    assert_eq!(type_sizes(T_Q8_0), Some((32, 34)));
    assert_eq!(type_sizes(4096), None);
    assert_eq!(resolve_type_code(T_F32), T_F32);
    assert_eq!(resolve_ftype(1), 1);
    for code in 0..300u32 {
        assert_eq!(resolve_type_code(resolve_type_code(code)), resolve_type_code(code));
        assert_eq!(resolve_ftype(resolve_ftype(code)), resolve_ftype(code));
    }
}
