use gguf_recast::gguf::output::FileError;
use gguf_recast::gguf::reader::{GgufError, Reader};
use gguf_recast::gguf::writer::Writer;
use gguf_recast::gguf::{Value, T_F32, T_Q4_0_AR16};
use gguf_recast::migrate::{run, start, MigrateError};

fn legacy(ftype: Value) -> Vec<u8> {
    let mut w = Writer::new(Vec::new());
    w.add_kv("general.architecture", Value::Str("toy".to_string()));
    w.add_kv("general.ftype", ftype);
    w.add_kv("empty.text", Value::Str(String::new()));
    w.add_kv("empty.list", Value::ArrStr(vec![]));
    w.add_kv("scale", Value::F32(1.5f32.to_bits()));
    w.add_kv("long", Value::ArrU64(vec![1, u64::MAX]));
    w.add_kv("none", Value::ArrF64(vec![]));
    w.add_tensor_info("old", vec![2, 16], 42, 20);
    w.add_tensor_info("other", vec![2], T_F32, 8);
    w.write_header();
    w.write_tensor_data(&[3; 20]);
    w.write_tensor_data(&[1, 2, 3, 4, 5, 6, 7, 8]);
    w.finish()
}

#[test]
fn codes_move_and_data_stay() {
    let b = legacy(Value::U32(28));
    let m = run(&b).unwrap();
    assert_eq!(m.ftype, Some(29));
    assert_eq!(m.moved.len(), 1);
    assert_eq!((m.moved[0].name.as_str(), m.moved[0].from, m.moved[0].to), ("old", 42, 43));
    let before = Reader::open(&b).unwrap();
    let after = Reader::open(&m.file).unwrap();
    assert_eq!(after.kvs.len(), before.kvs.len());
    for ((k, v), (l, u)) in before.kvs.iter().zip(&after.kvs) {
        assert_eq!(k, l);
        if k != "general.ftype" {
            assert_eq!(v, u);
        }
    }
    assert_eq!(after.get("general.ftype"), Some(&Value::U32(29)));
    assert_eq!(after.tensors[0].dtype_orig, T_Q4_0_AR16);
    for (t, u) in before.tensors.iter().zip(&after.tensors) {
        assert_eq!((&t.name, &t.dims, t.dtype, t.nbytes), (&u.name, &u.dims, u.dtype, u.nbytes));
        assert_eq!(
            before.tensor_data(&b, t).unwrap(),
            after.tensor_data(&m.file, u).unwrap()
        );
    }
}

#[test]
fn migrating_again_changes_nothing() {
    let once = run(&legacy(Value::I32(28))).unwrap();
    let after = Reader::open(&once.file).unwrap();
    assert_eq!(after.get("general.ftype"), Some(&Value::I32(29)));
    let twice = run(&once.file).unwrap();
    assert!(twice.moved.is_empty());
    assert_eq!(twice.file, once.file);
    assert_eq!(twice.ftype, Some(29));
}

#[test]
fn an_architecture_that_is_no_text_stays() {
    let mut w = Writer::new(Vec::new());
    w.add_kv("general.architecture", Value::U32(5));
    w.add_kv("general.ftype", Value::U32(28));
    w.write_header();
    let m = run(&w.finish()).unwrap();
    let after = Reader::open(&m.file).unwrap();
    assert_eq!(
        after.kvs,
        vec![
            ("general.architecture".to_string(), Value::U32(5)),
            ("general.ftype".to_string(), Value::U32(29)),
        ]
    );
}

#[test]
fn migration_in_pieces() {
    let b = legacy(Value::U32(1));
    let mut m = start(&b).unwrap();
    let mut out = m.work.take();
    while m.work.step().unwrap() {
        out.extend(m.work.take());
    }
    assert_eq!(out, run(&b).unwrap().file);
    assert_eq!(m.ftype, Some(1));
}

#[test]
fn migration_errors() {
    assert!(matches!(
        run(&legacy(Value::Str("x".to_string()))),
        Err(MigrateError::FtypeNotInteger)
    ));
    assert!(matches!(run(b""), Err(MigrateError::Gguf(GgufError::UnexpectedEof))));
    let b = legacy(Value::U32(1));
    assert!(matches!(
        run(&b[..b.len() - 32]),
        Err(MigrateError::Gguf(GgufError::UnexpectedEof))
    ));
    // The same key twice, which a writer would not write.
    let mut w = Writer::new(Vec::new());
    w.add_kv("aa", Value::U32(1));
    w.add_kv("ab", Value::U32(2));
    w.write_header();
    let mut twice = w.finish();
    let at = twice.windows(2).position(|p| p == b"ab").unwrap();
    twice[at + 1] = b'a';
    match run(&twice) {
        Err(MigrateError::File(FileError::DuplicateKey(k))) => assert_eq!(k, "aa"),
        _ => panic!("not refused"),
    }
    let mut w = Writer::new(Vec::new());
    w.add_tensor_info("ta", vec![1], T_F32, 4);
    w.add_tensor_info("tb", vec![1], T_F32, 4);
    w.write_header();
    w.write_tensor_data(&[0; 4]);
    w.write_tensor_data(&[0; 4]);
    let mut twice = w.finish();
    let at = twice.windows(2).position(|p| p == b"tb").unwrap();
    twice[at + 1] = b'a';
    match run(&twice) {
        Err(MigrateError::File(FileError::DuplicateTensor(k))) => assert_eq!(k, "ta"),
        _ => panic!("not refused"),
    }
}

#[test]
fn sizes_beyond_64_bits_are_refused() {
    let mut w = Writer::new(Vec::new());
    w.add_tensor_info("a", vec![1 << 61], T_F32, 0);
    w.add_tensor_info("b", vec![1 << 61], T_F32, 0);
    w.write_header();
    let b = w.take_output();
    assert!(matches!(run(&b), Err(MigrateError::File(FileError::TooLarge))));
}
