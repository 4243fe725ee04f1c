use gguf_recast::json::Json;
use gguf_recast::remix::config::{part_names, parts_in};
use gguf_recast::remix::plan::Refusal;
use gguf_recast::safetensors::{read_header, words16, Dtype, ShardError, ShardSet};

fn shard(header: &str, data: &[u8]) -> Vec<u8> {
    let mut b = (header.len() as u64).to_le_bytes().to_vec();
    b.extend_from_slice(header.as_bytes());
    b.extend_from_slice(data);
    b
}

#[test]
fn tensors_come_by_shard_and_name() {
    let a = shard(
        "{\"__metadata__\": {\"format\": \"pt\"}, \
         \"z\": {\"dtype\": \"BF16\", \"shape\": [2], \"data_offsets\": [4, 8]}, \
         \"b.10\": {\"dtype\": \"I32\", \"shape\": [1, 1], \"data_offsets\": [0, 4]}, \
         \"b.2\": {\"dtype\": \"F32\", \"shape\": [], \"data_offsets\": [8, 12]}}",
        &[1, 0, 0, 0x80, 5, 6, 7, 8, 9, 10, 11, 12],
    );
    let b = shard(
        "{\"a\": {\"dtype\": \"F16\", \"shape\": [1], \"data_offsets\": [0, 2]}}",
        &[0x34, 0x12],
    );
    let s = ShardSet::open(vec![&a, &b]).unwrap();
    let names: Vec<&str> = s.tensors.iter().map(|(n, _)| n.as_str()).collect();
    assert_eq!(names, ["b.10", "b.2", "z", "a"]);
    let t = &s.tensors[0].1;
    assert_eq!((t.shard, t.dtype, t.shape.as_slice()), (0, Dtype::I32, &[1usize, 1][..]));
    assert!(s.has(t));
    assert_eq!(s.i32_elems(t), vec![0x8000_0001]);
    assert_eq!(s.u16_elems(&s.tensors[2].1), vec![0x0605, 0x0807]);
    assert_eq!(s.bytes(&s.tensors[3].1), &[0x34, 0x12]);
    assert_eq!(s.tensors[3].1.dtype, Dtype::F16);
    assert_eq!(s.tensors[1].1.dtype, Dtype::F32);
    assert_eq!(words16(&[1, 2, 3]), vec![0x0201]);
}

#[test]
fn data_beyond_the_shard_are_not_there() {
    let a = shard("{\"t\": {\"dtype\": \"BF16\", \"shape\": [2], \"data_offsets\": [0, 4]}}", &[1, 2]);
    let s = ShardSet::open(vec![&a]).unwrap();
    assert!(!s.has(&s.tensors[0].1));
}

#[test]
fn shard_errors() {
    let open = |b: &[u8]| ShardSet::open(vec![b]).err();
    assert_eq!(open(&[1, 2]), Some(ShardError::UnexpectedEof));
    assert_eq!(open(&9u64.to_le_bytes()), Some(ShardError::UnexpectedEof));
    assert_eq!(open(&shard("{", &[])), Some(ShardError::BadJson));
    assert_eq!(open(&shard("[1]", &[])), Some(ShardError::BadHeader));
    assert_eq!(
        open(&shard("{\"t\": {\"dtype\": \"I8\"}}", &[])),
        Some(ShardError::UnsupportedDtype("I8".to_string()))
    );
    assert_eq!(
        open(&shard("{\"t\": {\"dtype\": \"F32\"}}", &[])),
        Some(ShardError::MissingOffsets)
    );
    assert_eq!(
        open(&shard("{\"t\": {\"dtype\": \"F32\", \"data_offsets\": [4, 0]}}", &[])),
        Some(ShardError::BadOffsets)
    );
    assert_eq!(
        Dtype::parse("U8").err(),
        Some(ShardError::UnsupportedDtype("U8".to_string()))
    );
}

#[test]
fn parts_are_sorted_and_unique() {
    let index = b"{\"weight_map\": {\"x\": \"b.safetensors\", \"y\": \"a.safetensors\", \
                  \"z\": \"b.safetensors\", \"n\": 5}}";
    assert_eq!(part_names(index).unwrap(), ["a.safetensors", "b.safetensors"]);
    assert_eq!(part_names(b"{}").unwrap_err().what, Refusal::NoWeightMap);
    assert_eq!(part_names(b"{").unwrap_err().what, Refusal::BadJson);
}

#[test]
fn headers_follow_one_another() {
    let first = b"{\"y\": {\"dtype\": \"F16\", \"shape\": [1], \"data_offsets\": [2, 4]}, \
                  \"x\": {\"dtype\": \"F16\", \"shape\": [1], \"data_offsets\": [0, 2]}}";
    let second = b"{\"a\": {\"dtype\": \"F32\", \"shape\": [1], \"data_offsets\": [0, 4]}}";
    let mut refs = Vec::new();
    assert_eq!(read_header(&mut refs, 0, 100, &Json::parse(first).unwrap()), Ok(()));
    assert_eq!(read_header(&mut refs, 1, 50, &Json::parse(second).unwrap()), Ok(()));
    let places: Vec<(&str, usize, usize, usize)> =
        refs.iter().map(|(n, t)| (n.as_str(), t.shard, t.start, t.len)).collect();
    assert_eq!(places, [("x", 0, 100, 2), ("y", 0, 102, 2), ("a", 1, 50, 4)]);
    assert_eq!(read_header(&mut refs, 2, 0, &Json::Null), Err(ShardError::BadHeader));
}

#[test]
fn parts_of_a_parsed_index() {
    let index = Json::parse(b"{\"weight_map\": {\"x\": \"b\", \"y\": \"a\", \"z\": \"b\"}}").unwrap();
    assert_eq!(parts_in(&index).unwrap(), ["a", "b"]);
    assert_eq!(parts_in(&Json::Null).unwrap_err().what, Refusal::NoWeightMap);
}
