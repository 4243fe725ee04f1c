use gguf_recast::fp::{bf16_to_f16_table, plus_one};
use gguf_recast::gguf::{Reader, Value, T_F16, T_F32, T_Q4_0, T_Q4_0_AR16};
use gguf_recast::ieee::sum::{add_single, subtract_single};
use gguf_recast::remix::config::{check_config, read_topology, Hparams};
use gguf_recast::remix::emit::{emit_tensor, make_perms};
use gguf_recast::remix::kvs::{build_kvs, card_kvs, sampling_kvs, shape_kvs};
use gguf_recast::remix::names::{filter_name, map_with_suffix, remap_mtp_layers};
use gguf_recast::remix::plan::{plan_tensors, take_tensors, Planned, Refusal, Source, Topology};
use gguf_recast::remix::run::{count_params, prepare, run, Conversion};
use gguf_recast::remix::vocab::{Vocab, TOKTYPE_NORMAL};
use gguf_recast::json::Json;
use gguf_recast::safetensors::{Dtype, ShardSet, TensorRef};

fn bf(x: f32) -> u16 {
    (x.to_bits() >> 16) as u16
}

fn wide(b: u16) -> f32 {
    f32::from_bits((b as u32) << 16)
}

fn exp_table() -> Vec<u32> {
    (0..=u16::MAX).map(|b| wide(b).exp().to_bits()).collect()
}

/// Two K heads of 16, four V heads of 32.
const CONFIG: &str = r#"{
  "architectures": ["Qwen3_5ForConditionalGeneration"],
  "quantization_config": {"quant_method": "auto-round", "bits": 4, "sym": true, "group_size": 128},
  "model_type": "qwen3_5",
  "num_hidden_layers": 9,
  "text_config": {
    "linear_num_key_heads": 2, "linear_num_value_heads": 4,
    "linear_key_head_dim": 16, "linear_value_head_dim": 32,
    "num_hidden_layers": 1, "mtp_num_hidden_layers": 1,
    "max_position_embeddings": 4096, "hidden_size": 128, "intermediate_size": 2,
    "num_attention_heads": 4, "num_key_value_heads": 2, "head_dim": 64,
    "rms_norm_eps": 1e-06, "linear_conv_kernel_dim": 4, "vocab_size": 3,
    "rope_parameters": {"rope_type": "default", "rope_theta": 10000000, "mrope_section": [11, 11, 10]},
    "partial_rotary_factor": 0.25
  }
}"#;

fn config_with(from: &str, to: &str) -> Hparams {
    assert!(CONFIG.contains(from));
    Hparams::load(CONFIG.replace(from, to).as_bytes()).unwrap()
}

struct Entry {
    name: String,
    dtype: &'static str,
    shape: Vec<usize>,
    data: Vec<u8>,
}

fn bf16(name: &str, shape: &[usize], f: impl Fn(usize) -> f32) -> Entry {
    let n: usize = shape.iter().product();
    Entry {
        name: name.to_string(),
        dtype: "BF16",
        shape: shape.to_vec(),
        data: (0..n).flat_map(|i| bf(f(i)).to_le_bytes()).collect(),
    }
}

fn code(i: usize, o: usize) -> u8 {
    ((i * 5 + o * 3 + i * o) % 16) as u8
}

/// Packed weights of `in_f` inputs and `out_f` outputs with their scales.
fn quantized(base: &str, in_f: usize, out_f: usize) -> Vec<Entry> {
    let mut words = Vec::new();
    for r in 0..in_f / 8 {
        for o in 0..out_f {
            let w = (0..8).fold(0u32, |w, k| w | (code(8 * r + k, o) as u32) << (4 * k));
            words.extend_from_slice(&w.to_le_bytes());
        }
    }
    let groups = in_f / 128;
    let scales: Vec<u8> =
        (0..groups * out_f).flat_map(|i| (0x3000u16 + i as u16).to_le_bytes()).collect();
    vec![
        Entry {
            name: format!("{base}.qweight"),
            dtype: "I32",
            shape: vec![in_f / 8, out_f],
            data: words,
        },
        Entry {
            name: format!("{base}.scales"),
            dtype: "F16",
            shape: vec![groups, out_f],
            data: scales,
        },
        Entry {
            name: format!("{base}.qzeros"),
            dtype: "I32",
            shape: vec![groups, out_f / 8],
            data: vec![0; groups * (out_f / 8) * 4],
        },
    ]
}

fn shard(entries: &[Entry]) -> Vec<u8> {
    let mut header = String::from("{");
    let mut data = Vec::new();
    for (i, e) in entries.iter().enumerate() {
        if i > 0 {
            header.push(',');
        }
        header.push_str(&format!(
            "\"{}\": {{\"dtype\": \"{}\", \"shape\": {:?}, \"data_offsets\": [{}, {}]}}",
            e.name,
            e.dtype,
            e.shape,
            data.len(),
            data.len() + e.data.len()
        ));
        data.extend_from_slice(&e.data);
    }
    header.push('}');
    let mut b = (header.len() as u64).to_le_bytes().to_vec();
    b.extend_from_slice(header.as_bytes());
    b.extend_from_slice(&data);
    b
}

const L: &str = "model.language_model.layers.0";

fn entries() -> Vec<Entry> {
    let mut v = vec![
        bf16("model.language_model.embed_tokens.weight", &[3, 128], |i| i as f32 * 0.5),
        bf16("model.language_model.norm.weight", &[128], |i| i as f32 / 64.0 - 1.0),
        bf16("lm_head.weight", &[3, 128], |i| -(i as f32)),
        bf16("model.visual.patch.weight", &[2, 2], |_| 1.0),
        bf16(&format!("{L}.input_layernorm.weight"), &[128], |i| i as f32),
        bf16(&format!("{L}.linear_attn.A_log"), &[4], |i| i as f32),
        bf16(&format!("{L}.linear_attn.dt_bias"), &[4], |i| i as f32 * 10.0),
        bf16(&format!("{L}.linear_attn.norm.weight"), &[32], |i| i as f32),
        bf16(&format!("{L}.linear_attn.in_proj_a.weight"), &[4, 128], |i| (i / 128) as f32),
        bf16(&format!("{L}.linear_attn.conv1d.weight"), &[192, 1, 4], |i| (i / 4) as f32),
        bf16("mtp.fc.weight", &[2, 4], |i| i as f32),
        bf16("mtp.layers.0.input_layernorm.weight", &[4], |_| 0.25),
    ];
    v.extend(quantized(&format!("{L}.linear_attn.in_proj_qkv"), 128, 192));
    v.extend(quantized(&format!("{L}.linear_attn.in_proj_z"), 128, 128));
    v.extend(quantized(&format!("{L}.linear_attn.out_proj"), 128, 8));
    v.extend(quantized(&format!("{L}.mlp.gate_proj"), 128, 8));
    v
}

fn vocab() -> Vocab {
    Vocab {
        tokens: vec!["a".to_string(), "b".to_string(), "c".to_string()],
        token_types: vec![TOKTYPE_NORMAL; 3],
        merges: vec!["a b".to_string()],
    }
}

fn converted() -> Vec<u8> {
    let b = shard(&entries());
    let shards = ShardSet::open(vec![&b]).unwrap();
    let hp = Hparams::load(CONFIG.as_bytes()).unwrap();
    run(
        &hp,
        &shards,
        None,
        None,
        "toy-model",
        vocab(),
        &[("eos", 2)],
        &Some("T".to_string()),
        &exp_table(),
    )
    .unwrap()
}

fn tensor(file: &[u8], name: &str) -> (u32, Vec<u64>, Vec<u8>) {
    let r = Reader::open(file).unwrap();
    let t = r.tensors.iter().find(|t| t.name == name).unwrap();
    (t.dtype, t.dims.clone(), r.tensor_data(file, t).unwrap())
}

fn halves(b: &[u8]) -> Vec<u16> {
    b.chunks_exact(2).map(|c| u16::from_le_bytes([c[0], c[1]])).collect()
}

fn singles(b: &[u8]) -> Vec<f32> {
    b.chunks_exact(4).map(|c| f32::from_le_bytes([c[0], c[1], c[2], c[3]])).collect()
}

/// Where V row `t` comes from, by the layout of heads: groups of V heads that
/// share a K head become neighbours of their kind.
fn v_row(t: usize) -> usize {
    let (nk, per, hd) = (2, 2, 32);
    let (h, d) = (t / hd, t % hd);
    let (g, k) = (h / nk, h % nk);
    (k * per + g) * hd + d
}

fn v_head(t: usize) -> usize {
    v_row(t * 32) / 32
}

#[test]
fn whole_checkpoint() {
    let file = converted();
    let r = Reader::open(&file).unwrap();
    let names: Vec<&str> = r.tensors.iter().map(|t| t.name.as_str()).collect();
    assert_eq!(
        names,
        [
            "blk.0.attn_qkv.weight",
            "blk.0.attn_gate.weight",
            "blk.0.ssm_out.weight",
            "blk.0.ffn_gate.weight",
            "output.weight",
            "token_embd.weight",
            "blk.0.attn_norm.weight",
            "blk.0.ssm_a",
            "blk.0.ssm_conv1d.weight",
            "blk.0.ssm_dt.bias",
            "blk.0.ssm_alpha.weight",
            "blk.0.ssm_norm.weight",
            "output_norm.weight",
            "blk.1.nextn.eh_proj.weight",
            "blk.1.attn_norm.weight",
        ]
    );
    assert_eq!(r.get("general.architecture"), Some(&Value::Str("qwen35".to_string())));
    assert_eq!(r.get("qwen35.block_count"), Some(&Value::U32(2)));
    assert_eq!(r.get("tokenizer.ggml.eos_token_id"), Some(&Value::U32(2)));
    assert_eq!(r.get("tokenizer.chat_template"), Some(&Value::Str("T".to_string())));
}

#[test]
fn plain_tensors() {
    let file = converted();
    let table = bf16_to_f16_table();
    let (dtype, dims, data) = tensor(&file, "token_embd.weight");
    assert_eq!((dtype, dims), (T_F16, vec![128, 3]));
    let want: Vec<u16> = (0..384).map(|i| table[bf(i as f32 * 0.5) as usize]).collect();
    assert_eq!(halves(&data), want);
    assert_eq!(halves(&data)[3], 0x3e00);

    let (dtype, _, data) = tensor(&file, "output_norm.weight");
    assert_eq!(dtype, T_F32);
    let want: Vec<f32> = (0..128).map(|i| wide(bf(i as f32 / 64.0 - 1.0)) + 1.0).collect();
    assert_eq!(singles(&data), want);

    let (_, _, data) = tensor(&file, "blk.0.ssm_norm.weight");
    assert_eq!(singles(&data), (0..32).map(|i| i as f32).collect::<Vec<f32>>());
    let (dtype, dims, data) = tensor(&file, "blk.1.nextn.eh_proj.weight");
    assert_eq!((dtype, dims), (T_F16, vec![4, 2]));
    assert_eq!(halves(&data)[1], 0x3c00);
    let (_, _, data) = tensor(&file, "blk.1.attn_norm.weight");
    assert_eq!(singles(&data), vec![1.25; 4]);
}

#[test]
fn reordered_tensors() {
    let file = converted();
    let heads: Vec<usize> = (0..4).map(v_head).collect();
    assert_eq!(heads, [0, 2, 1, 3]);
    let (dtype, _, data) = tensor(&file, "blk.0.ssm_a");
    assert_eq!(dtype, T_F32);
    let want: Vec<f32> = heads.iter().map(|&h| -((h as f32).exp())).collect();
    assert_eq!(singles(&data), want);
    let (_, _, data) = tensor(&file, "blk.0.ssm_dt.bias");
    assert_eq!(singles(&data), heads.iter().map(|&h| h as f32 * 10.0).collect::<Vec<f32>>());
    let (dtype, dims, data) = tensor(&file, "blk.0.ssm_alpha.weight");
    assert_eq!((dtype, dims), (T_F16, vec![128, 4]));
    let table = bf16_to_f16_table();
    for (row, &h) in heads.iter().enumerate() {
        assert_eq!(halves(&data)[row * 128], table[bf(h as f32) as usize]);
    }
    let (dtype, dims, data) = tensor(&file, "blk.0.ssm_conv1d.weight");
    assert_eq!((dtype, dims), (T_F32, vec![4, 192]));
    let rows = singles(&data);
    for r in 0..192 {
        let want = if r < 64 { r } else { 64 + v_row(r - 64) };
        assert_eq!(rows[r * 4], wide(bf(want as f32)));
    }
}

/// The code of input `i` of row `o` in a Q4_0 matrix of `in_f` inputs.
fn q4_0(data: &[u8], in_f: usize, o: usize, i: usize) -> (u16, u8) {
    let block = &data[(o * (in_f / 32) + i / 32) * 18..][..18];
    let d = u16::from_le_bytes([block[0], block[1]]);
    let at = i % 32;
    let c = if at < 16 { block[2 + at] & 15 } else { block[2 + at - 16] >> 4 };
    (d, c)
}

#[test]
fn quantized_weights_keep_codes_and_scales() {
    let file = converted();
    let (dtype, dims, data) = tensor(&file, "blk.0.ffn_gate.weight");
    assert_eq!((dtype, dims), (T_Q4_0, vec![128, 8]));
    let (qtype, _, qkv) = tensor(&file, "blk.0.attn_qkv.weight");
    assert_eq!(qtype, T_Q4_0);
    let (_, _, gate) = tensor(&file, "blk.0.attn_gate.weight");
    for i in 0..128 {
        for o in 0..8 {
            assert_eq!(q4_0(&data, 128, o, i), (0x3000 + o as u16, code(i, o)));
        }
        for o in 0..192 {
            let from = if o < 64 { o } else { 64 + v_row(o - 64) };
            assert_eq!(q4_0(&qkv, 128, o, i), (0x3000 + from as u16, code(i, from)));
        }
        for o in 0..128 {
            let from = v_row(o);
            assert_eq!(q4_0(&gate, 128, o, i), (0x3000 + from as u16, code(i, from)));
        }
    }
    let (dtype, dims, out) = tensor(&file, "blk.0.ssm_out.weight");
    assert_eq!((dtype, dims), (T_Q4_0_AR16, vec![128, 8]));
    for o in 0..8 {
        for i in 0..128 {
            let block = &out[(o * 8 + i / 16) * 10..][..10];
            assert_eq!(u16::from_le_bytes([block[0], block[1]]), 0x3000 + o as u16);
            let b = block[2 + i % 16 / 2];
            let c = if i % 2 == 0 { b & 15 } else { b >> 4 };
            assert_eq!(c, code(v_row(i), o));
        }
    }
}

#[test]
fn conversion_in_pieces() {
    let b = shard(&entries());
    let shards = ShardSet::open(vec![&b]).unwrap();
    let hp = Hparams::load(CONFIG.as_bytes()).unwrap();
    let p = prepare(&hp, &shards).unwrap();
    assert_eq!(count_params(&p.plan), Some(p.total));
    let kvs = build_kvs(
        &hp,
        None,
        None,
        "toy-model",
        p.total,
        vocab(),
        &[("eos", 2)],
        &Some("T".to_string()),
    )
    .unwrap();
    let exp = exp_table();
    let mut c = Conversion::start(p, &shards, &exp, kvs).unwrap();
    let mut out = c.take();
    let mut n = 0;
    while c.step().unwrap() {
        out.extend(c.take());
        n += 1;
    }
    assert_eq!(n, 15);
    assert_eq!(out, converted());
}

#[test]
fn text_configuration_overrides() {
    let hp = Hparams::load(CONFIG.as_bytes()).unwrap();
    assert_eq!(hp.u64("num_hidden_layers"), Ok(1));
    assert_eq!(hp.text("model_type"), Some("qwen3_5"));
    assert!(hp.get("nothing").is_none());
    assert_eq!(hp.u64("model_type").unwrap_err().what, Refusal::MissingParameter);
    assert_eq!(hp.number("rms_norm_eps"), Ok(1e-6f64.to_bits()));
    assert_eq!(hp.number("model_type").unwrap_err().what, Refusal::MissingParameter);
    assert_eq!(
        read_topology(&hp).unwrap(),
        Topology { num_k_heads: 2, num_v_heads: 4, head_k_dim: 16, head_v_dim: 32, n_layer: 1 }
    );
    assert_eq!(Hparams::load(b"{").err().unwrap().what, Refusal::BadJson);
}

#[test]
fn configurations_that_are_refused() {
    let what = |from: &str, to: &str| check_config(&config_with(from, to)).unwrap_err().what;
    assert_eq!(what("Qwen3_5For", "Llama"), Refusal::UnsupportedArchitecture);
    assert_eq!(what("auto-round", "gptq"), Refusal::NotAutoRound);
    assert_eq!(what("\"bits\": 4", "\"bits\": 8"), Refusal::UnsupportedBits);
    assert_eq!(what("\"sym\": true", "\"sym\": false"), Refusal::UnsupportedBits);
    assert_eq!(what("\"group_size\": 128", "\"group_size\": 64"), Refusal::UnsupportedGroupSize);
    assert!(check_config(&config_with("auto-round", "auto_round")).is_ok());
    let topo = |from: &str, to: &str| read_topology(&config_with(from, to)).unwrap_err().what;
    assert_eq!(
        topo("\"linear_num_key_heads\": 2, ", ""),
        Refusal::MissingParameter
    );
}

fn planned(list: Vec<Entry>) -> Result<Vec<Planned>, (Refusal, String)> {
    let b = shard(&list);
    let s = ShardSet::open(vec![&b]).unwrap();
    let topo =
        Topology { num_k_heads: 2, num_v_heads: 4, head_k_dim: 16, head_v_dim: 32, n_layer: 1 };
    plan_tensors(&take_tensors(&s.tensors), &topo).map_err(|e| (e.what, e.subject))
}

#[test]
fn plans_that_are_refused() {
    let refused = |list: Vec<Entry>| planned(list).unwrap_err();
    let mut q = quantized("model.layers.0.mlp.up_proj", 128, 8);
    q.remove(1);
    assert_eq!(refused(q), (Refusal::MissingScales, "model.layers.0.mlp.up_proj".to_string()));
    let mut q = quantized("model.layers.0.mlp.up_proj", 128, 8);
    q[0].dtype = "F32";
    assert_eq!(refused(q).0, Refusal::NotI32);
    assert_eq!(refused(quantized("model.layers.0.other", 128, 8)).0, Refusal::CannotMap);
    let mut t = bf16("model.norm.weight", &[4], |_| 0.0);
    t.dtype = "F32";
    assert_eq!(refused(vec![t]).0, Refusal::NotBf16);
    assert_eq!(refused(vec![bf16("odd.weight", &[4], |_| 0.0)]).0, Refusal::CannotMapTensor);
    assert_eq!(
        refused(vec![bf16("mtp.layers.x.enorm.weight", &[4], |_| 0.0)]).0,
        Refusal::BadLayer
    );
    assert_eq!(
        refused(vec![bf16("mtp.other.weight", &[4], |_| 0.0)]),
        (Refusal::UnknownMtp, "mtp.other".to_string())
    );
    assert_eq!(
        refused(vec![bf16("model.layers.0.linear_attn.in_proj_a.weight", &[4], |_| 0.0)]).0,
        Refusal::BadShape
    );
    assert_eq!(
        refused(vec![bf16("model.layers.0.input_layernorm.bias", &[2, 2], |_| 0.0)]).0,
        Refusal::RoutingMismatch
    );
}

#[test]
fn plans_of_single_tensors() {
    let p = planned(vec![bf16("model.layers.0.self_attn.q_norm.weight", &[64], |_| 0.0)]).unwrap();
    assert_eq!(p[0].gguf_name, "blk.0.attn_q_norm.weight");
    assert_eq!((p[0].dtype, p[0].nbytes, p[0].src), (T_F32, 256, Source::F32PlusOne));
    let p = planned(quantized("model.layers.7.linear_attn.out_proj", 128, 8)).unwrap();
    assert_eq!(p[0].gguf_name, "blk.7.ssm_out.weight");
    assert_eq!((p[0].dtype, p[0].nbytes, p[0].src), (T_Q4_0_AR16, 640, Source::QuantVCol));
    assert_eq!(p[0].shape, [8, 128]);
    assert_eq!(p[0].scales, Some(2));
    let p = planned(quantized("mtp.layers.0.mlp.down_proj", 128, 8)).unwrap();
    assert_eq!(p[0].gguf_name, "blk.1.ffn_down.weight");
    assert_eq!((p[0].dtype, p[0].nbytes, p[0].src), (T_Q4_0, 576, Source::QuantTrunk));
}

#[test]
fn data_that_are_refused() {
    let topo =
        Topology { num_k_heads: 2, num_v_heads: 4, head_k_dim: 16, head_v_dim: 32, n_layer: 1 };
    let perms = make_perms(&topo).unwrap();
    let halves = bf16_to_f16_table();
    let exp = exp_table();
    let refused = |list: Vec<Entry>, cut: usize| {
        let mut b = shard(&list);
        b.truncate(b.len() - cut);
        let s = ShardSet::open(vec![&b]).unwrap();
        let tensors = take_tensors(&s.tensors);
        let plan = plan_tensors(&tensors, &topo).unwrap();
        emit_tensor(&plan[0], &tensors, &s, &perms, &halves, &exp).unwrap_err().what
    };
    assert_eq!(refused(vec![bf16("model.norm.weight", &[4], |_| 0.0)], 1), Refusal::Truncated);
    let mut short = bf16("model.norm.weight", &[4], |_| 0.0);
    short.shape = vec![5];
    assert_eq!(refused(vec![short], 0), Refusal::BadShape);
    let mut q = quantized("model.layers.0.mlp.up_proj", 128, 8);
    q[1].shape = vec![8, 1];
    assert_eq!(refused(q, 0), Refusal::ScalesShape);
    assert_eq!(
        refused(quantized("model.layers.0.linear_attn.in_proj_z", 128, 8), 0),
        Refusal::PermLength
    );
    let broken =
        Topology { num_k_heads: 2, num_v_heads: 4, head_k_dim: 16, head_v_dim: 8, n_layer: 1 };
    assert_eq!(make_perms(&broken).unwrap_err().what, Refusal::BrokenBlocks);
}

#[test]
fn plain_data_of_any_size_are_streamed() {
    let hp = Hparams::load(CONFIG.as_bytes()).unwrap();
    let halves = bf16_to_f16_table();
    for n in [0usize, 3, 8, 17, 40] {
        let mut head = bf16("lm_head.weight", &[n], |i| i as f32);
        // Half an element at the end does not count.
        head.data.push(7);
        head.shape = vec![2, 4];
        let b = shard(&[head, bf16("model.norm.weight", &[4], |_| 1.0)]);
        let shards = ShardSet::open(vec![&b]).unwrap();
        let file =
            run(&hp, &shards, None, None, "toy", vocab(), &[], &None, &exp_table()).unwrap();
        let r = Reader::open(&file).unwrap();
        assert_eq!(r.tensors[0].name, "output.weight");
        assert_eq!((r.tensors[0].dtype, r.tensors[0].nbytes), (T_F16, 16));
        assert_eq!(r.tensors[1].offset, 32);
        let mut want: Vec<u8> =
            (0..n).flat_map(|i| halves[bf(i as f32) as usize].to_le_bytes()).collect();
        want.resize(want.len().div_ceil(32) * 32, 0);
        want.extend([2.0f32; 4].iter().flat_map(|x| x.to_le_bytes()));
        want.resize(want.len().div_ceil(32) * 32, 0);
        assert_eq!(&file[r.data_start as usize..], &want[..]);
        if n == 8 {
            let data = r.tensor_data(&file, &r.tensors[0]).unwrap();
            assert_eq!(data, want[..16]);
            let data = r.tensor_data(&file, &r.tensors[1]).unwrap();
            assert_eq!(data, want[32..48]);
        }
    }
}

#[test]
fn whole_conversions_that_are_refused() {
    let refused = |list: Vec<Entry>, hp: &Hparams| {
        let b = shard(&list);
        let shards = ShardSet::open(vec![&b]).unwrap();
        let exp = exp_table();
        run(hp, &shards, None, None, "toy", vocab(), &[], &None, &exp).unwrap_err().what
    };
    let hp = Hparams::load(CONFIG.as_bytes()).unwrap();
    let same = || bf16("model.norm.weight", &[4], |_| 0.0);
    let other = || bf16("model.language_model.norm.weight", &[4], |_| 0.0);
    assert_eq!(refused(vec![same(), other()], &hp), Refusal::DuplicateTensor);
    assert_eq!(
        refused(vec![same()], &config_with("\"qwen3_5\"", "\"other\"")),
        Refusal::UnknownModelType
    );
    assert_eq!(
        refused(vec![same()], &config_with("\"rope_type\": \"default\"", "\"rope_type\": \"yarn\"")),
        Refusal::RopeScaling
    );
    assert_eq!(
        refused(
            vec![same()],
            &config_with("\"linear_value_head_dim\": 32", "\"linear_value_head_dim\": 8")
        ),
        Refusal::BrokenBlocks
    );
    let mut huge = same();
    huge.shape = vec![1 << 31, 1 << 31];
    huge.name = "lm_head.weight".to_string();
    assert_eq!(refused(vec![huge], &hp), Refusal::TooManyParameters);
}

fn huge(nbytes: u64) -> Planned {
    Planned {
        gguf_name: format!("t{nbytes}"),
        dtype: T_F16,
        shape: vec![1],
        nbytes,
        tensor: 0,
        scales: None,
        src: Source::Bf16ToF16,
    }
}

#[test]
fn the_first_refusal_is_given() {
    let refused = |list: Vec<Entry>, changes: &[(&str, &str)]| {
        let config = changes.iter().fold(CONFIG.to_string(), |c, (from, to)| {
            assert!(c.contains(from));
            c.replace(from, to)
        });
        let b = shard(&list);
        let shards = ShardSet::open(vec![&b]).unwrap();
        let hp = Hparams::load(config.as_bytes()).unwrap();
        let e = run(&hp, &shards, None, None, "m", vocab(), &[], &None, &exp_table()).unwrap_err();
        (e.what, e.subject)
    };
    let norm = || vec![bf16("model.norm.weight", &[4], |_| 0.0)];
    let heads = ("\"linear_num_key_heads\": 2", "\"linear_num_key_heads\": 3");
    let yarn = ("\"rope_type\": \"default\"", "\"rope_type\": \"yarn\"");
    let broken = ("\"linear_value_head_dim\": 32", "\"linear_value_head_dim\": 8");
    assert_eq!(refused(norm(), &[heads, yarn]).0, Refusal::ParameterRange);
    let mut no_scales = quantized("model.layers.0.mlp.up_proj", 128, 8);
    no_scales.remove(1);
    assert_eq!(refused(no_scales, &[heads]).0, Refusal::MissingScales);
    assert_eq!(
        refused(norm(), &[yarn, broken, ("\"head_dim\": 64,", ""), ("\"qwen3_5\"", "\"x\"")]),
        (Refusal::RopeScaling, "yarn".to_string())
    );
    assert_eq!(
        refused(norm(), &[broken, ("\"vocab_size\": 3,", ""), ("\"qwen3_5\"", "\"x\"")]),
        (Refusal::UnknownModelType, "x".to_string())
    );
    assert_eq!(
        refused(norm(), &[broken, ("\"vocab_size\": 3,", "")]),
        (Refusal::MissingParameter, "vocab_size".to_string())
    );
    assert_eq!(refused(norm(), &[broken]).0, Refusal::BrokenBlocks);
}

#[test]
fn files_that_cannot_be_started() {
    let b = shard(&[bf16("lm_head.weight", &[1, 1], |_| 0.0)]);
    let shards = ShardSet::open(vec![&b]).unwrap();
    let hp = Hparams::load(CONFIG.as_bytes()).unwrap();
    let exp = exp_table();
    let mut p = prepare(&hp, &shards).unwrap();
    p.plan = vec![huge(u64::MAX - 40), huge(64)];
    assert_eq!(
        Conversion::start(p, &shards, &exp, vec![]).err().unwrap().what,
        Refusal::TooLarge
    );
    let p = prepare(&hp, &shards).unwrap();
    let twice = vec![("k".to_string(), Value::U8(1)), ("k".to_string(), Value::U8(2))];
    let e = Conversion::start(p, &shards, &exp, twice).err().unwrap();
    assert_eq!((e.what, e.subject.as_str()), (Refusal::DuplicateKey, "k"));
}

fn value(kvs: &[(String, Value)], key: &str) -> Option<Value> {
    kvs.iter().find(|(k, _)| k == key).map(|(_, v)| v.clone())
}

#[test]
fn shape_entries() {
    let kvs = shape_kvs(&Hparams::load(CONFIG.as_bytes()).unwrap()).unwrap();
    let get = |key: &str| value(&kvs, key).unwrap();
    assert_eq!(get("qwen35.context_length"), Value::U32(4096));
    assert_eq!(get("qwen35.rope.dimension_sections"), Value::ArrI32(vec![11, 11, 10, 0]));
    assert_eq!(get("qwen35.rope.freq_base"), Value::F32(1.0e7f32.to_bits()));
    assert_eq!(
        get("qwen35.attention.layer_norm_rms_epsilon"),
        Value::F32((1e-6f64 as f32).to_bits())
    );
    assert_eq!(get("qwen35.ssm.inner_size"), Value::U32(128));
    assert_eq!(get("qwen35.full_attention_interval"), Value::U32(4));
    assert_eq!(get("qwen35.rope.dimension_count"), Value::U32(16));
    assert_eq!(get("qwen35.nextn_predict_layers"), Value::U32(1));
    assert_eq!(get("general.file_type"), Value::U32(1));
    assert_eq!(get("general.quantization_version"), Value::U32(2));
}

#[test]
fn sampling_entries() {
    let g = Json::parse(b"{\"top_k\": 20, \"top_p\": 0.95, \"temperature\": 1, \"sequence\": \"x\", \"mirostat\": \"no\"}").unwrap();
    let kvs = sampling_kvs(&g);
    let keys: Vec<&str> = kvs.iter().map(|(k, _)| k.as_str()).collect();
    assert_eq!(
        keys,
        [
            "general.sampling.sequence",
            "general.sampling.top_k",
            "general.sampling.top_p",
            "general.sampling.temp"
        ]
    );
    assert_eq!(kvs[1].1, Value::I32(20));
    assert_eq!(kvs[2].1, Value::F32(0.95f32.to_bits()));
    assert_eq!(kvs[3].1, Value::F32(1.0f32.to_bits()));
}

#[test]
fn card_entries() {
    let card = Json::parse(
        b"{\"license\": [\"a\", \"b\"], \"base_model\": \"Qwen/Qwen3.5-27B\", \
          \"tags\": [\"x\"], \"pipeline_tag\": \"y\", \"language\": \"en\"}",
    )
    .unwrap();
    let kvs = card_kvs(&card, 27_000_000_000).unwrap();
    let get = |key: &str| value(&kvs, key);
    assert_eq!(get("general.license"), Some(Value::Str("a,b".to_string())));
    assert_eq!(get("general.base_model.count"), Some(Value::U32(1)));
    assert_eq!(get("general.base_model.0.organization"), Some(Value::Str("Qwen".to_string())));
    assert_eq!(
        get("general.base_model.0.repo_url"),
        Some(Value::Str("https://huggingface.co/Qwen/Qwen3.5-27B".to_string()))
    );
    assert_eq!(
        get("general.tags"),
        Some(Value::ArrStr(vec!["x".to_string(), "y".to_string()]))
    );
    assert_eq!(get("general.languages"), Some(Value::ArrStr(vec!["en".to_string()])));
    let refused = |s: &str| card_kvs(&Json::parse(s.as_bytes()).unwrap(), 1).unwrap_err().what;
    assert_eq!(refused("{\"base_model\": \"https://x/y\"}"), Refusal::UrlBaseModel);
    assert_eq!(refused("{\"datasets\": []}"), Refusal::Datasets);
}

#[test]
fn card_and_directory_give_the_name() {
    let hp = Hparams::load(CONFIG.as_bytes()).unwrap();
    let build = |readme: Option<&str>| {
        build_kvs(&hp, readme, Some(b"{\"top_k\": 5}"), "My-Model-7B", 7_000_000_000, vocab(), &[], &None)
            .unwrap()
    };
    let kvs = build(None);
    assert_eq!(value(&kvs, "general.name"), Some(Value::Str("My Model 7B".to_string())));
    assert_eq!(value(&kvs, "general.size_label"), Some(Value::Str("7B".to_string())));
    assert_eq!(value(&kvs, "general.sampling.top_k"), Some(Value::I32(5)));
    let kvs = build(Some("---\nname: Card\nauthor: me\n---\n"));
    assert_eq!(value(&kvs, "general.name"), Some(Value::Str("Card".to_string())));
    assert_eq!(value(&kvs, "general.author"), Some(Value::Str("me".to_string())));
    assert_eq!(
        build_kvs(&hp, Some("---\n: [\n---\n"), None, "d", 1, vocab(), &[], &None).unwrap_err().what,
        Refusal::BadCard
    );
}

#[test]
fn names_are_filtered_and_mapped() {
    assert_eq!(filter_name("model.visual.x"), None);
    assert_eq!(filter_name("mlp1.weight"), None);
    assert_eq!(filter_name("mtp.visual.x").as_deref(), Some("mtp.visual.x"));
    assert_eq!(filter_name("model.language_model.norm.weight").as_deref(), Some("model.norm.weight"));
    assert_eq!(
        filter_name("a.e_score_correction_bias").as_deref(),
        Some("a.e_score_correction.bias")
    );
    assert_eq!(map_with_suffix("lm_head.weight").as_deref(), Some("output.weight"));
    assert_eq!(
        map_with_suffix("model.layers.12.self_attn.o_proj.bias").as_deref(),
        Some("blk.12.attn_output.bias")
    );
    assert_eq!(map_with_suffix("model.layers.x.mlp.up_proj.weight"), None);
    // No two names are called the same.
    let mut called = std::collections::BTreeSet::new();
    let mut count = 0;
    for layer in ["1", "11", "01"] {
        for part in [
            "self_attn.q_proj",
            "self_attn.q_norm",
            "self_attn.k_proj",
            "mlp.gate_proj",
            "linear_attn.in_proj_z",
            "linear_attn.A_log",
        ] {
            for suffix in ["", ".weight", ".bias"] {
                let name = format!("model.layers.{layer}.{part}{suffix}");
                let to = map_with_suffix(&name).unwrap();
                assert_eq!(to.ends_with(".weight"), suffix == ".weight");
                assert_eq!(to.ends_with(".bias"), suffix == ".bias");
                called.insert(to);
                count += 1;
            }
        }
    }
    assert_eq!(called.len(), count);
    assert_eq!(map_with_suffix("model.layers.3.linear_attn.A_log").as_deref(), Some("blk.3.ssm_a"));
    assert_eq!(remap_mtp_layers("mtp.layers.2.mlp.up_proj", 60), "model.layers.62.mlp.up_proj");
    assert_eq!(remap_mtp_layers("mtp.layers.x.y", 60), "mtp.layers.x.y");
}

#[test]
fn sums_follow_single_arithmetic() {
    let mut samples: Vec<f32> = vec![
        0.0,
        -0.0,
        1.0,
        -1.0,
        1.5,
        f32::MIN_POSITIVE,
        1e-45,
        -1e-45,
        3e-42,
        f32::MAX,
        -f32::MAX,
        f32::INFINITY,
        f32::NEG_INFINITY,
        16777216.0,
        16777217.0,
        0.99999994,
        -0.99999994,
        1e20,
        -1e20,
        1e-20,
        1.0000001,
    ];
    let mut x = 12345u32;
    for _ in 0..60 {
        x = x.wrapping_mul(1664525).wrapping_add(1013904223);
        let f = f32::from_bits(x);
        if !f.is_nan() {
            samples.push(f);
        }
    }
    for &a in &samples {
        for &b in &samples {
            let sum = f32::from_bits(add_single(a.to_bits(), b.to_bits()));
            let difference = f32::from_bits(subtract_single(a.to_bits(), b.to_bits()));
            if (a + b).is_nan() {
                assert!(sum.is_nan());
            } else {
                assert_eq!(sum.to_bits(), (a + b).to_bits(), "{a} + {b}");
            }
            if (a - b).is_nan() {
                assert!(difference.is_nan());
            } else {
                assert_eq!(difference.to_bits(), (a - b).to_bits(), "{a} - {b}");
            }
        }
        assert_eq!(plus_one(a.to_bits()), (a + 1.0).to_bits());
    }
    assert!(f32::from_bits(add_single(f32::NAN.to_bits(), 1.0f32.to_bits())).is_nan());
    assert!(f32::from_bits(subtract_single(1.0f32.to_bits(), f32::NAN.to_bits())).is_nan());
}

#[test]
fn references_keep_their_shape() {
    let t = TensorRef { shard: 0, dtype: Dtype::BF16, shape: vec![2, 3], start: 8, len: 12 };
    let u = t.clone();
    assert_eq!((u.shape, u.start, u.len), (vec![2, 3], 8, 12));
}
