use safetensors::SafeTensors;
use std::borrow::Cow;
use web_rwkv::names::NameMap;
use web_rwkv::runtime::archive::{open, ArchiveError};
use web_rwkv::runtime::loader::{
    Dtype, Factor, HalfData, LoadOp, Loader, LoaderError, Lora, LoraBlend, LoraBlendPattern,
    MatrixPlan, Prepare, Reader, ReaderError, ReaderTensor, ShardedSafeTensors, TensorError,
    PAD_MAT, PAD_VEC,
};
use web_rwkv::runtime::model::{
    Activation, ModelCustomInfo, ModelInfo, ModelVersion, Quant, V6Info, V7Info,
};
use web_rwkv::web::{MetadataReader, SessionError, WasmSession};

/// A safetensors archive of tensors with a name, a data type, a shape and bytes.
fn archive(tensors: &[(&str, &str, &[usize], &[u8])]) -> Vec<u8> {
    let mut header = String::from("{");
    let mut data: Vec<u8> = Vec::new();
    for (i, (name, dtype, shape, bytes)) in tensors.iter().enumerate() {
        if i > 0 {
            header.push(',');
        }
        let start = data.len();
        data.extend_from_slice(bytes);
        header.push_str(&format!(
            "\"{name}\":{{\"dtype\":\"{dtype}\",\"shape\":{shape:?},\"data_offsets\":[{start},{}]}}",
            data.len()
        ));
    }
    header.push('}');
    let mut out = (header.len() as u64).to_le_bytes().to_vec();
    out.extend_from_slice(header.as_bytes());
    out.extend_from_slice(&data);
    out
}

fn metadata(shapes: &[(&str, &[usize])]) -> (NameMap<String>, NameMap<Vec<usize>>) {
    let mut names = NameMap::new();
    let mut known = NameMap::new();
    for (name, shape) in shapes {
        names.insert(name.to_string(), "file".to_string());
        known.insert(name.to_string(), shape.to_vec());
    }
    (names, known)
}

fn info(shapes: &[(&str, &[usize])]) -> Option<Result<ModelInfo, LoaderError>> {
    let (names, shapes) = metadata(shapes);
    Loader::checked_info(&MetadataReader { names: &names, shapes: &shapes })
}

const V4: [(&str, &[usize]); 5] = [
    ("blocks.0.att.time_decay", &[8]),
    ("blocks.0.att.time_first", &[2, 4]),
    ("blocks.0.att.time_mix_k", &[8]),
    ("blocks.0.att.time_mix_v", &[8]),
    ("blocks.0.att.time_mix_r", &[8]),
];

const COMMON: [(&str, &[usize]); 3] = [
    ("emb.weight", &[100, 8]),
    ("blocks.0.ffn.key.weight", &[32, 8]),
    ("blocks.1.ffn.key.weight", &[32, 8]),
];

const BRUMBY: [(&str, &[usize]); 12] = [
    ("model.embed_tokens.weight", &[100, 64]),
    ("model.layers.0.self_attn.q_proj.weight", &[64, 64]),
    ("model.layers.0.self_attn.k_proj.weight", &[32, 64]),
    ("model.layers.0.self_attn.v_proj.weight", &[32, 64]),
    ("model.layers.0.self_attn.o_proj.weight", &[64, 64]),
    ("model.layers.0.self_attn.g_proj.weight", &[4, 64]),
    ("model.layers.0.self_attn.q_norm.weight", &[16]),
    ("model.layers.0.self_attn.k_norm.weight", &[16]),
    ("model.layers.0.mlp.gate_proj.weight", &[128, 64]),
    ("model.layers.0.mlp.up_proj.weight", &[128, 64]),
    ("model.layers.0.mlp.down_proj.weight", &[64, 128]),
    ("model.layers.11.mlp.down_proj.weight", &[64, 128]),
];

const POWERCODER: [(&str, &[usize]); 6] = [
    ("model.embed_tokens.weight", &[100, 64]),
    ("model.layers.0.self_attn.q_proj.weight", &[64, 64]),
    ("model.layers.0.self_attn.k_proj.weight", &[32, 64]),
    ("model.layers.0.self_attn.g_proj.weight", &[2, 64]),
    ("model.layers.0.mlp.c_fc.weight", &[128, 64]),
    ("model.layers.0.mlp.c_proj.weight", &[64, 128]),
];

fn with(base: &[(&'static str, &'static [usize])], more: &[(&'static str, &'static [usize])]) -> Vec<(&'static str, &'static [usize])> {
    let mut all = base.to_vec();
    all.extend_from_slice(more);
    all
}

fn without(base: &[(&'static str, &'static [usize])], name: &str) -> Vec<(&'static str, &'static [usize])> {
    base.iter().filter(|t| t.0 != name).copied().collect()
}

#[test]
fn padding_is_by_eights() {
    assert_eq!(PAD_VEC, [8, 1, 1, 1]);
    assert_eq!(PAD_MAT, [8, 8, 1, 1]);
}

#[test]
fn v4_is_recognized() {
    let info = info(&with(&COMMON, &V4)).unwrap().unwrap();
    assert_eq!(info.version, ModelVersion::V4);
    assert_eq!(info.num_layer, 2);
    assert_eq!(info.num_emb, 8);
    assert_eq!(info.num_hidden, 32);
    assert_eq!(info.num_vocab, 100);
    assert_eq!(info.num_head, 1);
    assert_eq!(info.custom, ModelCustomInfo::Plain);
}

const V5: [(&str, &[usize]); 3] = [
    ("blocks.0.att.gate.weight", &[8, 8]),
    ("blocks.0.att.ln_x.weight", &[8]),
    ("blocks.0.att.ln_x.bias", &[8]),
];

#[test]
fn v5_is_recognized() {
    let found = info(&with(&with(&COMMON, &V4), &V5)).unwrap().unwrap();
    assert_eq!(found.version, ModelVersion::V5);
    assert_eq!(found.num_head, 2);
    let found = info(&with(&COMMON, &V5)).unwrap();
    assert!(matches!(found, Err(LoaderError::SafeTensor(ReaderError::TensorNotFound(n))) if n == "blocks.0.att.time_first"));
}

const V6: [(&str, &[usize]); 9] = [
    ("blocks.0.att.time_mix_x", &[8]),
    ("blocks.0.att.time_mix_w", &[8]),
    ("blocks.0.att.time_mix_g", &[8]),
    ("blocks.0.att.time_mix_w1", &[160, 8]),
    ("blocks.0.att.time_mix_w2", &[8]),
    ("blocks.0.att.time_decay_w1", &[64, 8]),
    ("blocks.0.att.time_decay_w2", &[8]),
    ("blocks.0.ffn.time_mix_k", &[8]),
    ("blocks.0.ffn.time_mix_r", &[8]),
];

#[test]
fn v6_is_recognized() {
    let found = info(&with(&with(&COMMON, &V4), &V6)).unwrap().unwrap();
    assert_eq!(found.version, ModelVersion::V6);
    assert_eq!(found.custom, ModelCustomInfo::V6(V6Info { time_mix: 32, time_decay: 64 }));
}

const V7: [(&str, &[usize]); 18] = [
    ("blocks.0.att.x_r", &[8]),
    ("blocks.0.att.x_w", &[8]),
    ("blocks.0.att.x_k", &[8]),
    ("blocks.0.att.x_v", &[8]),
    ("blocks.0.att.x_a", &[8]),
    ("blocks.0.att.x_g", &[8]),
    ("blocks.0.att.w0", &[8]),
    ("blocks.0.att.w1", &[11, 8]),
    ("blocks.0.att.w2", &[8]),
    ("blocks.0.att.a0", &[8]),
    ("blocks.0.att.a1", &[12, 8]),
    ("blocks.0.att.a2", &[8]),
    ("blocks.0.att.g1", &[13, 8]),
    ("blocks.0.att.g2", &[8]),
    ("blocks.0.att.r_k", &[4, 2]),
    ("blocks.0.att.k_k", &[8]),
    ("blocks.0.att.k_a", &[8]),
    ("blocks.1.att.v1", &[14, 8]),
];

#[test]
fn v7_is_recognized() {
    let found = info(&with(&COMMON, &V7)).unwrap().unwrap();
    assert_eq!(found.version, ModelVersion::V7);
    assert_eq!(found.num_head, 4);
    assert_eq!(found.custom, ModelCustomInfo::V7(V7Info { w: 11, a: 12, g: 13, v: 14 }));
    // It wins over earlier versions.
    let found = info(&with(&with(&with(&COMMON, &V4), &V6), &V7)).unwrap().unwrap();
    assert_eq!(found.version, ModelVersion::V7);
}

#[test]
fn brumby_is_recognized() {
    let found = info(&BRUMBY).unwrap().unwrap();
    assert_eq!(found.version, ModelVersion::Brumby);
    assert_eq!(found.num_layer, 12);
    assert_eq!(found.num_emb, 64);
    assert_eq!(found.num_vocab, 100);
    assert_eq!(found.num_hidden, 128);
    assert_eq!(found.num_head, 4);
    let ModelCustomInfo::Brumby(custom) = found.custom else { panic!() };
    assert_eq!(custom.num_kv_head, 2);
    assert_eq!(custom.head_dim, 16);
    assert_eq!(custom.intermediate_size, 128);
    assert!(custom.has_qk_norm && custom.gated_ffn);
    assert_eq!(custom.hidden_act, Activation::Silu);
    assert_eq!(f32::from_bits(custom.rope_theta()), 1_000_000.0);
    assert_eq!(custom.power_deg, 1);
}

#[test]
fn powercoder_is_recognized() {
    let found = info(&POWERCODER).unwrap().unwrap();
    assert_eq!(found.version, ModelVersion::Brumby);
    assert_eq!(found.num_layer, 1);
    assert_eq!(found.num_head, 4);
    let ModelCustomInfo::Brumby(custom) = found.custom else { panic!() };
    assert_eq!(custom.num_kv_head, 2);
    assert_eq!(custom.head_dim, 16);
    assert!(!custom.has_qk_norm && !custom.gated_ffn);
    assert_eq!(custom.hidden_act, Activation::Gelu);
    assert_eq!(f32::from_bits(custom.rope_theta()), 10_000.0);
    assert_eq!(custom.power_deg, 2);
}

#[test]
fn unknown_tensors_are_no_version() {
    assert!(matches!(info(&COMMON), Some(Err(LoaderError::InvalidVersion))));
}

#[test]
fn missing_shapes_are_named() {
    assert!(matches!(info(&[]), Some(Err(LoaderError::SafeTensor(ReaderError::TensorNotFound(n)))) if n == "emb.weight"));
    let tensors = without(&POWERCODER, "model.layers.0.self_attn.k_proj.weight");
    assert!(matches!(info(&tensors), Some(Err(LoaderError::SafeTensor(ReaderError::TensorNotFound(n)))) if n == "model.layers.0.self_attn.k_proj.weight"));
    let tensors = without(&BRUMBY, "model.layers.0.self_attn.v_proj.weight");
    assert!(matches!(info(&tensors), Some(Err(LoaderError::SafeTensor(ReaderError::TensorNotFound(n)))) if n == "emb.weight"));
}

#[test]
fn layer_indices_are_numbers() {
    for name in ["blocks.x.att", "blocks..att", "blocks.3", "blocks.-1.att"] {
        let tensors = [("emb.weight", &[1, 1][..]), (name, &[1][..])];
        assert!(matches!(info(&tensors), Some(Err(LoaderError::ParseIntError))));
    }
    let tensors = with(&BRUMBY, &[("model.layers.first.x", &[1])]);
    assert!(matches!(info(&tensors), Some(Err(LoaderError::ParseIntError))));
}

#[test]
fn shapes_that_make_no_sense_have_no_result() {
    let tensors = with(&without(&BRUMBY, "model.layers.0.self_attn.q_norm.weight"), &[("model.layers.0.self_attn.q_norm.weight", &[0])]);
    assert!(info(&tensors).is_none());
    let tensors = with(&without(&BRUMBY, "model.embed_tokens.weight"), &[("model.embed_tokens.weight", &[64])]);
    assert!(info(&tensors).is_none());
    let tensors = with(&without(&POWERCODER, "model.layers.0.self_attn.g_proj.weight"), &[("model.layers.0.self_attn.g_proj.weight", &[64])]);
    assert!(info(&tensors).is_none());
    let tensors = with(&with(&without(&COMMON, "emb.weight"), &V4), &[("emb.weight", &[64])]);
    assert!(info(&tensors).is_none());
}

#[test]
fn every_named_layer_counts() {
    let tensors = with(&with(&COMMON, &V4), &[("blocks.41.x", &[1])]);
    assert_eq!(info(&tensors).unwrap().unwrap().num_layer, 42);
}

#[test]
fn archives_are_read() {
    let bytes = archive(&[("a", "F16", &[1, 2], &[1, 2, 3, 4]), ("b", "U8", &[3], &[7, 8, 9]), ("c", "F64", &[1], &[0; 8])]);
    let st = SafeTensors::deserialize(&bytes).unwrap();
    let reader: &dyn Fn(&str) -> bool = &|name| Reader::contains(&st, name);
    assert!(reader("a") && reader("b") && !reader("d"));
    let mut names = Reader::names(&st);
    names.sort();
    assert_eq!(names, vec!["a", "b", "c"]);
    assert_eq!(Reader::shape(&st, "a").unwrap(), vec![1, 2]);
    let t = Reader::tensor(&st, "b").unwrap();
    assert_eq!(t.dtype, Dtype::U8);
    assert_eq!(t.shape, vec![3]);
    assert_eq!(t.data.as_ref(), &[7, 8, 9]);
    assert_eq!(Reader::tensor(&st, "c").unwrap().dtype, Dtype::F64);
    assert!(matches!(Reader::tensor(&st, "d"), Err(ReaderError::TensorNotFound(n)) if n == "d"));
    assert!(matches!(Reader::shape(&st, "d"), Err(ReaderError::TensorNotFound(n)) if n == "d"));
}

fn pairs(list: &[(&str, &str)]) -> Vec<(String, String)> {
    list.iter().map(|(a, b)| (a.to_string(), b.to_string())).collect()
}

#[test]
fn shards_are_read_by_the_weight_map() {
    let one = archive(&[("a", "F16", &[1], &[1, 2])]);
    let two = archive(&[("b", "F32", &[1], &[3, 4, 5, 6]), ("a", "U8", &[1], &[9])]);
    let files: [(&str, &[u8]); 2] = [("one", &one), ("two", &two)];
    let weights = pairs(&[("a", "one"), ("b", "two"), ("c", "one")]);
    let reader = ShardedSafeTensors::new(&weights, &files).unwrap();
    let mut names = reader.names();
    names.sort();
    assert_eq!(names, vec!["a", "b", "c"]);
    assert!(reader.contains("a") && reader.contains("c") && !reader.contains("d"));
    let t = reader.tensor("a").unwrap();
    assert_eq!((t.dtype, t.data.as_ref()), (Dtype::F16, &[1u8, 2][..]));
    assert_eq!(reader.tensor("b").unwrap().dtype, Dtype::F32);
    assert_eq!(reader.shape("b").unwrap(), vec![1]);
    assert!(matches!(reader.tensor("c"), Err(ReaderError::TensorNotFound(n)) if n == "c"));
    assert!(matches!(reader.shape("d"), Err(ReaderError::TensorNotFound(n)) if n == "d"));
    // The later of two files with the same name has the tensors.
    let files: [(&str, &[u8]); 2] = [("one", &one), ("one", &two)];
    let reader = ShardedSafeTensors::new(&pairs(&[("a", "one")]), &files).unwrap();
    assert_eq!(reader.tensor("a").unwrap().dtype, Dtype::U8);
}

#[test]
fn unknown_shards_are_refused() {
    let one = archive(&[("a", "F16", &[1], &[1, 2])]);
    let files: [(&str, &[u8]); 1] = [("one", &one)];
    let r = ShardedSafeTensors::new(&pairs(&[("a", "two")]), &files);
    assert!(matches!(r, Err(LoaderError::InvalidVersion)));
    let files: [(&str, &[u8]); 1] = [("one", &one[1..])];
    let r = ShardedSafeTensors::new(&pairs(&[("a", "two")]), &files);
    assert!(matches!(r, Err(LoaderError::SafeTensor(ReaderError::Malformed(_)))));
}

/// An archive whose header declares eight tensors that end at `2^64 - 8`.
fn vast() -> Vec<u8> {
    let size = (1u64 << 61) - 1;
    let mut header = String::from("{");
    for i in 0..8u64 {
        if i > 0 {
            header.push(',');
        }
        header.push_str(&format!(
            "\"t{i}\":{{\"dtype\":\"U8\",\"shape\":[{size}],\"data_offsets\":[{},{}]}}",
            i * size,
            (i + 1) * size
        ));
    }
    header.push('}');
    let mut out = (header.len() as u64).to_le_bytes().to_vec();
    out.extend_from_slice(header.as_bytes());
    out
}

#[test]
fn archives_beyond_counting_are_refused() {
    let bytes = vast();
    assert!(matches!(open(&bytes), Err(ArchiveError::TooLarge)));
    let files: [(&str, &[u8]); 1] = [("one", &bytes)];
    let r = ShardedSafeTensors::new(&pairs(&[("t0", "one")]), &files);
    assert!(matches!(
        r,
        Err(LoaderError::SafeTensor(ReaderError::Malformed(ArchiveError::TooLarge)))
    ));
    let r = WasmSession::create(&bytes, 100, 1);
    assert!(matches!(r, Some(Err(SessionError::BadFile(ArchiveError::TooLarge)))));
    // A header that promises more than is there, and other bytes that are no archive.
    let one = archive(&[("a", "F16", &[1], &[1, 2])]);
    assert!(matches!(open(&one[..one.len() - 1]), Err(ArchiveError::Format(_))));
    assert!(matches!(open(&[1, 2, 3]), Err(ArchiveError::Format(_))));
    assert!(matches!(open(&[255; 8]), Err(ArchiveError::Format(_))));
    assert_eq!(open(&one).unwrap().len(), 1);
}

#[test]
fn headers_are_read_as_the_format_says() {
    // A header that is longer than the format allows is not looked into.
    let mut bytes = vast();
    bytes.resize(8 + 100_000_001, b' ');
    bytes[..8].copy_from_slice(&100_000_001u64.to_le_bytes());
    assert!(matches!(open(&bytes), Err(ArchiveError::Format(_))));
    // Nor is one that is no text.
    let mut bytes = vast();
    let n = bytes.len() as u64 - 8;
    bytes[..8].copy_from_slice(&(n + 1).to_le_bytes());
    bytes.push(255);
    assert!(matches!(open(&bytes), Err(ArchiveError::Format(_))));
}

#[test]
fn metadata_has_no_data() {
    let (names, shapes) = metadata(&[("a", &[2, 3])]);
    let reader = MetadataReader { names: &names, shapes: &shapes };
    assert_eq!(reader.names(), vec!["a"]);
    assert_eq!(reader.shape("a").unwrap(), vec![2, 3]);
    assert!(matches!(reader.tensor("a"), Err(ReaderError::TensorNotFound(n)) if n == "metadata-only reader: a"));
}

fn tensor(dtype: Dtype, data: Vec<u8>) -> ReaderTensor<'static> {
    ReaderTensor { dtype, shape: vec![data.len()], data: Cow::Owned(data) }
}

#[test]
fn elements_are_16_bit_floats() {
    let one = 0x3c00u16.to_ne_bytes();
    let two = 0x4000u16.to_ne_bytes();
    let t = tensor(Dtype::F16, vec![one[0], one[1], two[0], two[1]]);
    assert_eq!(HalfData::from_reader(&t), Some(Ok(HalfData::Same(vec![0x3c00, 0x4000]))));
    let t = tensor(Dtype::F32, 1.5f32.to_ne_bytes().to_vec());
    assert_eq!(HalfData::from_reader(&t), Some(Ok(HalfData::Rounded(vec![1.5f32.to_bits()]))));
    let bytes = [0u8, one[0], one[1]];
    let t = ReaderTensor { dtype: Dtype::F16, shape: vec![1], data: Cow::Borrowed(&bytes[1..]) };
    assert_eq!(HalfData::from_reader(&t), Some(Ok(HalfData::Same(vec![0x3c00]))));
}

#[test]
fn other_elements_are_refused() {
    assert_eq!(HalfData::from_reader(&tensor(Dtype::BF16, vec![0, 0])), Some(Err(TensorError::Type)));
    assert_eq!(HalfData::from_reader(&tensor(Dtype::U8, vec![0])), Some(Err(TensorError::Type)));
    assert_eq!(HalfData::from_reader(&tensor(Dtype::F16, vec![0])), None);
    assert_eq!(HalfData::from_reader(&tensor(Dtype::F32, vec![0, 0, 0])), None);
}

#[test]
fn patterns_blend_by_name() {
    let half = 0.5f32.to_bits();
    let one = 1.0f32.to_bits();
    let blend = LoraBlend::full(half);
    assert_eq!(blend.0.len(), 2);
    assert_eq!(blend.factor("blocks.3.att.key.weight"), Some(half));
    assert_eq!(blend.factor("blocks.3.ln1.weight"), Some(one));
    assert_eq!(blend.factor(""), None);
    let blend = LoraBlend::default().add_layer_nominal(3, half).add_layer_matrices(12, one);
    assert_eq!(blend.factor("blocks.3.ln1.weight"), Some(half));
    assert_eq!(blend.factor("blocks.12.ffn.gate.weight"), Some(one));
    assert_eq!(blend.factor("blocks.12.ln1.weight"), None);
    assert_eq!(blend.clone().factor("blocks.3.x"), Some(half));
    let blend = LoraBlend::default().add_layer_nominal(1, half);
    assert_eq!(blend.factor("blocks.1.att.key.weight"), Some(half));
    assert_eq!(blend.factor("blocks.10.att.key.weight"), None);
    assert_eq!(blend.factor("blocks.1"), None);
    assert_eq!(blend.factor("model.layers.1.input_layernorm.weight"), Some(half));
    assert_eq!(blend.factor("model.layers.11.input_layernorm.weight"), None);
    // The last that matches has the say.
    let blend = LoraBlend::default().add_matrices(one).add_nominal(half);
    assert_eq!(blend.factor("blocks.3.att.key.weight"), Some(half));
}

#[test]
fn all_matrices_are_added_to() {
    let half = 0.5f32.to_bits();
    let one = 1.0f32.to_bits();
    let matrices = [
        "blocks.3.ffn.value.weight",
        "blocks.12.att.receptance.weight",
        "blocks.0.att.time_mix_w1",
        "blocks.0.att.time_decay_w2",
        "blocks.7.att.g2",
        "model.layers.0.self_attn.q_proj.weight",
        "model.layers.31.self_attn.g_proj.weight",
        "model.layers.0.mlp.down_proj.weight",
        "model.layers.0.mlp.c_fc.weight",
    ];
    let ends = ["head.weight", "lm_head.weight", "emb.weight", "model.embed_tokens.weight"];
    let vectors = [
        "blocks.3.ln1.weight",
        "blocks.3.att.time_decay",
        "blocks.3.att.w0",
        "model.layers.0.input_layernorm.weight",
        "model.layers.0.self_attn.q_norm.weight",
        "model.layers.0.self_attn.q_proj.bias",
        "model.layers.0.mlp.c_fc.bias",
        "model.norm.weight",
    ];
    let only = LoraBlend::default().add_matrices(half);
    let full = LoraBlend::full(half);
    for name in matrices.iter().chain(&ends) {
        assert_eq!(only.factor(name), Some(half));
        assert_eq!(full.factor(name), Some(half));
    }
    for name in vectors {
        assert_eq!(only.factor(name), None);
        assert_eq!(full.factor(name), Some(one));
    }
    // Those of one layer.
    for name in matrices {
        let layer: usize = name.split('.').find_map(|part| part.parse().ok()).unwrap();
        let own = LoraBlend::default().add_layer_matrices(layer, half);
        let other = LoraBlend::default().add_layer_matrices(layer + 1, half);
        assert_eq!(own.factor(name), Some(half));
        assert_eq!(other.factor(name), None);
    }
    let first = LoraBlend::default().add_layer_matrices(0, half);
    assert_eq!(first.factor("model.layers.0.input_layernorm.weight"), None);
    assert_eq!(first.factor("model.layers.00.self_attn.q_proj.weight"), None);
    assert_eq!(first.factor("head.weight"), None);
    assert_eq!(only.factor("model.layers.x.self_attn.q_proj.weight"), None);
}

#[test]
fn patterns_are_regular_expressions() {
    let p = LoraBlendPattern::new("a+", 7).unwrap();
    assert_eq!(p.alpha(), 7);
    assert!(p.matches("caat") && !p.matches("b"));
    assert!(p.clone().matches("a"));
    assert!(matches!(LoraBlendPattern::new("(", 7), Err(LoaderError::RegexError(_))));
}

struct Files {
    model: Vec<u8>,
    lora: Vec<u8>,
}

fn files() -> Files {
    Files {
        model: archive(&[
            ("blocks.0.att.key.weight", "F16", &[1, 2], &[1, 2, 3, 4]),
            ("blocks.0.ln1.weight", "F16", &[1], &[5, 6]),
        ]),
        lora: archive(&[
            ("blocks.0.att.key.lora.0", "F16", &[1, 2], &[1, 1, 2, 2]),
            ("blocks.0.att.key.lora.1", "F16", &[2], &[3, 3, 4, 4]),
            ("blocks.0.att.key.weight", "F16", &[1], &[9, 9]),
            ("blocks.0.ln1.weight", "F16", &[1], &[8, 8]),
        ]),
    }
}

fn loader(files: &Files) -> Loader<SafeTensors<'_>> {
    Loader {
        model: SafeTensors::deserialize(&files.model).unwrap(),
        lora: vec![Lora {
            data: SafeTensors::deserialize(&files.lora).unwrap(),
            blend: LoraBlend::full(77),
        }],
    }
}

#[test]
fn vectors_are_interpolated() {
    let files = files();
    let loader = loader(&files);
    let plan = loader.load_vector_f32("blocks.0.ln1.weight").unwrap();
    assert_eq!(plan.source.data.as_ref(), &[5, 6]);
    assert_eq!(plan.prepare, Prepare::VectorF32);
    assert_eq!(plan.ops.len(), 1);
    assert!(matches!(&plan.ops[0], LoadOp::Blend { factor: Factor::Interpolate { alpha }, tensor } if *alpha == 1.0f32.to_bits() && tensor.data.as_ref() == &[8, 8]));
    let plan = loader.load_vector_exp_f32("blocks.0.ln1.weight").unwrap();
    assert!(matches!(plan.ops[1], LoadOp::Activate(Activation::OppositeExp)));
    let plan = loader.load_vector_exp_exp_f32("blocks.0.ln1.weight").unwrap();
    assert!(matches!(plan.ops[1], LoadOp::Activate(Activation::StableExp)));
    let plan = loader.load_vector_f16("blocks.0.ln1.weight");
    assert_eq!(plan.prepare, Prepare::VectorF32);
    assert!(plan.source.is_ok() && matches!(plan.ops[1], LoadOp::Blit) && plan.ops.len() == 2);
    assert!(matches!(loader.load_vector_f32("x"), Err(LoaderError::SafeTensor(_))));
    assert!(loader.load_vector_f16("x").source.is_err());
}

#[test]
fn vectors_without_lora_stay_16_bit() {
    let files = files();
    let mut loader = loader(&files);
    loader.lora.clear();
    let plan = loader.load_vector_f16("blocks.0.ln1.weight");
    assert_eq!(plan.prepare, Prepare::VectorF16);
    assert!(plan.ops.is_empty());
}

#[test]
fn matrices_are_summed() {
    let files = files();
    let loader = loader(&files);
    let name = "blocks.0.att.key.weight";
    let plan = loader.load_matrix_f16(name).unwrap();
    assert_eq!(plan.prepare, Prepare::Matrix);
    assert_eq!(plan.ops.len(), 2);
    assert!(matches!(&plan.ops[0], LoadOp::BlendLora { factor: Factor::LowRank { alpha: 77, rank: Some(2), discount: None }, x, y } if x.data.as_ref() == &[1, 1, 2, 2] && y.data.as_ref() == &[3, 3, 4, 4]));
    assert!(matches!(&plan.ops[1], LoadOp::Blend { factor: Factor::Sum { alpha: 77, discount: None }, tensor } if tensor.data.as_ref() == &[9, 9]));
    let plan = loader.load_matrix_f16_discount(name, 5).unwrap();
    assert_eq!(plan.prepare, Prepare::DiscountedMatrix { discount: 5 });
    assert!(matches!(&plan.ops[1], LoadOp::Blend { factor: Factor::Sum { alpha: 77, discount: Some(5) }, .. }));
    assert_eq!(loader.load_in_place_matrix_f16(name).unwrap().prepare, Prepare::MatrixInPlace);
    let plan = loader.load_in_place_matrix_f16_discount(name, 5).unwrap();
    assert_eq!(plan.prepare, Prepare::DiscountedMatrixInPlace { discount: 5 });
    let plan = loader.load_matrix_f16_padded(name).unwrap();
    assert_eq!(plan.prepare, Prepare::Padded { pad: PAD_MAT });
    assert!(plan.ops.is_empty());
    assert!(loader.load_matrix_f16_padded_cpu("x").is_err());
    assert_eq!(loader.tensor_shape(name).unwrap(), vec![2, 1]);
    assert!(matches!(loader.tensor_shape("x"), Err(LoaderError::SafeTensor(_))));
}

#[test]
fn matrices_are_quantized_as_asked_for() {
    let files = files();
    let loader = loader(&files);
    let name = "blocks.0.att.key.weight";
    assert!(matches!(loader.load_matrix(name, Quant::Fp16), Ok(MatrixPlan::Fp16(plan)) if plan.prepare == Prepare::Matrix));
    for asked in [Quant::Int8, Quant::NF4, Quant::SF4] {
        let Ok(MatrixPlan::Quantized { shape, load, quant }) = loader.load_matrix(name, asked) else { panic!() };
        assert_eq!(shape, vec![2, 1]);
        assert_eq!(quant, asked);
        assert_eq!(load.unwrap().prepare, Prepare::MatrixInPlace);
    }
    let Ok(MatrixPlan::Quantized { load, .. }) = loader.load_matrix_discount(name, Quant::Int8, 3) else { panic!() };
    assert_eq!(load.unwrap().prepare, Prepare::DiscountedMatrixInPlace { discount: 3 });
    assert!(matches!(loader.load_matrix_discount(name, Quant::Fp16, 3), Ok(MatrixPlan::Fp16(_))));
    assert!(matches!(loader.load_matrix("x", Quant::Int8), Err(LoaderError::SafeTensor(_))));
}
