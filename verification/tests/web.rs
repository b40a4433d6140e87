use safetensors::SafeTensors;
use web_rwkv::runtime::assembly::{MatrixSource, Slot};
use web_rwkv::runtime::brumby::{Ffn, DEFAULT_RESCALE, DEFAULT_SEP};
use web_rwkv::runtime::bundle::Bundle;
use web_rwkv::runtime::loader::{Dtype, LoaderError};
use web_rwkv::runtime::model::{Activation, ModelCustomInfo, ModelInfo, ModelVersion, Quant};
use web_rwkv::runtime::state::{Reset, StatePlane};
use web_rwkv::web::{
    activation_text, bool_text, debug_count, quant_map, Fetched, InferStep, SessionError, Span,
    Stage, Upload, WasmSession, WasmSessionBuilder,
};

type Builder = WasmSessionBuilder<char, String, String, String>;

/// A safetensors archive of zeros, of tensors with a name and a shape.
fn archive(tensors: &[(&str, Vec<usize>)]) -> Vec<u8> {
    let mut header = String::from("{");
    let mut at = 0;
    for (i, (name, shape)) in tensors.iter().enumerate() {
        if i > 0 {
            header.push(',');
        }
        let end = at + 2 * shape.iter().product::<usize>();
        header.push_str(&format!(
            "\"{name}\":{{\"dtype\":\"F16\",\"shape\":{shape:?},\"data_offsets\":[{at},{end}]}}"
        ));
        at = end;
    }
    header.push('}');
    let mut out = (header.len() as u64).to_le_bytes().to_vec();
    out.extend_from_slice(header.as_bytes());
    out.resize(out.len() + at, 0);
    out
}

fn layer(index: usize) -> Vec<(String, Vec<usize>)> {
    [
        ("input_layernorm.weight", vec![16]),
        ("self_attn.q_proj.weight", vec![16, 16]),
        ("self_attn.k_proj.weight", vec![8, 16]),
        ("self_attn.v_proj.weight", vec![8, 16]),
        ("self_attn.o_proj.weight", vec![16, 16]),
        ("self_attn.g_proj.weight", vec![4, 16]),
        ("self_attn.q_norm.weight", vec![4]),
        ("self_attn.k_norm.weight", vec![4]),
        ("post_attention_layernorm.weight", vec![16]),
        ("mlp.gate_proj.weight", vec![32, 16]),
        ("mlp.up_proj.weight", vec![32, 16]),
        ("mlp.down_proj.weight", vec![16, 32]),
    ]
    .into_iter()
    .map(|(name, shape)| (format!("model.layers.{index}.{name}"), shape))
    .collect()
}

fn tensors() -> Vec<(String, Vec<usize>)> {
    let mut all = vec![
        ("model.embed_tokens.weight".to_string(), vec![100, 16]),
        ("model.norm.weight".to_string(), vec![16]),
        ("lm_head.weight".to_string(), vec![100, 16]),
    ];
    all.extend(layer(0));
    all.extend(layer(1));
    all
}

fn builder(quant_layers: u32) -> Builder {
    let weights = tensors().into_iter().map(|(name, _)| (name, "file".to_string())).collect();
    WasmSessionBuilder::new(weights, 8, quant_layers)
}

/// Adds a tensor, with its name as what was uploaded.
fn add(builder: &mut Builder, name: &str, shape: &[usize]) -> Upload {
    let shape: Vec<u32> = shape.iter().map(|&n| n as u32).collect();
    let upload = builder.add_tensor(name, &shape, "F16", &[]).unwrap().upload;
    let slot = match upload {
        Upload::Embed => Slot::Embed(name.to_string()),
        Upload::Vector => Slot::Vector(name.to_string()),
        Upload::Head => Slot::Matrix(name.to_string()),
        Upload::Matrix { quantize } => Slot::Matrix(format!("{quantize} {name}")),
    };
    builder.store(name, slot);
    upload
}

fn filled(quant_layers: u32) -> Builder {
    let mut b = builder(quant_layers);
    b.prepare('c');
    for (name, shape) in tensors() {
        add(&mut b, &name, &shape);
    }
    b
}

#[test]
fn session_is_built_of_what_was_added() {
    let session = filled(1).build().unwrap();
    assert_eq!(session.context, 'c');
    assert_eq!(session.token_chunk_size, 32);
    assert_eq!(session.num_vocab(), 100);
    assert_eq!(session.num_layer(), 2);
    assert_eq!(session.num_emb(), 16);
    assert_eq!(session.num_head(), 4);
    assert_eq!(session.version(), "Brumby");
    let model = session.runtime;
    assert_eq!((model.rescale, model.sep), (DEFAULT_RESCALE, DEFAULT_SEP));
    assert_eq!(model.tensor.embed.w, "model.embed_tokens.weight");
    assert_eq!(model.tensor.head.w, "lm_head.weight");
    assert!(matches!(&model.tensor.head.ln.w, Fetched::Given(n) if n == "model.norm.weight"));
    assert!(matches!(&model.tensor.head.ln.b, Fetched::Zeros));
    let layer = &model.tensor.layers[1];
    assert_eq!(layer.att.v_proj, "false model.layers.1.self_attn.v_proj.weight");
    assert_eq!(model.tensor.layers[0].att.v_proj, "true model.layers.0.self_attn.v_proj.weight");
    assert!(matches!(&layer.att.k_norm.as_ref().unwrap().w, Fetched::Given(n) if n == "model.layers.1.self_attn.k_norm.weight"));
    assert!(matches!(&layer.ffn, Ffn::Gated { down_proj, .. } if down_proj == "false model.layers.1.mlp.down_proj.weight"));
}

#[test]
fn first_missing_tensor_is_named() {
    let mut b = filled(0);
    b.matrices.remove("model.layers.1.self_attn.k_proj.weight");
    b.gpu_vectors.remove("model.layers.1.post_attention_layernorm.weight");
    let Err(e) = b.build() else { panic!() };
    assert_eq!(e.message(), "missing matrix tensor: model.layers.1.self_attn.k_proj.weight");
    let mut b = filled(0);
    b.gpu_vectors.remove("model.norm.weight");
    b.matrices.remove("lm_head.weight");
    let Err(e) = b.build() else { panic!() };
    assert_eq!(e.message(), "missing vector tensor: model.norm.weight");
    let mut b = filled(0);
    b.embed_cpu = None;
    let Err(e) = b.build() else { panic!() };
    assert_eq!(e.message(), "missing model.embed_tokens.weight");
}

#[test]
fn context_is_needed() {
    let mut b = builder(0);
    assert!(matches!(b.add_tensor("a", &[1], "F16", &[]), Err(SessionError::NotPrepared(Stage::AddTensor))));
    assert!(matches!(b.add_shard("a", &[]), Err(SessionError::NotPrepared(Stage::AddShard))));
    let Err(e) = b.flush() else { panic!() };
    assert_eq!(e.message(), "call prepare() before flush()");
    let Err(e) = b.build() else { panic!() };
    assert_eq!(e.message(), "call prepare() before build()");
    let mut b = builder(0);
    b.prepare('x');
    assert_eq!(b.flush().unwrap(), &'x');
}

#[test]
fn data_types_go_by_name() {
    let mut b = builder(0);
    b.prepare('c');
    for (name, dtype) in [
        ("F16", Dtype::F16),
        ("F32", Dtype::F32),
        ("BF16", Dtype::BF16),
        ("I32", Dtype::I32),
        ("I64", Dtype::I64),
        ("U8", Dtype::U8),
        ("U16", Dtype::U16),
        ("U32", Dtype::U32),
        ("I8", Dtype::I8),
        ("I16", Dtype::I16),
    ] {
        let staged = b.add_tensor("t", &[2, 3], name, &[1, 2]).unwrap();
        assert_eq!(staged.tensor.dtype, dtype);
        assert_eq!(staged.tensor.shape, vec![2, 3]);
        assert_eq!(staged.tensor.data.as_ref(), &[1, 2]);
    }
    let Err(e) = b.add_tensor("t", &[], "F64", &[]) else { panic!() };
    assert_eq!(e.message(), "Unknown dtype: F64");
    assert_eq!(b.tensor_meta.get("t"), Some(&vec![2, 3]));
}

#[test]
fn uploads_go_by_name_and_shape() {
    let mut b = builder(1);
    b.prepare('c');
    assert_eq!(add(&mut b, "model.embed_tokens.weight", &[4]), Upload::Embed);
    assert_eq!(add(&mut b, "lm_head.weight", &[4, 4]), Upload::Head);
    assert_eq!(add(&mut b, "model.layers.0.x", &[4]), Upload::Vector);
    assert_eq!(add(&mut b, "model.layers.0.x", &[]), Upload::Vector);
    assert_eq!(add(&mut b, "model.layers.0.x", &[4, 4]), Upload::Matrix { quantize: true });
    assert_eq!(add(&mut b, "model.layers.1.x", &[4, 4]), Upload::Matrix { quantize: false });
    assert_eq!(add(&mut b, "other", &[4, 4]), Upload::Matrix { quantize: false });
    assert_eq!(Upload::Embed.pad(), [8, 8, 1, 1]);
    assert_eq!(Upload::Head.pad(), [8, 8, 1, 1]);
    assert_eq!(Upload::Vector.pad(), [4, 1, 1, 1]);
    assert_eq!(Upload::Matrix { quantize: true }.pad(), [4, 4, 1, 1]);
}

#[test]
fn shards_have_the_tensors_of_their_file() {
    let one = archive(&[("a", vec![2]), ("b", vec![2, 2])]);
    let weights = vec![
        ("a".to_string(), "one".to_string()),
        ("b".to_string(), "two".to_string()),
        ("c".to_string(), "one".to_string()),
    ];
    let mut b: Builder = WasmSessionBuilder::new(weights, 64, 0);
    b.prepare('c');
    let Err(e) = b.add_shard("one", &one[1..]) else { panic!() };
    assert_eq!(e.message(), "SafeTensor parse error: ");
    let shard = b.add_shard("one", &one).unwrap();
    assert_eq!(shard.len(), 2);
    let mut names = Vec::new();
    let mut missing = Vec::new();
    for i in 0..shard.len() {
        match b.add_shard_tensor(&shard, i) {
            Ok(staged) => names.push((staged.name, staged.upload)),
            Err(e) => missing.push(e.message()),
        }
    }
    assert_eq!(names, vec![("a".to_string(), Upload::Vector)]);
    assert_eq!(missing, vec!["Missing tensor c in shard one: ".to_string()]);
    assert_eq!(b.tensor_meta.get("a"), Some(&vec![2]));
    assert!(!b.tensor_meta.contains("b"));
    assert_eq!(b.add_shard("three", &one).unwrap().len(), 0);
}

#[test]
fn metadata_must_describe_a_model() {
    let mut b: Builder = WasmSessionBuilder::new(vec![], 64, 0);
    b.prepare('c');
    let r = b.build();
    assert!(matches!(&r, Err(SessionError::Info(LoaderError::SafeTensor(_)))));
    let Err(e) = r else { panic!() };
    assert_eq!(e.message(), "Model info error: ");
    let mut b = filled(0);
    b.tensor_meta.insert("model.layers.0.self_attn.q_norm.weight".to_string(), vec![0]);
    assert!(b.checked_build().is_none());
    let b = builder(0);
    assert!(matches!(b.checked_build(), Some(Err(SessionError::NotPrepared(Stage::Build)))));
}

#[test]
fn other_families_are_refused() {
    let names = [
        "emb.weight",
        "blocks.0.ffn.key.weight",
        "blocks.0.att.time_decay",
        "blocks.0.att.time_first",
        "blocks.0.att.time_mix_k",
        "blocks.0.att.time_mix_v",
        "blocks.0.att.time_mix_r",
    ];
    let weights = names.iter().map(|n| (n.to_string(), "f".to_string())).collect();
    let mut b: Builder = WasmSessionBuilder::new(weights, 64, 0);
    b.prepare('c');
    for name in names {
        add(&mut b, name, &[8, 8]);
    }
    let Err(e) = b.build() else { panic!() };
    assert_eq!(e.message(), "Expected Brumby/PowerCoder model");
}

#[test]
fn whole_file_is_planned() {
    let all = tensors();
    let list: Vec<(&str, Vec<usize>)> = all.iter().map(|(n, s)| (n.as_str(), s.clone())).collect();
    let bytes = archive(&list);
    let session = WasmSession::create(&bytes, 100, 1).unwrap().unwrap();
    assert_eq!(session.token_chunk_size, 100);
    assert_eq!(session.info.num_layer, 2);
    let plan = &session.runtime;
    assert!(matches!(&plan.requests[1][2], Slot::Matrix(MatrixSource::Stored(_, Quant::Int8))));
    assert!(matches!(&plan.requests[2][2], Slot::Matrix(MatrixSource::Stored(_, Quant::Fp16))));
    let Some(Err(e)) = WasmSession::create(&bytes[1..], 100, 1) else { panic!() };
    assert_eq!(e.message(), "SafeTensors parse error: ");
    let bytes = archive(&[("a", vec![1])]);
    assert!(matches!(WasmSession::create(&bytes, 100, 1), Some(Err(SessionError::Info(_)))));
    let st = SafeTensors::deserialize(&bytes).unwrap();
    assert!(matches!(WasmSession::build_from_reader(st, 1, 1), Some(Err(LoaderError::SafeTensor(_)))));
}

#[test]
fn both_ways_quantize_the_same_layers() {
    for quant_layers in [0, 1, 2, 9] {
        let map = quant_map(quant_layers, 2);
        let model = filled(quant_layers).build().unwrap().runtime;
        for (i, layer) in model.tensor.layers.iter().enumerate() {
            let quantized = map.get(&i) == Some(&Quant::Int8);
            assert_eq!(layer.att.q_proj.starts_with("true"), quantized);
        }
        assert_eq!(map.len(), (quant_layers as usize).min(2));
    }
}

fn session<T>(runtime: T) -> WasmSession<(), T> {
    let info = filled(0).build().unwrap().info;
    WasmSession::new((), runtime, info, 0)
}

#[test]
fn logits_are_those_of_the_vocabulary() {
    let s = session(());
    let output: Vec<u32> = (0..104).collect();
    assert_eq!(s.infer_raw(&output), Some(InferStep::Done(&output[..100])));
    assert_eq!(s.infer_raw::<u32>(&[]), Some(InferStep::Again));
    assert_eq!(s.infer_raw(&output[..99]), None);
}

#[test]
fn embeddings_are_cut_at_the_table() {
    let s = session(());
    assert_eq!(s.debug_embed(16, 64, 2, 4), Some(Span { start: 32, end: 36 }));
    assert_eq!(s.debug_embed(16, 64, 2, 40), Some(Span { start: 32, end: 48 }));
    assert_eq!(s.debug_embed(16, 40, 2, 40), Some(Span { start: 32, end: 40 }));
    assert_eq!(s.debug_embed(16, 32, 2, 1), Some(Span { start: 32, end: 32 }));
    assert_eq!(s.debug_embed(16, 31, 2, 1), None);
    assert_eq!(s.debug_embed(usize::MAX, usize::MAX, 2, 1), None);
    assert_eq!(debug_count(3, 5), 3);
    assert_eq!(debug_count(8, 5), 5);
}

#[test]
fn norms_go_by_layer() {
    let model = filled(0).build().unwrap().runtime;
    let bundle: Bundle<_, _, _, u8, u8> = Bundle::new(model, 1, vec![0, 0]);
    let s = session(bundle);
    assert!(matches!(s.debug_norm_weight(-1), Ok(Fetched::Given(n)) if n == "model.norm.weight"));
    assert!(matches!(s.debug_norm_weight(1), Ok(Fetched::Given(n)) if n == "model.layers.1.input_layernorm.weight"));
    let Err(e) = s.debug_norm_weight(2) else { panic!() };
    assert_eq!(e.message(), "layer index out of bounds");
    let planes = vec![StatePlane { layer: 0, batch: 0 }, StatePlane { layer: 1, batch: 0 }];
    let expected = Reset { shape: [16, 5, 2, 1], planes, fill: 0.0f32.to_bits(), rope_position: 0 };
    assert_eq!(s.reset_state(), expected);
}

#[test]
fn info_is_json() {
    let s = session(());
    assert_eq!(
        s.debug_info("1000000"),
        "{\"version\":\"Brumby\",\"num_layer\":2,\"num_emb\":16,\"num_hidden\":32,\"num_vocab\":100,\"num_head\":4,\"num_kv_head\":2,\"head_dim\":4,\"intermediate_size\":32,\"has_qk_norm\":true,\"gated_ffn\":true,\"hidden_act\":\"Silu\",\"rope_theta\":1000000}"
    );
    let info = ModelInfo {
        version: ModelVersion::V7,
        num_layer: 1,
        num_emb: 1,
        num_hidden: 1,
        num_vocab: 1,
        num_head: 1,
        custom: ModelCustomInfo::Plain,
    };
    let s = WasmSession::new((), (), info, 33);
    assert_eq!(s.debug_info("0"), "{\"error\": \"not Brumby\"}");
    assert_eq!(s.version(), "V7");
    assert_eq!(s.token_chunk_size, 33);
    assert_eq!(activation_text(Activation::Identity), "None");
    assert_eq!(activation_text(Activation::StableExp), "StableExp");
    assert_eq!(bool_text(false), "false");
}
