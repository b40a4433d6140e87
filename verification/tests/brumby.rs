use std::collections::HashMap;
use web_rwkv::names::NameMap;
use web_rwkv::runtime::assembly::{
    assemble_layer, assemble_model, layer_requests, model_requests, MatrixSource, ModelBuilder,
    Request, Slot, VectorSource,
};
use web_rwkv::runtime::brumby::{
    num_gate_head, turbo, CustomInfo, Embed, Ffn, Head, Header, Hook, Model, ModelTensor, RmsNorm,
    Runtime, DEFAULT_RESCALE, DEFAULT_SEP, RMS_EPS_BITS,
};
use web_rwkv::runtime::bundle::{Bundle, HookMap};
use web_rwkv::runtime::dispatch::{dispatch_header, Buffer, Op, HALF_BITS};
use web_rwkv::runtime::job::{entry, load, split_outputs, Loading, Row, Token};
use web_rwkv::runtime::loader::LoaderError;
use web_rwkv::runtime::model::{Activation, ModelCustomInfo, ModelInfo, ModelVersion, Quant};
use web_rwkv::runtime::naming::extract_layer_index;
use web_rwkv::runtime::state::{state_shapes, ShapeMismatch, State, StatePlane, StateRows};
use web_rwkv::web::MetadataReader;

fn custom(norms: bool, gated: bool) -> CustomInfo {
    CustomInfo {
        num_kv_head: 2,
        head_dim: 4,
        intermediate_size: 32,
        has_qk_norm: norms,
        gated_ffn: gated,
        hidden_act: Activation::Gelu,
        rope_theta_bits: 11,
        power_deg: 1,
    }
}

fn info(num_layer: usize, norms: bool, gated: bool) -> ModelInfo {
    ModelInfo {
        version: ModelVersion::Brumby,
        num_layer,
        num_emb: 16,
        num_hidden: 32,
        num_vocab: 100,
        num_head: 4,
        custom: ModelCustomInfo::Brumby(custom(norms, gated)),
    }
}

/// The name of a request, as what was loaded for it.
fn fake(request: &Request) -> Slot<String, String, String> {
    match request {
        Slot::Vector(VectorSource::File(name)) => Slot::Vector(name.clone()),
        Slot::Vector(VectorSource::Zeros) => Slot::Vector("zeros".to_string()),
        Slot::Matrix(MatrixSource::Padded(name)) => Slot::Matrix(format!("padded {name}")),
        Slot::Matrix(MatrixSource::Stored(name, quant)) => Slot::Matrix(format!("{quant:?} {name}")),
        Slot::Embed(name) => Slot::Embed(name.clone()),
    }
}

fn model(num_layer: usize, norms: bool, gated: bool) -> Model<String, String, String> {
    let info = info(num_layer, norms, gated);
    let custom = custom(norms, gated);
    let groups = model_requests(&info, &custom, &HashMap::new())
        .iter()
        .map(|group| group.iter().map(fake).collect())
        .collect();
    let tensor = assemble_model(groups, &info, &custom).unwrap();
    Model { info, rescale: 2, sep: 3, tensor }
}

#[test]
fn chunks_of_32_are_turbo() {
    assert!(turbo(0) && turbo(32) && turbo(64));
    assert!(!turbo(31) && !turbo(33));
}

#[test]
fn constants_are_the_floats_they_stand_for() {
    assert_eq!(f32::from_bits(RMS_EPS_BITS), 1.0e-6);
    assert_eq!(f32::from_bits(HALF_BITS), 0.5);
    assert_eq!(DEFAULT_RESCALE, usize::MAX);
    assert_eq!(DEFAULT_SEP, 1024);
    assert_eq!(custom(true, true).with_rope_theta(5).rope_theta(), 5);
}

#[test]
fn buffers_have_their_shapes() {
    let r = Runtime::new(&info(1, true, true), 7);
    assert_eq!(r.cursors, [7, 1, 1, 1]);
    assert_eq!(r.input, [16, 7, 1, 1]);
    assert_eq!(r.att_k, [8, 7, 1, 1]);
    assert_eq!(r.att_g, [4, 7, 1, 1]);
    assert_eq!(r.ffn_up, [32, 7, 1, 1]);
    assert_eq!(r.ffn_down, [16, 7, 1, 1]);
    assert_eq!(Runtime::new(&info(1, false, true), 7).att_g, [2, 7, 1, 1]);
    assert_eq!(num_gate_head(&info(1, false, true), &custom(false, true)), 2);
    let h = Header::new(&info(1, true, true), 3);
    assert_eq!(h.head_x, [16, 3, 1, 1]);
    assert_eq!(h.head_o, [104, 3, 1, 1]);
}

#[test]
fn vocabulary_is_padded_by_eights() {
    let mut i = info(1, true, true);
    for (n, padded) in [(0, 0), (1, 8), (8, 8), (9, 16), (100, 104)] {
        i.num_vocab = n;
        assert_eq!(i.num_vocab_padded(), padded);
    }
}

#[test]
fn requests_name_the_tensors_of_a_layer() {
    let brumby = layer_requests(3, &custom(true, true), Quant::Int8);
    let names: Vec<_> = brumby.iter().map(fake).collect();
    assert_eq!(names.len(), 16);
    assert_eq!(names[0], Slot::Vector("model.layers.3.input_layernorm.weight".to_string()));
    assert_eq!(names[1], Slot::Vector("zeros".to_string()));
    assert_eq!(names[2], Slot::Matrix("Int8 model.layers.3.self_attn.q_proj.weight".to_string()));
    assert_eq!(names[6], Slot::Matrix("Int8 model.layers.3.self_attn.g_proj.weight".to_string()));
    assert_eq!(names[7], Slot::Vector("model.layers.3.self_attn.q_norm.weight".to_string()));
    assert_eq!(names[9], Slot::Vector("model.layers.3.self_attn.k_norm.weight".to_string()));
    assert_eq!(names[11], Slot::Vector("model.layers.3.post_attention_layernorm.weight".to_string()));
    assert_eq!(names[13], Slot::Matrix("Int8 model.layers.3.mlp.gate_proj.weight".to_string()));
    assert_eq!(names[15], Slot::Matrix("Int8 model.layers.3.mlp.down_proj.weight".to_string()));
    let powercoder = layer_requests(12, &custom(false, false), Quant::Fp16);
    let names: Vec<_> = powercoder.iter().map(fake).collect();
    assert_eq!(names.len(), 18);
    assert_eq!(names[1], Slot::Vector("model.layers.12.input_layernorm.bias".to_string()));
    assert_eq!(names[7], Slot::Vector("model.layers.12.self_attn.q_proj.bias".to_string()));
    assert_eq!(names[11], Slot::Vector("model.layers.12.self_attn.g_proj.bias".to_string()));
    assert_eq!(names[14], Slot::Matrix("Fp16 model.layers.12.mlp.c_fc.weight".to_string()));
    assert_eq!(names[17], Slot::Vector("model.layers.12.mlp.c_proj.bias".to_string()));
}

#[test]
fn names_are_asked_for_once() {
    for (norms, gated) in [(true, true), (true, false), (false, true), (false, false)] {
        let groups = model_requests(&info(3, norms, gated), &custom(norms, gated), &HashMap::new());
        let mut seen: Vec<Slot<String, String, String>> = Vec::new();
        for request in groups.iter().flatten() {
            let name = fake(request);
            if name != Slot::Vector("zeros".to_string()) {
                assert!(!seen.contains(&name));
                seen.push(name);
            }
        }
    }
}

#[test]
fn layers_are_quantized_one_by_one() {
    let mut quant = HashMap::new();
    quant.insert(1, Quant::NF4);
    let groups = model_requests(&info(3, true, true), &custom(true, true), &quant);
    assert_eq!(groups.len(), 4);
    assert!(matches!(&groups[1][2], Slot::Matrix(MatrixSource::Stored(_, Quant::Fp16))));
    assert!(matches!(&groups[2][2], Slot::Matrix(MatrixSource::Stored(n, Quant::NF4)) if n == "model.layers.1.self_attn.q_proj.weight"));
    assert!(matches!(&groups[3][2], Slot::Matrix(MatrixSource::Stored(_, Quant::Fp16))));
}

#[test]
fn tensors_go_where_their_names_say() {
    for (norms, gated) in [(true, true), (true, false), (false, true), (false, false)] {
        let m = model(2, norms, gated);
        assert_eq!(m.tensor.embed.w, "model.embed_tokens.weight");
        assert_eq!(m.tensor.head.w, "padded lm_head.weight");
        assert_eq!(m.tensor.head.ln.w, "model.norm.weight");
        let layer = &m.tensor.layers[1];
        assert_eq!(layer.input_ln.w, "model.layers.1.input_layernorm.weight");
        assert_eq!(layer.att.o_proj, "Fp16 model.layers.1.self_attn.o_proj.weight");
        if norms {
            assert_eq!(layer.att.k_norm.as_ref().unwrap().w, "model.layers.1.self_attn.k_norm.weight");
            assert_eq!(layer.input_ln.b, "zeros");
            assert!(layer.att.v_bias.is_none());
        } else {
            assert_eq!(layer.att.v_bias.as_ref().unwrap(), "model.layers.1.self_attn.v_proj.bias");
            assert_eq!(layer.post_att_ln.b, "model.layers.1.post_attention_layernorm.bias");
            assert!(layer.att.q_norm.is_none());
        }
        match &layer.ffn {
            Ffn::Gated { up_proj, .. } => {
                assert!(gated);
                assert_eq!(up_proj, "Fp16 model.layers.1.mlp.up_proj.weight");
            }
            Ffn::Dense { c_proj, c_proj_bias, .. } => {
                assert!(!gated);
                assert_eq!(c_proj, "Fp16 model.layers.1.mlp.c_proj.weight");
                assert_eq!(c_proj_bias.is_some(), !norms);
            }
        }
    }
}

#[test]
fn tensors_of_other_kinds_are_refused() {
    let c = custom(true, true);
    let all_but_last = || -> Vec<Slot<String, String, String>> {
        let mut slots: Vec<_> = layer_requests(0, &c, Quant::Fp16).iter().map(fake).collect();
        slots.pop();
        slots
    };
    assert!(assemble_layer(all_but_last(), &c).is_none());
    let mut slots = all_but_last();
    slots.push(Slot::Vector("x".to_string()));
    assert!(assemble_layer(slots, &c).is_none());
    let mut slots = all_but_last();
    slots.push(Slot::Matrix("x".to_string()));
    assert!(assemble_layer(slots, &c).is_some());
    let mut slots = all_but_last();
    slots.push(Slot::Matrix("x".to_string()));
    slots.push(Slot::Matrix("y".to_string()));
    assert!(assemble_layer(slots, &c).is_none());
    let groups: Vec<Vec<Slot<String, String, String>>> = Vec::new();
    assert!(assemble_model(groups, &info(0, true, true), &c).is_none());
}

#[test]
fn layer_names_read_back() {
    assert_eq!(extract_layer_index("model.layers.5.self_attn.q_proj.weight"), Some(5));
    assert_eq!(extract_layer_index("model.layers.17.x"), Some(17));
    assert_eq!(extract_layer_index("model.layers.5"), None);
    assert_eq!(extract_layer_index("model.norm.weight"), None);
    assert_eq!(extract_layer_index("model.layers.x.y"), None);
}

fn hooks<V, M>(ops: &[Op<'_, V, M>]) -> Vec<Hook> {
    ops.iter().filter_map(|op| if let Op::Hook(hook) = op { Some(*hook) } else { None }).collect()
}

fn bundle(m: Model<String, String, String>) -> Bundle<String, String, String, u8, u8> {
    let n = m.info.num_layer;
    Bundle::new(m, 1, vec![0; n])
}

#[test]
fn inference_reaches_every_hook_once() {
    for (norms, gated) in [(true, true), (false, false)] {
        let b = bundle(model(2, norms, gated));
        let job = b.dispatch(5, 1);
        let found = hooks(&job.commands);
        assert_eq!(found.len(), 1 + 2 * 15 + 3);
        assert_eq!(found[0], Hook::PostEmbedLoaded);
        assert_eq!(found[1], Hook::PreAtt(0));
        assert_eq!(found[13], Hook::PostFfnGate(0));
        assert_eq!(found[16], Hook::PreAtt(1));
        assert_eq!(found[33], Hook::PostHead);
        let job = b.dispatch(5, 0);
        assert_eq!(hooks(&job.commands).len(), 1 + 2 * 15);
    }
}

#[test]
fn hidden_values_change_by_residuals() {
    let b = bundle(model(3, true, true));
    let job = b.dispatch(32, 1);
    let mut adds = Vec::new();
    let mut halves = 0;
    let mut seps = 0;
    for op in &job.commands {
        match op {
            Op::Add { from, to } => {
                assert_eq!(*to, Buffer::X);
                adds.push(*from);
            }
            Op::Affine { x, scale, offset } => {
                assert_eq!((*x, *scale, *offset), (Buffer::X, HALF_BITS, 0));
                halves += 1;
            }
            Op::Matmul { turbo, output, .. } => {
                assert_eq!(*turbo, *output != Buffer::HeadO);
                assert!(*output != Buffer::X);
            }
            Op::Sep => seps += 1,
            _ => {}
        }
    }
    assert_eq!(adds, [Buffer::AttX, Buffer::FfnDown].repeat(3));
    assert_eq!((halves, seps), (1, 1));
}

#[test]
fn retention_has_the_sizes_of_the_model() {
    let b = bundle(model(1, false, false));
    let job = b.dispatch(1, 1);
    let found = job.commands.iter().find_map(|op| match op {
        Op::PowerRetention { state, head_dim, num_head, num_kv_head, num_gate_head } => {
            Some((*state, *head_dim, *num_head, *num_kv_head, *num_gate_head))
        }
        _ => None,
    });
    let rows = StateRows { layer: 0, start: 0, end: 4 };
    assert_eq!(found, Some((rows, 4, 4, 2, 2)));
    let ropes: Vec<_> = job.commands.iter().filter_map(|op| match op {
        Op::Rope { x, num_head, theta, .. } => Some((*x, *num_head, *theta)),
        _ => None,
    }).collect();
    assert_eq!(ropes, vec![(Buffer::AttQ, 4, 11), (Buffer::AttK, 2, 11)]);
    let biases = job.commands.iter().filter(|op| matches!(op, Op::AddBias { .. })).count();
    assert_eq!(biases, 7);
    assert!(job.commands.iter().any(|op| matches!(op, Op::Activate { x: Buffer::FfnGate, act: Activation::Gelu })));
}

#[test]
fn no_token_takes_no_operation() {
    let mut m = model(1, true, true);
    m.sep = 0;
    let b = bundle(m);
    let mut job = b.dispatch(0, 0);
    assert!(job.commands.is_empty());
    assert!(job.submit().is_empty());
    assert_eq!(job.frame.buffer.cursors, [0, 1, 1, 1]);
}

#[test]
fn operations_are_submitted_once() {
    let b = bundle(model(1, true, true));
    let mut job = b.dispatch(1, 1);
    assert!(!job.submit().is_empty());
    assert!(job.submit().is_empty());
    assert_eq!(job.embed, "model.embed_tokens.weight");
    assert_eq!(job.frame.state.num_batch(), 1);
    assert_eq!(b.info().num_layer, 1);
}

#[test]
fn head_runs_where_there_is_an_output() {
    let head = Head { ln: RmsNorm { w: 1, b: 2 }, w: 'm' };
    assert_eq!(dispatch_header(&head, 0).len(), 1);
    let ops = dispatch_header(&head, 2);
    assert_eq!(ops.len(), 6);
    assert!(matches!(ops[2], Op::RmsNorm { w: 1, b: 2, x: Buffer::HeadX, eps: RMS_EPS_BITS }));
    assert!(matches!(ops[4], Op::Matmul { matrix: 'm', input: Buffer::HeadX, output: Buffer::HeadO, act: Activation::Identity, turbo: false }));
}

#[test]
fn hooks_add_what_was_set_last() {
    let mut map = HookMap::new();
    map.insert(Hook::PreAtt(1), 'a');
    map.insert(Hook::PreAtt(2), 'b');
    map.insert(Hook::PreAtt(1), 'c');
    assert_eq!(map.get(&Hook::PreAtt(1)), Some(&'c'));
    assert_eq!(map.get(&Hook::PreAtt(3)), None);
    let b = Bundle::new_with_hooks(model(1, true, true), 2, vec![0u8], map);
    assert_eq!(b.hook_op(&Hook::PreAtt(2)), Some(&'b'));
    assert_eq!(b.hook_op(&Hook::PostHead), None);
    assert_eq!(b.state.num_batch(), 2);
}

#[test]
fn state_has_a_row_for_the_token_shift() {
    let i = info(2, true, true);
    assert_eq!(state_shapes(&i, 3), vec![[16, 5, 3, 1]; 2]);
    let s = State::new(i, 3, vec!['a', 'b']);
    assert_eq!(s.init_shape(), [16, 5, 2, 1]);
    assert_eq!(s.init_len(), 160);
    assert_eq!(s.att(1), StateRows { layer: 1, start: 0, end: 4 });
    assert_eq!(s.ffn(1), StateRows { layer: 1, start: 4, end: 5 });
    assert_eq!(s.embed(1), StateRows { layer: 1, start: 0, end: 1 });
    assert_eq!(*s.tensor(1), 'b');
}

#[test]
fn state_is_read_where_it_was_written() {
    let s = State::new(info(2, true, true), 3, vec!['a', 'b']);
    let planes = vec![StatePlane { layer: 0, batch: 1 }, StatePlane { layer: 1, batch: 1 }];
    assert_eq!(s.write([16, 5, 2, 1], 1), Ok(planes.clone()));
    assert_eq!(s.load([16, 5, 2, 1], 1), Ok(planes.clone()));
    assert_eq!(s.read(1), ([16, 5, 2, 1], planes.clone()));
    assert_eq!(s.back(1), ([16, 5, 1, 1], planes));
    for shape in [[15, 5, 2, 1], [16, 4, 2, 1], [16, 5, 1, 1], [16, 5, 2, 2]] {
        assert_eq!(s.write(shape, 1), Err(ShapeMismatch));
        assert_eq!(s.load(shape, 1), Err(ShapeMismatch));
    }
}

#[test]
fn tokens_are_rows_of_the_table() {
    assert_eq!(entry(3, 16, 64), Some((48, 64)));
    assert_eq!(entry(4, 16, 64), None);
    assert_eq!(entry(u32::MAX, usize::MAX, usize::MAX), None);
    let batches = vec![vec![Token::Token(1), Token::Embed('e')], vec![]];
    let Some(Loading::Rows(rows)) = load(&batches, 16, 64) else { panic!() };
    assert_eq!(rows.len(), 2);
    assert!(matches!(rows[0][0], Row::Table { start: 16, end: 32 }));
    assert!(matches!(rows[0][1], Row::Given('e')));
    assert!(rows[1].is_empty());
    let none: Vec<Vec<Token<char>>> = vec![vec![], vec![]];
    assert!(matches!(load(&none, 16, 64), Some(Loading::Nothing)));
    let batches: Vec<Vec<Token<char>>> = vec![vec![Token::Token(4)]];
    assert!(load(&batches, 16, 64).is_none());
}

#[test]
fn reset_state_reads_as_zeros() {
    let s = State::new(info(2, true, true), 2, vec![0usize, 1]);
    let mut layers = vec![vec![vec![3; 80], vec![4; 80]], vec![vec![5; 80], vec![6; 80]]];
    let mut sums = vec![7, 8];
    let mut position = 9;
    for _ in 0..2 {
        let reset = s.reset();
        for plane in &reset.planes {
            let elements = vec![reset.fill; reset.shape[0] * reset.shape[1]];
            layers[*s.tensor(plane.layer)][plane.batch] = elements;
        }
        sums.fill(reset.fill);
        position = reset.rope_position;
        assert_eq!(layers[0], vec![vec![0; 80], vec![4; 80]]);
        assert_eq!(layers[1], vec![vec![0; 80], vec![6; 80]]);
        assert_eq!((position, &sums), (0, &vec![0, 0]));
    }
    let (shape, planes) = s.read(0);
    let whole: Vec<u32> = planes.iter().flat_map(|p| layers[p.layer][p.batch].clone()).collect();
    assert_eq!(whole, vec![0; shape.iter().product()]);
    assert_eq!(whole.len(), s.init_len());
}

#[test]
fn outputs_are_cut_by_batch() {
    let data = [1, 2, 3, 4, 5, 6];
    let parts = split_outputs(&data, 2, &[(0, 1), (1, 1), (1, 3)]).unwrap();
    assert_eq!(parts, vec![&[1, 2][..], &[], &[3, 4, 5, 6]]);
    assert!(split_outputs(&data, 2, &[(0, 4)]).is_none());
    assert!(split_outputs(&data, 2, &[(2, 1)]).is_none());
    assert!(split_outputs(&data, usize::MAX, &[(0, 2)]).is_none());
}

fn powercoder() -> (NameMap<String>, NameMap<Vec<usize>>) {
    let mut names = NameMap::new();
    let mut shapes = NameMap::new();
    let list: [(&str, &[usize]); 6] = [
        ("model.embed_tokens.weight", &[100, 16]),
        ("model.layers.0.self_attn.q_proj.weight", &[16, 16]),
        ("model.layers.0.self_attn.k_proj.weight", &[8, 16]),
        ("model.layers.0.self_attn.g_proj.weight", &[2, 16]),
        ("model.layers.0.mlp.c_fc.weight", &[32, 16]),
        ("model.layers.0.mlp.c_proj.weight", &[16, 32]),
    ];
    for (name, shape) in list {
        names.insert(name.to_string(), "f".to_string());
        shapes.insert(name.to_string(), shape.to_vec());
    }
    (names, shapes)
}

fn builder<'m>(names: &'m NameMap<String>, shapes: &'m NameMap<Vec<usize>>) -> ModelBuilder<MetadataReader<'m>> {
    ModelBuilder {
        model: MetadataReader { names, shapes },
        rescale: None,
        sep: Some(7),
        lora: Vec::new(),
        quant: HashMap::new(),
    }
}

#[test]
fn models_are_planned_and_finished() {
    let (names, shapes) = powercoder();
    let plan = builder(&names, &shapes).build_brumby().unwrap();
    assert_eq!((plan.rescale, plan.sep), (DEFAULT_RESCALE, 7));
    assert_eq!(plan.requests.len(), 2);
    let groups = plan.requests.iter().map(|group| group.iter().map(fake).collect()).collect();
    let m = plan.finish(groups).unwrap();
    assert_eq!(m.sep, 7);
    assert_eq!(m.tensor.layers.len(), 1);
    assert_eq!(m.info.num_head, 4);
}

#[test]
fn other_models_are_not_planned() {
    let (names, mut shapes) = powercoder();
    shapes.remove("model.embed_tokens.weight");
    assert!(matches!(builder(&names, &shapes).checked_build_brumby(), Some(Err(LoaderError::SafeTensor(_)))));
    shapes.insert("model.embed_tokens.weight".to_string(), vec![]);
    assert!(builder(&names, &shapes).checked_build_brumby().is_none());
}

#[test]
fn embeddings_are_held_as_they_are() {
    let tensor: ModelTensor<u8, u8, char> = ModelTensor {
        embed: Embed { w: 'e' },
        head: Head { ln: RmsNorm { w: 1, b: 2 }, w: 3 },
        layers: vec![],
    };
    assert_eq!((tensor.embed.w, tensor.head.w), ('e', 3));
}
