use mlx_lm::cache::KvCache;
use mlx_lm::config::{Quantization, Qwen3Config};
use mlx_lm::error::LmError;
use mlx_lm::models::qwen3::{
    embedding, linear, Attention, EmbeddingLayer, EmbeddingModule, LinearLayer, Mlp, Model,
    PackedEmbedding, Qwen3Backbone, RmsNorm, TransformerBlock,
};
use mlx_lm::plan::{Norm, Plan, Projection, Step, Table};
use mlx_lm::single::Single;

fn single(x: f32) -> Single {
    Single { bits: x.to_bits() }
}

fn config(layers: i32) -> Qwen3Config {
    Qwen3Config {
        vocab_size: 16,
        hidden_size: 8,
        intermediate_size: 32,
        num_hidden_layers: layers,
        num_attention_heads: 6,
        num_key_value_heads: 2,
        head_dim: 4,
        rms_norm_eps: single(1.0e-6),
        rope_theta: single(10_000.0),
        rope_scaling: None,
        tie_word_embeddings: false,
        quantization: None,
    }
}

fn packed(layers: i32) -> Qwen3Config {
    Qwen3Config {
        tie_word_embeddings: true,
        quantization: Some(Quantization {
            group_size: 64,
            bits: 4,
        }),
        ..config(layers)
    }
}

fn model(cfg: Qwen3Config) -> Model {
    match Model::new(cfg) {
        Ok(m) => m,
        Err(e) => panic!("{}", e.message("", "")),
    }
}

fn caches(offsets: &[i32]) -> Vec<KvCache<u64>> {
    offsets
        .iter()
        .map(|&offset| KvCache::from_parts(None, None, offset))
        .collect()
}

/// The expression that a result of a program stands for.
fn expression(plan: &Plan, at: usize) -> String {
    let e = |i: usize| {
        assert!(i < at, "result {at} reads result {i}");
        expression(plan, i)
    };
    match &plan.steps[at] {
        Step::Input => "tokens".to_string(),
        Step::Embed { x } => format!("embed({})", e(*x)),
        Step::Flatten { x } => format!("flat({})", e(*x)),
        Step::Rows { of, x } => format!("{of:?}[{}]", e(*x)),
        Step::Dequantize {
            weight,
            scales,
            biases,
            group_size,
            bits,
        } => format!(
            "unpack{group_size},{bits}({}, {}, {})",
            e(*weight),
            e(*scales),
            e(*biases)
        ),
        Step::Unembed { x } => format!("unembed({})", e(*x)),
        Step::UnembedPacked {
            x,
            group_size,
            bits,
        } => format!("unembed{group_size},{bits}({})", e(*x)),
        Step::Linear { proj, x } => format!("{proj:?}({})", e(*x)),
        Step::Norm { norm, x } => format!("norm{norm:?}({})", e(*x)),
        Step::Reshape { x, shape } => format!("{}:{shape:?}", e(*x)),
        Step::SwapAxes { x } => format!("swap({})", e(*x)),
        Step::Rotate { layer, x, offset } => format!("rope{layer}@{offset}({})", e(*x)),
        Step::Append { layer, k, v } => format!("append{layer}({}; {})", e(*k), e(*v)),
        Step::Keys { x } => format!("keys({})", e(*x)),
        Step::Values { x } => format!("values({})", e(*x)),
        Step::Attend {
            q,
            k,
            v,
            head_dim,
            causal,
        } => format!("attend{head_dim},{causal}({}, {}, {})", e(*q), e(*k), e(*v)),
        Step::Silu { x } => format!("silu({})", e(*x)),
        Step::Multiply { x, y } => format!("({} * {})", e(*x), e(*y)),
        Step::Add { x, y } => format!("({} + {})", e(*x), e(*y)),
        other => panic!("unexpected step {other:?}"),
    }
}

fn output(plan: &Plan) -> String {
    expression(plan, plan.steps.len() - 1)
}

fn attention(layer: usize, x: &str, l: i32, offset: i32, causal: bool) -> String {
    let q = format!(
        "rope{layer}@{offset}(swap(normQuery({layer})(Query({layer})({x}):[1, {l}, 6, 4])))"
    );
    let k =
        format!("rope{layer}@{offset}(swap(normKey({layer})(Key({layer})({x}):[1, {l}, 2, 4])))");
    let v = format!("swap(Value({layer})({x}):[1, {l}, 2, 4])");
    let all = format!("append{layer}({k}; {v})");
    format!(
        "Output({layer})(swap(attend4,{causal}({q}, keys({all}), values({all}))):[1, {l}, -1])"
    )
}

fn block(layer: usize, x: &str, l: i32, offset: i32, causal: bool) -> String {
    let attn = attention(layer, &format!("normInput({layer})({x})"), l, offset, causal);
    let h = format!("({x} + {attn})");
    let n = format!("normPostAttention({layer})({h})");
    format!("({h} + Down({layer})((silu(Gate({layer})({n})) * Up({layer})({n}))))")
}

#[test]
fn a_decode_step_computes_every_layer_without_a_mask() {
    let m = model(config(2));
    let plan = m.forward(&[1, 1], &caches(&[46, 47])).unwrap();
    let h = block(0, "embed(tokens)", 1, 46, false);
    let h = block(1, &h, 1, 47, false);
    assert_eq!(output(&plan), format!("Head(normLast({h}))"));
}

#[test]
fn a_prefill_masks_and_starts_at_the_offset() {
    let m = model(config(1));
    let plan = m.forward(&[1, 5], &caches(&[0])).unwrap();
    let h = block(0, "embed(tokens)", 5, 0, true);
    assert_eq!(output(&plan), format!("Head(normLast({h}))"));
}

#[test]
fn packed_and_tied_weights_are_unpacked_by_row_and_used_twice() {
    let m = model(packed(0));
    let plan = m.forward(&[1, 3], &caches(&[])).unwrap();
    let row = |table: &str| format!("{table}[flat(tokens)]");
    let h = format!(
        "unpack64,4({}, {}, {}):[1, 3, -1]",
        row("Weight"),
        row("Scales"),
        row("Biases")
    );
    assert_eq!(output(&plan), format!("unembed64,4(normLast({h}))"));
}

#[test]
fn tied_weights_serve_as_output_layer() {
    let cfg = Qwen3Config {
        tie_word_embeddings: true,
        ..config(0)
    };
    let m = model(cfg);
    assert!(m.lm_head.is_none());
    let plan = m.forward(&[1, 1], &caches(&[])).unwrap();
    assert_eq!(output(&plan), "unembed(normLast(embed(tokens)))");
}

fn linear_of(m: &Model, proj: Projection) -> LinearLayer {
    let layers = &m.model.layers;
    match proj {
        Projection::Query(i) => layers[i].self_attn.q_proj,
        Projection::Key(i) => layers[i].self_attn.k_proj,
        Projection::Value(i) => layers[i].self_attn.v_proj,
        Projection::Output(i) => layers[i].self_attn.o_proj,
        Projection::Gate(i) => layers[i].mlp.gate_proj,
        Projection::Up(i) => layers[i].mlp.up_proj,
        Projection::Down(i) => layers[i].mlp.down_proj,
        Projection::Head => m.lm_head.expect("an output layer"),
    }
}

fn rms_of(m: &Model, norm: Norm) -> RmsNorm {
    let layers = &m.model.layers;
    match norm {
        Norm::Query(i) => layers[i].self_attn.q_norm,
        Norm::Key(i) => layers[i].self_attn.k_norm,
        Norm::Input(i) => layers[i].input_layernorm,
        Norm::PostAttention(i) => layers[i].post_attention_layernorm,
        Norm::Last => m.model.norm,
    }
}

fn with_last(shape: &[i32], n: i32) -> Vec<i32> {
    [&shape[..shape.len() - 1], &[n]].concat()
}

/// The shapes of all results of a pass; every operation has to accept its operands.
fn shapes(m: &Model, plan: &Plan, tokens: &[i32], offsets: &[i32]) -> Vec<Vec<i32>> {
    let (table, packing) = match m.model.embed_tokens {
        EmbeddingLayer::Original(e) => (e, None),
        EmbeddingLayer::Quantized(p) => (p.inner, Some((p.group_size, p.bits))),
    };
    let mut all: Vec<Vec<i32>> = Vec::new();
    for step in &plan.steps {
        let s = |i: &usize| all[*i].clone();
        let shape = match step {
            Step::Input => tokens.to_vec(),
            Step::Embed { x } => [s(x), vec![table.dimensions]].concat(),
            Step::Flatten { x } => vec![s(x).iter().product()],
            Step::Rows { of, x } => {
                let (group_size, bits) = packing.expect("packed rows");
                let row = match of {
                    Table::Weight => table.dimensions * bits / 32,
                    Table::Scales | Table::Biases => table.dimensions / group_size,
                };
                [s(x), vec![row]].concat()
            }
            Step::Dequantize {
                weight,
                scales,
                biases,
                group_size,
                bits,
            } => {
                let width = s(weight)[1] * 32 / bits;
                assert_eq!(s(scales)[1] * group_size, width);
                assert_eq!(s(scales), s(biases));
                with_last(&s(weight), width)
            }
            Step::Unembed { x } | Step::UnembedPacked { x, .. } => {
                assert_eq!(s(x).last(), Some(&table.dimensions));
                with_last(&s(x), table.embedding_count)
            }
            Step::Linear { proj, x } => {
                let layer = linear_of(m, *proj);
                assert_eq!(s(x).last(), Some(&layer.in_dim));
                with_last(&s(x), layer.out_dim)
            }
            Step::Norm { norm, x } => {
                assert_eq!(s(x).last(), Some(&rms_of(m, *norm).dim));
                s(x)
            }
            Step::Reshape { x, shape } => {
                let total: i32 = s(x).iter().product();
                let known: i32 = shape.iter().filter(|&&n| n != -1).product();
                let rest = |&n: &i32| if n == -1 { total / known } else { n };
                let new: Vec<i32> = shape.iter().map(rest).collect();
                assert_eq!(new.iter().product::<i32>(), total);
                new
            }
            Step::SwapAxes { x } => {
                let x = s(x);
                vec![x[0], x[2], x[1], x[3]]
            }
            Step::Append { layer, k, v } => {
                assert_eq!(s(k), s(v));
                let k = s(k);
                vec![k[0], k[1], offsets[*layer] + k[2], k[3]]
            }
            Step::Attend { q, k, v, .. } => {
                assert_eq!(s(k), s(v));
                assert_eq!(s(q)[1] % s(k)[1], 0);
                assert_eq!(s(q)[3], s(k)[3]);
                with_last(&s(q), s(v)[3])
            }
            Step::Add { x, y } | Step::Multiply { x, y } => {
                assert_eq!(s(x), s(y));
                s(x)
            }
            Step::Rotate { x, .. }
            | Step::Keys { x }
            | Step::Values { x }
            | Step::Silu { x } => s(x),
            other => panic!("unexpected step {other:?}"),
        };
        all.push(shape);
    }
    all
}

#[test]
fn logits_have_a_row_of_the_vocabulary_for_each_token() {
    for tied in [false, true] {
        for quantization in [
            None,
            Some(Quantization {
                group_size: 32,
                bits: 4,
            }),
        ] {
            for layers in [0, 1, 3] {
                let m = model(Qwen3Config {
                    hidden_size: 64,
                    vocab_size: 17,
                    tie_word_embeddings: tied,
                    quantization,
                    ..config(layers)
                });
                for l in [1, 5] {
                    let offsets = vec![9; m.n_layers()];
                    let plan = m.forward(&[1, l], &caches(&offsets)).unwrap();
                    let all = shapes(&m, &plan, &[1, l], &offsets);
                    assert_eq!(all.last(), Some(&vec![1, l, 17]));
                    let appended: Vec<_> = plan
                        .steps
                        .iter()
                        .filter_map(|step| match step {
                            Step::Append { k, v, .. } => Some((&all[*k], &all[*v])),
                            _ => None,
                        })
                        .collect();
                    let new = vec![1, 2, l, 4];
                    assert_eq!(appended, vec![(&new, &new); m.n_layers()]);
                }
            }
        }
    }
}

#[test]
fn a_cloned_backbone_is_the_same() {
    let m = model(packed(2));
    let copy = m.model.clone();
    assert_eq!(copy.embed_tokens, m.model.embed_tokens);
    assert_eq!(copy.layers, m.model.layers);
    assert_eq!(copy.norm, m.model.norm);
}

#[test]
fn each_layer_appends_to_its_cache_once_in_order() {
    let m = model(config(3));
    let plan = m.forward(&[1, 2], &caches(&[0, 0, 0])).unwrap();
    let layers: Vec<usize> = plan
        .steps
        .iter()
        .filter_map(|s| match s {
            Step::Append { layer, .. } => Some(*layer),
            _ => None,
        })
        .collect();
    assert_eq!(layers, [0, 1, 2]);
}

#[test]
fn the_feed_forward_part_stands_alone() {
    let mlp = Mlp::new(&config(1));
    let mut plan = Plan::new();
    let at = mlp.forward(7, &mut plan, 0);
    assert_eq!(
        expression(&plan, at),
        "Down(7)((silu(Gate(7)(tokens)) * Up(7)(tokens)))"
    );
}

#[test]
fn inputs_of_another_shape_are_refused_before_the_caches_are_counted() {
    let m = model(config(1));
    for (shape, shown) in [
        (vec![], "[]"),
        (vec![3], "[3]"),
        (vec![2, 3], "[2, 3]"),
        (vec![1, 0], "[1, 0]"),
        (vec![1, -4], "[1, -4]"),
        (vec![1, 2, 3], "[1, 2, 3]"),
    ] {
        let error = m.forward(&shape, &caches(&[])).unwrap_err();
        assert_eq!(
            error.message("", ""),
            format!("model input must have shape [1, L] with L >= 1, got {shown}")
        );
    }
    let error = m.forward(&[1, 1], &caches(&[0, 0])).unwrap_err();
    assert_eq!(
        error.message("", ""),
        "cache length 2 does not match layer count 1"
    );
}

#[test]
fn layers_take_their_dimensions_from_the_configuration() {
    let attention = Attention::new(&config(1)).unwrap();
    let plain = |in_dim, out_dim| LinearLayer {
        in_dim,
        out_dim,
        quantization: None,
    };
    assert_eq!(attention.q_proj, plain(8, 24));
    assert_eq!(attention.k_proj, plain(8, 8));
    assert_eq!(attention.v_proj, plain(8, 8));
    assert_eq!(attention.o_proj, plain(24, 8));
    let head_norm = RmsNorm {
        dim: 4,
        eps: single(1.0e-6),
    };
    assert_eq!(attention.q_norm, head_norm);
    assert_eq!(attention.k_norm, head_norm);
    assert_eq!(attention.rope.dims, 4);

    let block = TransformerBlock::new(&config(1)).unwrap();
    assert_eq!(block.mlp.gate_proj, plain(8, 32));
    assert_eq!(block.mlp.down_proj, plain(32, 8));
    assert_eq!(block.mlp.up_proj, plain(8, 32));
    assert_eq!(block.input_layernorm.dim, 8);
    assert_eq!(block.post_attention_layernorm.dim, 8);

    let m = model(config(1));
    assert_eq!(m.lm_head, Some(plain(8, 16)));
    assert_eq!(m.model.norm.dim, 8);
}

#[test]
fn packing_applies_to_every_layer() {
    let q = Some(Quantization {
        group_size: 64,
        bits: 4,
    });
    assert_eq!(linear(3, 5, &packed(1)).quantization, q);
    assert_eq!(packed(1).quantization(), q);
    let inner = EmbeddingModule::new(16, 8);
    assert_eq!(
        embedding(&packed(1)),
        EmbeddingLayer::Quantized(PackedEmbedding {
            group_size: 64,
            bits: 4,
            inner,
        })
    );
    assert_eq!(embedding(&config(1)), EmbeddingLayer::Original(inner));
    let backbone = Qwen3Backbone::new(&packed(2)).unwrap();
    assert_eq!(backbone.layers.len(), 2);
    assert_eq!(backbone.layers[1].self_attn.o_proj.quantization, q);
}

#[test]
fn a_bad_rope_is_refused_only_where_a_layer_uses_it() {
    let odd = |layers| Qwen3Config {
        head_dim: 3,
        ..config(layers)
    };
    match Model::new(odd(1)) {
        Err(e) => assert_eq!(e.message("", ""), "head_dim must be even for RoPE, got 3"),
        Ok(_) => panic!("an odd head dimension was accepted"),
    }
    assert_eq!(model(odd(0)).n_layers(), 0);
    assert_eq!(model(odd(-2)).n_layers(), 0);
    let wide = Qwen3Config {
        head_dim: i32::MAX,
        ..config(0)
    };
    assert_eq!(model(wide).n_layers(), 0);
}

#[test]
fn make_cache_gives_an_empty_cache_for_each_layer() {
    let m = model(config(4));
    assert_eq!(m.n_layers(), 4);
    let cache: Vec<KvCache<u64>> = m.make_cache();
    assert_eq!(cache.len(), 4);
    assert!(cache.iter().all(|c| c.offset() == 0 && c.keys().is_none()));
}

fn names(list: &[&str]) -> Vec<String> {
    list.iter().map(|s| s.to_string()).collect()
}

#[test]
fn parameters_take_the_tensors_of_their_names() {
    let params = names(&[
        "model.norm.weight",
        "model.embed_tokens.inner.weight",
        "model.embed_tokens.scales",
    ]);
    let tensors = names(&[
        "model.embed_tokens.weight",
        "model.norm.weight",
        "model.embed_tokens.scales",
        "unused",
    ]);
    let loaded = Model::load_weights(&params, &tensors);
    assert_eq!(loaded.tensors, [Some(1), Some(0), Some(2)]);
    assert!(loaded.outcome.is_ok());
}

#[test]
fn a_later_shard_wins_and_a_tensor_is_given_once() {
    let params = names(&["a.inner.weight", "a.weight"]);
    let tensors = names(&["a.weight", "b", "a.weight"]);
    let loaded = Model::load_weights(&params, &tensors);
    assert_eq!(loaded.tensors, [Some(2), None]);
    match loaded.outcome {
        Err(e) => assert_eq!(e.message("", ""), "a.weight"),
        Ok(()) => panic!("a parameter without a tensor was accepted"),
    }
}

#[test]
fn missing_parameters_are_named_in_order() {
    let few = Model::load_weights(&names(&["c", "a", "x", "b"]), &names(&["x"]));
    assert_eq!(few.tensors, [None, None, Some(0), None]);
    match few.outcome {
        Err(LmError::MissingWeight(text)) => assert_eq!(text, "a, b, c"),
        _ => panic!("missing parameters were accepted"),
    }
    let many = Model::load_weights(
        &names(&["g", "f", "e", "d", "c", "b", "aa", "a"]),
        &names(&[]),
    );
    match many.outcome {
        Err(LmError::MissingWeight(text)) => assert_eq!(text, "a, aa, b, c, d (+3 more)"),
        _ => panic!("missing parameters were accepted"),
    }
    let five = Model::load_weights(&names(&["e", "d", "c", "b", "a"]), &names(&[]));
    match five.outcome {
        Err(LmError::MissingWeight(text)) => assert_eq!(text, "a, b, c, d, e"),
        _ => panic!("missing parameters were accepted"),
    }
}

#[test]
fn the_order_of_the_parameters_does_not_show() {
    let forward = ["b.inner.weight", "c", "a", "z.scales"];
    let backward: Vec<&str> = forward.iter().rev().copied().collect();
    let tensors = names(&["z.scales", "b.weight"]);
    let one = Model::load_weights(&names(&forward), &tensors);
    let two = Model::load_weights(&names(&backward), &tensors);
    let mut reversed = two.tensors;
    reversed.reverse();
    assert_eq!(one.tensors, reversed);
    let text = |outcome: Result<(), LmError>| match outcome {
        Err(e) => e.message("", ""),
        Ok(()) => panic!("missing parameters were accepted"),
    };
    assert_eq!(text(one.outcome), "a, c");
    assert_eq!(text(two.outcome), "a, c");
}
