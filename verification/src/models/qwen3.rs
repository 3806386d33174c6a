//! The Qwen3 architecture: its layers, and the device program of a forward pass.

use crate::cache::{CacheState, KvCache};
use crate::config::{Quantization, Qwen3Config};
use crate::error::{first, Fault, LmError};
use crate::models::pass::{law_logits_have_their_shape, pass_of};
use crate::models::rope::{build_rope, rope_of, Rope};
use crate::plan::{extended_by, Norm, Plan, Projection, Step, Table, Term, REST};
use crate::single::Single;
use crate::text::{bracketed, digits, push_bracketed, push_digits, texts};
use crate::weights::{match_weights, Loaded};
use vstd::prelude::*;
use vstd::string::StringExecFns;

verus! {

/// An embedding of `embedding_count` tokens in `dimensions` dimensions.
#[derive(Clone, Copy, Debug, PartialEq, Eq, Structural)]
pub struct EmbeddingModule {
    pub embedding_count: i32,
    pub dimensions: i32,
}

/// An embedding whose weights are packed.
#[derive(Clone, Copy, Debug, PartialEq, Eq, Structural)]
pub struct PackedEmbedding {
    pub group_size: i32,
    pub bits: i32,
    pub inner: EmbeddingModule,
}

/// An embedding, packed or not.
#[derive(Clone, Copy, Debug, PartialEq, Eq, Structural)]
pub enum EmbeddingLayer {
    Original(EmbeddingModule),
    Quantized(PackedEmbedding),
}

/// A linear layer without bias, packed or not.
#[derive(Clone, Copy, Debug, PartialEq, Eq, Structural)]
pub struct LinearLayer {
    pub in_dim: i32,
    pub out_dim: i32,
    pub quantization: Option<Quantization>,
}

/// A root-mean-square normalisation.
#[derive(Clone, Copy, Debug, PartialEq, Eq, Structural)]
pub struct RmsNorm {
    pub dim: i32,
    pub eps: Single,
}

/// The attention of one layer.
#[derive(Clone, Copy, Debug, PartialEq, Eq, Structural)]
pub struct Attention {
    pub n_heads: i32,
    pub n_kv_heads: i32,
    pub head_dim: i32,
    pub q_proj: LinearLayer,
    pub k_proj: LinearLayer,
    pub v_proj: LinearLayer,
    pub o_proj: LinearLayer,
    pub q_norm: RmsNorm,
    pub k_norm: RmsNorm,
    pub rope: Rope,
}

/// The feed-forward part of one layer.
#[derive(Clone, Copy, Debug, PartialEq, Eq, Structural)]
pub struct Mlp {
    pub gate_proj: LinearLayer,
    pub down_proj: LinearLayer,
    pub up_proj: LinearLayer,
}

/// One layer.
#[derive(Clone, Copy, Debug, PartialEq, Eq, Structural)]
pub struct TransformerBlock {
    pub self_attn: Attention,
    pub mlp: Mlp,
    pub input_layernorm: RmsNorm,
    pub post_attention_layernorm: RmsNorm,
}

/// All layers, between the embedding and the last normalisation.
#[derive(Clone, Debug)]
pub struct Qwen3Backbone {
    pub embed_tokens: EmbeddingLayer,
    pub layers: Vec<TransformerBlock>,
    pub norm: RmsNorm,
}

/// The model: the backbone and the output layer. Without one of its own, the
/// embedding serves as output layer.
pub struct Model {
    pub config: Qwen3Config,
    pub model: Qwen3Backbone,
    pub lm_head: Option<LinearLayer>,
}

/// The linear layer of a configuration with the given dimensions.
pub open spec fn linear_of(in_dim: int, out_dim: int, cfg: Qwen3Config) -> LinearLayer {
    LinearLayer {
        in_dim: in_dim as i32,
        out_dim: out_dim as i32,
        quantization: cfg.quantization,
    }
}

/// The embedding of a configuration.
pub open spec fn embedding_of(cfg: Qwen3Config) -> EmbeddingLayer {
    let inner = EmbeddingModule { embedding_count: cfg.vocab_size, dimensions: cfg.hidden_size };
    match cfg.quantization {
        Some(q) => EmbeddingLayer::Quantized(
            PackedEmbedding { group_size: q.group_size, bits: q.bits, inner },
        ),
        None => EmbeddingLayer::Original(inner),
    }
}

/// The normalisation of a configuration with the given dimension.
pub open spec fn rms_of(dim: int, cfg: Qwen3Config) -> RmsNorm {
    RmsNorm { dim: dim as i32, eps: cfg.rms_norm_eps }
}

/// The widths of all heads together fit a machine integer.
pub open spec fn widths_fit(cfg: Qwen3Config) -> bool {
    &&& i32::MIN <= cfg.num_attention_heads * cfg.head_dim <= i32::MAX
    &&& i32::MIN <= cfg.num_key_value_heads * cfg.head_dim <= i32::MAX
}

/// The attention of a configuration, or what is wrong with its rope.
pub open spec fn attention_of(cfg: Qwen3Config) -> Result<Attention, Fault> {
    let dim = cfg.hidden_size as int;
    let width = cfg.num_attention_heads * cfg.head_dim;
    let kv_width = cfg.num_key_value_heads * cfg.head_dim;
    match rope_of(cfg.head_dim, cfg.rope_theta, cfg.rope_scaling) {
        Ok(rope) => Ok(
            Attention {
                n_heads: cfg.num_attention_heads,
                n_kv_heads: cfg.num_key_value_heads,
                head_dim: cfg.head_dim,
                q_proj: linear_of(dim, width, cfg),
                k_proj: linear_of(dim, kv_width, cfg),
                v_proj: linear_of(dim, kv_width, cfg),
                o_proj: linear_of(width, dim, cfg),
                q_norm: rms_of(cfg.head_dim as int, cfg),
                k_norm: rms_of(cfg.head_dim as int, cfg),
                rope,
            },
        ),
        Err(f) => Err(f),
    }
}

/// The feed-forward part of a configuration.
pub open spec fn mlp_of(cfg: Qwen3Config) -> Mlp {
    let dim = cfg.hidden_size as int;
    let inner = cfg.intermediate_size as int;
    Mlp {
        gate_proj: linear_of(dim, inner, cfg),
        down_proj: linear_of(inner, dim, cfg),
        up_proj: linear_of(dim, inner, cfg),
    }
}

/// A layer of a configuration, or what is wrong with its rope.
pub open spec fn block_of(cfg: Qwen3Config) -> Result<TransformerBlock, Fault> {
    match attention_of(cfg) {
        Ok(self_attn) => Ok(
            TransformerBlock {
                self_attn,
                mlp: mlp_of(cfg),
                input_layernorm: rms_of(cfg.hidden_size as int, cfg),
                post_attention_layernorm: rms_of(cfg.hidden_size as int, cfg),
            },
        ),
        Err(f) => Err(f),
    }
}

/// Number of layers of a configuration.
pub open spec fn layer_count(cfg: Qwen3Config) -> nat {
    if cfg.num_hidden_layers > 0 {
        cfg.num_hidden_layers as nat
    } else {
        0
    }
}

impl Qwen3Backbone {
    /// The backbone is that of `cfg`.
    pub open spec fn is_of(self, cfg: Qwen3Config) -> bool {
        &&& self.embed_tokens == embedding_of(cfg)
        &&& self.norm == rms_of(cfg.hidden_size as int, cfg)
        &&& self.layers@.len() == layer_count(cfg)
        &&& forall|i: int|
            0 <= i < self.layers@.len() ==> Ok::<TransformerBlock, Fault>(
                #[trigger] self.layers@[i],
            ) == block_of(cfg)
    }
}

impl Model {
    /// The model is that of `cfg`.
    pub open spec fn is_of(self, cfg: Qwen3Config) -> bool {
        &&& self.config == cfg
        &&& self.model.is_of(cfg)
        &&& self.lm_head == (if cfg.tie_word_embeddings {
            None
        } else {
            Some(linear_of(cfg.hidden_size as int, cfg.vocab_size as int, cfg))
        })
    }
}

/// What is wrong with a configuration: with its rope, if it has a layer.
pub open spec fn model_fault(cfg: Qwen3Config) -> Option<Fault> {
    match block_of(cfg) {
        Err(f) if layer_count(cfg) > 0 => Some(f),
        _ => None,
    }
}

/// The embedding of the tokens `x`, whose shape is `shape`.
pub open spec fn embedded(layer: EmbeddingLayer, x: Term, shape: Seq<i32>) -> Term {
    match layer {
        EmbeddingLayer::Original(_) => x.embed(),
        EmbeddingLayer::Quantized(p) => Term::Dequantize {
            weight: Box::new(x.flatten().rows(Table::Weight)),
            scales: Box::new(x.flatten().rows(Table::Scales)),
            biases: Box::new(x.flatten().rows(Table::Biases)),
            group_size: p.group_size,
            bits: p.bits,
        }.reshape(shape.push(REST)),
    }
}

/// The embedding as output layer, applied to `x`.
pub open spec fn unembedded(layer: EmbeddingLayer, x: Term) -> Term {
    match layer {
        EmbeddingLayer::Original(_) => x.unembed(),
        EmbeddingLayer::Quantized(p) => x.unembed_packed(p.group_size, p.bits),
    }
}

/// The queries of layer `layer` for `x`, a batch of `b` with `l` positions, the
/// first of which is `at`: split into heads, normalised and rotated.
pub open spec fn queries(a: Attention, layer: usize, x: Term, b: i32, l: i32, at: i32) -> Term {
    x.linear(Projection::Query(layer)).reshape(seq![b, l, a.n_heads, a.head_dim]).norm(
        Norm::Query(layer),
    ).swap_axes().rotate(layer, at)
}

/// The keys that layer `layer` adds for `x`.
pub open spec fn new_keys(a: Attention, layer: usize, x: Term, b: i32, l: i32, at: i32) -> Term {
    x.linear(Projection::Key(layer)).reshape(seq![b, l, a.n_kv_heads, a.head_dim]).norm(
        Norm::Key(layer),
    ).swap_axes().rotate(layer, at)
}

/// The values that layer `layer` adds for `x`.
pub open spec fn new_values(a: Attention, layer: usize, x: Term, b: i32, l: i32) -> Term {
    x.linear(Projection::Value(layer)).reshape(
        seq![b, l, a.n_kv_heads, a.head_dim],
    ).swap_axes()
}

/// The attention of layer `layer` on `x`, a batch of `b` with `l` positions.
/// With a cache, whose positions end at `offset`, the new keys and values are
/// appended to it, and all of them are attended to; without one, the new ones.
/// The mask is needed only where there is more than one query.
pub open spec fn attended(
    a: Attention,
    layer: usize,
    x: Term,
    b: i32,
    l: i32,
    offset: Option<i32>,
) -> Term {
    let at = match offset {
        Some(n) => n,
        None => 0,
    };
    let new_k = new_keys(a, layer, x, b, l, at);
    let new_v = new_values(a, layer, x, b, l);
    let all = Term::Append { layer, k: Box::new(new_k), v: Box::new(new_v) };
    let (k, v) = if offset is Some {
        (all.keys(), all.values())
    } else {
        (new_k, new_v)
    };
    Term::Attend {
        q: Box::new(queries(a, layer, x, b, l, at)),
        k: Box::new(k),
        v: Box::new(v),
        head_dim: a.head_dim,
        causal: l > 1,
    }.swap_axes().reshape(seq![b, l, REST]).linear(Projection::Output(layer))
}

/// The feed-forward part of layer `layer` on `x`.
pub open spec fn fed_forward(layer: usize, x: Term) -> Term {
    x.linear(Projection::Gate(layer)).silu().times(x.linear(Projection::Up(layer))).linear(
        Projection::Down(layer),
    )
}

/// Layer `layer` on `x`: the attention on top of `x`, and the feed-forward part
/// on top of that.
pub open spec fn transformed(
    t: TransformerBlock,
    layer: usize,
    x: Term,
    b: i32,
    l: i32,
    offset: Option<i32>,
) -> Term {
    let h = x.plus(attended(t.self_attn, layer, x.norm(Norm::Input(layer)), b, l, offset));
    h.plus(fed_forward(layer, h.norm(Norm::PostAttention(layer))))
}

/// What comes out of the first `n` layers.
pub open spec fn hidden<A>(
    m: Qwen3Backbone,
    cache: Seq<KvCache<A>>,
    shape: Seq<i32>,
    n: int,
) -> Term
    decreases n,
{
    if n <= 0 {
        embedded(m.embed_tokens, Term::Input, shape)
    } else {
        transformed(
            m.layers@[n - 1],
            (n - 1) as usize,
            hidden(m, cache, shape, n - 1),
            shape[0],
            shape[1],
            Some(cache[n - 1]@.offset),
        )
    }
}

/// What the model makes of tokens of the given shape.
pub open spec fn logits<A>(m: Model, cache: Seq<KvCache<A>>, shape: Seq<i32>) -> Term {
    let h = hidden(m.model, cache, shape, m.model.layers@.len() as int).norm(Norm::Last);
    match m.lm_head {
        Some(_) => h.linear(Projection::Head),
        None => unembedded(m.model.embed_tokens, h),
    }
}

/// What is wrong with the shape of the tokens.
pub open spec fn shape_fault(shape: Seq<i32>) -> Option<Fault> {
    if shape.len() == 2 && shape[0] == 1 && shape[1] >= 1 {
        None
    } else {
        Some(
            Fault::Config(
                "model input must have shape [1, L] with L >= 1, got "@ + bracketed(shape),
            ),
        )
    }
}

/// What is wrong with the number of caches.
pub open spec fn cache_fault(caches: nat, layers: nat) -> Option<Fault> {
    if caches == layers {
        None
    } else {
        Some(
            Fault::Config(
                "cache length "@ + digits(caches) + " does not match layer count "@ + digits(
                    layers,
                ),
            ),
        )
    }
}

impl EmbeddingModule {
    /// An embedding of `embedding_count` tokens in `dimensions` dimensions.
    pub fn new(embedding_count: i32, dimensions: i32) -> (r: Self)
        ensures
            r == (EmbeddingModule { embedding_count, dimensions }),
    {
        EmbeddingModule { embedding_count, dimensions }
    }

    /// The packed form, with `bits` bits for a weight and `group_size` weights
    /// in a group.
    pub fn try_into_quantized(self, group_size: i32, bits: i32) -> (r: PackedEmbedding)
        ensures
            r == (PackedEmbedding { group_size, bits, inner: self }),
    {
        PackedEmbedding { group_size, bits, inner: self }
    }

    /// Embeds the tokens of result `x`.
    fn forward(&self, plan: &mut Plan, x: usize) -> (r: usize)
        requires
            old(plan).wf(),
            x < old(plan).size(),
        ensures
            extended_by(*old(plan), *final(plan), r, old(plan).term(x as int).embed()),
            final(plan).appends() == old(plan).appends(),
    {
        plan.push(Step::Embed { x })
    }

    /// Applies the transposed embedding to result `x`.
    fn as_linear(&self, plan: &mut Plan, x: usize) -> (r: usize)
        requires
            old(plan).wf(),
            x < old(plan).size(),
        ensures
            extended_by(*old(plan), *final(plan), r, old(plan).term(x as int).unembed()),
            final(plan).appends() == old(plan).appends(),
    {
        plan.push(Step::Unembed { x })
    }
}

impl PackedEmbedding {
    /// Embeds the tokens of result `x`, whose shape is `shape`: the packed rows
    /// of all tokens are unpacked together, and put back into that shape.
    fn forward(&self, plan: &mut Plan, x: usize, shape: &[i32]) -> (r: usize)
        requires
            old(plan).wf(),
            x < old(plan).size(),
        ensures
            extended_by(
                *old(plan),
                *final(plan),
                r,
                embedded(EmbeddingLayer::Quantized(*self), old(plan).term(x as int), shape@),
            ),
            final(plan).appends() == old(plan).appends(),
    {
        let indices: usize = plan.push(Step::Flatten { x });
        let weight: usize = plan.push(Step::Rows { of: Table::Weight, x: indices });
        let scales: usize = plan.push(Step::Rows { of: Table::Scales, x: indices });
        let biases: usize = plan.push(Step::Rows { of: Table::Biases, x: indices });
        let output: usize = plan.push(
            Step::Dequantize {
                weight,
                scales,
                biases,
                group_size: self.group_size,
                bits: self.bits,
            },
        );
        let mut output_shape: Vec<i32> = Vec::new();
        output_shape.extend_from_slice(shape);
        output_shape.push(REST);
        assert(output_shape@ =~= shape@.push(REST));
        plan.push(Step::Reshape { x: output, shape: output_shape })
    }

    /// Applies the transposed embedding to result `x`.
    fn as_linear(&self, plan: &mut Plan, x: usize) -> (r: usize)
        requires
            old(plan).wf(),
            x < old(plan).size(),
        ensures
            extended_by(
                *old(plan),
                *final(plan),
                r,
                unembedded(EmbeddingLayer::Quantized(*self), old(plan).term(x as int)),
            ),
            final(plan).appends() == old(plan).appends(),
    {
        plan.push(Step::UnembedPacked { x, group_size: self.group_size, bits: self.bits })
    }
}

/// A linear layer, packed where the configuration says so.
pub fn linear(in_dim: i32, out_dim: i32, cfg: &Qwen3Config) -> (r: LinearLayer)
    ensures
        r == linear_of(in_dim as int, out_dim as int, *cfg),
{
    match cfg.quantization() {
        Some(q) => LinearLayer { in_dim, out_dim, quantization: Some(q) },
        None => LinearLayer { in_dim, out_dim, quantization: None },
    }
}

/// The embedding, packed where the configuration says so.
pub fn embedding(cfg: &Qwen3Config) -> (r: EmbeddingLayer)
    ensures
        r == embedding_of(*cfg),
{
    let layer = EmbeddingModule::new(cfg.vocab_size, cfg.hidden_size);
    match cfg.quantization() {
        Some(q) => EmbeddingLayer::Quantized(layer.try_into_quantized(q.group_size, q.bits)),
        None => EmbeddingLayer::Original(layer),
    }
}

/// Embeds the tokens of result `x`, whose shape is `shape`.
fn embed(layer: &EmbeddingLayer, plan: &mut Plan, x: usize, shape: &[i32]) -> (r: usize)
    requires
        old(plan).wf(),
        x < old(plan).size(),
    ensures
        extended_by(
            *old(plan),
            *final(plan),
            r,
            embedded(*layer, old(plan).term(x as int), shape@),
        ),
        final(plan).appends() == old(plan).appends(),
{
    match layer {
        EmbeddingLayer::Original(e) => e.forward(plan, x),
        EmbeddingLayer::Quantized(e) => e.forward(plan, x, shape),
    }
}

/// Applies the transposed embedding to result `x`.
fn embedding_as_linear(layer: &EmbeddingLayer, plan: &mut Plan, x: usize) -> (r: usize)
    requires
        old(plan).wf(),
        x < old(plan).size(),
    ensures
        extended_by(*old(plan), *final(plan), r, unembedded(*layer, old(plan).term(x as int))),
        final(plan).appends() == old(plan).appends(),
{
    match layer {
        EmbeddingLayer::Original(e) => e.as_linear(plan, x),
        EmbeddingLayer::Quantized(e) => e.as_linear(plan, x),
    }
}

/// A normalisation of the given dimension.
fn rms(dim: i32, eps: Single) -> (r: RmsNorm)
    ensures
        r == (RmsNorm { dim, eps }),
{
    RmsNorm { dim, eps }
}

impl Attention {
    /// The attention of a configuration.
    pub fn new(cfg: &Qwen3Config) -> (r: Result<Self, LmError>)
        requires
            widths_fit(*cfg),
        ensures
            match r {
                Ok(a) => attention_of(*cfg) == Ok::<Attention, Fault>(a),
                Err(e) => attention_of(*cfg) == Err::<Attention, Fault>(e@),
            },
    {
        let dim: i32 = cfg.hidden_size;
        let n_heads: i32 = cfg.num_attention_heads;
        let n_kv_heads: i32 = cfg.num_key_value_heads;
        let head_dim: i32 = cfg.head_dim;
        let q_proj = linear(dim, n_heads * head_dim, cfg);
        let k_proj = linear(dim, n_kv_heads * head_dim, cfg);
        let v_proj = linear(dim, n_kv_heads * head_dim, cfg);
        let o_proj = linear(n_heads * head_dim, dim, cfg);
        let q_norm = rms(head_dim, cfg.rms_norm_eps);
        let k_norm = rms(head_dim, cfg.rms_norm_eps);
        match build_rope(head_dim, cfg.rope_theta, &cfg.rope_scaling) {
            Ok(rope) => Ok(
                Attention {
                    n_heads,
                    n_kv_heads,
                    head_dim,
                    q_proj,
                    k_proj,
                    v_proj,
                    o_proj,
                    q_norm,
                    k_norm,
                    rope,
                },
            ),
            Err(e) => Err(e),
        }
    }

    /// Lays down the attention of layer `layer` on result `x`, a batch of `b`
    /// with `l` positions.
    fn forward<A>(
        &self,
        layer: usize,
        plan: &mut Plan,
        x: usize,
        b: i32,
        l: i32,
        cache: Option<&KvCache<A>>,
    ) -> (r: usize)
        requires
            old(plan).wf(),
            x < old(plan).size(),
        ensures
            extended_by(
                *old(plan),
                *final(plan),
                r,
                attended(
                    *self,
                    layer,
                    old(plan).term(x as int),
                    b,
                    l,
                    match cache {
                        Some(c) => Some(c@.offset),
                        None => None,
                    },
                ),
            ),
            final(plan).appends() == (if cache is Some {
                old(plan).appends().push(layer as int)
            } else {
                old(plan).appends()
            }),
    {
        let q: usize = plan.push(Step::Linear { proj: Projection::Query(layer), x });
        let k: usize = plan.push(Step::Linear { proj: Projection::Key(layer), x });
        let v: usize = plan.push(Step::Linear { proj: Projection::Value(layer), x });

        let q: usize = plan.push(
            Step::Reshape { x: q, shape: vec![b, l, self.n_heads, self.head_dim] },
        );
        let k: usize = plan.push(
            Step::Reshape { x: k, shape: vec![b, l, self.n_kv_heads, self.head_dim] },
        );
        let v: usize = plan.push(
            Step::Reshape { x: v, shape: vec![b, l, self.n_kv_heads, self.head_dim] },
        );
        let v: usize = plan.push(Step::SwapAxes { x: v });

        let q: usize = plan.push(Step::Norm { norm: Norm::Query(layer), x: q });
        let k: usize = plan.push(Step::Norm { norm: Norm::Key(layer), x: k });
        let q: usize = plan.push(Step::SwapAxes { x: q });
        let k: usize = plan.push(Step::SwapAxes { x: k });

        let offset: i32 = match cache {
            Some(c) => c.offset(),
            None => 0,
        };
        let q: usize = plan.push(Step::Rotate { layer, x: q, offset });
        let k: usize = plan.push(Step::Rotate { layer, x: k, offset });

        let (k, v): (usize, usize) = if cache.is_some() {
            let both: usize = plan.push(Step::Append { layer, k, v });
            let keys: usize = plan.push(Step::Keys { x: both });
            let values: usize = plan.push(Step::Values { x: both });
            (keys, values)
        } else {
            (k, v)
        };

        let out: usize = plan.push(
            Step::Attend { q, k, v, head_dim: self.head_dim, causal: l > 1 },
        );
        let out: usize = plan.push(Step::SwapAxes { x: out });
        let out: usize = plan.push(Step::Reshape { x: out, shape: vec![b, l, REST] });
        plan.push(Step::Linear { proj: Projection::Output(layer), x: out })
    }
}

impl Mlp {
    /// The feed-forward part of a configuration.
    pub fn new(cfg: &Qwen3Config) -> (r: Self)
        ensures
            r == mlp_of(*cfg),
    {
        Mlp {
            gate_proj: linear(cfg.hidden_size, cfg.intermediate_size, cfg),
            down_proj: linear(cfg.intermediate_size, cfg.hidden_size, cfg),
            up_proj: linear(cfg.hidden_size, cfg.intermediate_size, cfg),
        }
    }

    /// Lays down the feed-forward part of layer `layer` on result `x`.
    pub fn forward(&self, layer: usize, plan: &mut Plan, x: usize) -> (r: usize)
        requires
            old(plan).wf(),
            x < old(plan).size(),
        ensures
            extended_by(
                *old(plan),
                *final(plan),
                r,
                fed_forward(layer, old(plan).term(x as int)),
            ),
            final(plan).appends() == old(plan).appends(),
    {
        let g: usize = plan.push(Step::Linear { proj: Projection::Gate(layer), x });
        let u: usize = plan.push(Step::Linear { proj: Projection::Up(layer), x });
        let g: usize = plan.push(Step::Silu { x: g });
        let h: usize = plan.push(Step::Multiply { x: g, y: u });
        plan.push(Step::Linear { proj: Projection::Down(layer), x: h })
    }
}

impl TransformerBlock {
    /// A layer of a configuration.
    pub fn new(cfg: &Qwen3Config) -> (r: Result<Self, LmError>)
        requires
            widths_fit(*cfg),
        ensures
            match r {
                Ok(t) => block_of(*cfg) == Ok::<TransformerBlock, Fault>(t),
                Err(e) => block_of(*cfg) == Err::<TransformerBlock, Fault>(e@),
            },
    {
        match Attention::new(cfg) {
            Ok(self_attn) => Ok(
                TransformerBlock {
                    self_attn,
                    mlp: Mlp::new(cfg),
                    input_layernorm: rms(cfg.hidden_size, cfg.rms_norm_eps),
                    post_attention_layernorm: rms(cfg.hidden_size, cfg.rms_norm_eps),
                },
            ),
            Err(e) => Err(e),
        }
    }

    /// Lays down layer `layer` on result `x`, a batch of `b` with `l` positions.
    fn forward<A>(
        &self,
        layer: usize,
        plan: &mut Plan,
        x: usize,
        b: i32,
        l: i32,
        cache: Option<&KvCache<A>>,
    ) -> (r: usize)
        requires
            old(plan).wf(),
            x < old(plan).size(),
        ensures
            extended_by(
                *old(plan),
                *final(plan),
                r,
                transformed(
                    *self,
                    layer,
                    old(plan).term(x as int),
                    b,
                    l,
                    match cache {
                        Some(c) => Some(c@.offset),
                        None => None,
                    },
                ),
            ),
            final(plan).appends() == (if cache is Some {
                old(plan).appends().push(layer as int)
            } else {
                old(plan).appends()
            }),
    {
        let normed: usize = plan.push(Step::Norm { norm: Norm::Input(layer), x });
        let attn: usize = self.self_attn.forward(layer, plan, normed, b, l, cache);
        let h: usize = plan.push(Step::Add { x, y: attn });
        let normed: usize = plan.push(Step::Norm { norm: Norm::PostAttention(layer), x: h });
        let r: usize = self.mlp.forward(layer, plan, normed);
        plan.push(Step::Add { x: h, y: r })
    }
}

impl Qwen3Backbone {
    /// The backbone of a configuration.
    pub fn new(cfg: &Qwen3Config) -> (r: Result<Self, LmError>)
        requires
            layer_count(*cfg) > 0 ==> widths_fit(*cfg),
        ensures
            match r {
                Ok(m) => model_fault(*cfg) is None && m.is_of(*cfg),
                Err(e) => model_fault(*cfg) == Some(e@),
            },
    {
        let mut layers: Vec<TransformerBlock> = Vec::new();
        let mut i: i32 = 0;
        while i < cfg.num_hidden_layers
            invariant
                layer_count(*cfg) > 0 ==> widths_fit(*cfg),
                0 <= i <= layer_count(*cfg),
                layers@.len() == i,
                i > 0 ==> block_of(*cfg) is Ok,
                forall|j: int|
                    0 <= j < i ==> Ok::<TransformerBlock, Fault>(#[trigger] layers@[j])
                        == block_of(*cfg),
            decreases cfg.num_hidden_layers - i,
        {
            match TransformerBlock::new(cfg) {
                Ok(block) => layers.push(block),
                Err(e) => {
                    return Err(e);
                },
            }
            i = i + 1;
        }
        Ok(
            Qwen3Backbone {
                embed_tokens: embedding(cfg),
                layers,
                norm: rms(cfg.hidden_size, cfg.rms_norm_eps),
            },
        )
    }

    /// Lays down the backbone on the tokens, whose shape is `shape`.
    fn forward<A>(&self, plan: &mut Plan, shape: &[i32], cache: &[KvCache<A>]) -> (r: Result<
        usize,
        LmError,
    >)
        requires
            old(plan).wf(),
            old(plan).size() > 0,
            old(plan).term(0) == Term::Input,
            old(plan).appends() == Seq::<int>::empty(),
            shape@.len() >= 2,
        ensures
            match r {
                Ok(h) => {
                    &&& cache_fault(cache@.len(), self.layers@.len()) is None
                    &&& extended_by(
                        *old(plan),
                        *final(plan),
                        h,
                        hidden(*self, cache@, shape@, self.layers@.len() as int).norm(Norm::Last),
                    )
                    &&& final(plan).appends() == Seq::new(self.layers@.len(), |i: int| i)
                },
                Err(e) => cache_fault(cache@.len(), self.layers@.len()) == Some(e@),
            },
    {
        if cache.len() != self.layers.len() {
            let mut text = "cache length ".to_owned();
            push_digits(&mut text, cache.len() as u64);
            text.append(" does not match layer count ");
            push_digits(&mut text, self.layers.len() as u64);
            return Err(LmError::Config(text));
        }
        let mut h: usize = embed(&self.embed_tokens, plan, 0, shape);
        assert(plan.appends() =~= Seq::new(0, |i: int| i));
        for i in 0..self.layers.len()
            invariant
                plan.wf(),
                plan.continues(*old(plan)),
                h < plan.size(),
                cache@.len() == self.layers@.len(),
                shape@.len() >= 2,
                plan.term(h as int) == hidden(*self, cache@, shape@, i as int),
                plan.appends() =~= Seq::new(i as nat, |i: int| i),
        {
            h = self.layers[i].forward(i, plan, h, shape[0], shape[1], Some(&cache[i]));
        }
        Ok(plan.push(Step::Norm { norm: Norm::Last, x: h }))
    }
}

impl Model {
    /// The model of a configuration. It has an output layer of its own unless
    /// the embedding is to serve as one.
    pub fn new(cfg: Qwen3Config) -> (r: Result<Self, LmError>)
        requires
            layer_count(cfg) > 0 ==> widths_fit(cfg),
        ensures
            match r {
                Ok(m) => model_fault(cfg) is None && m.is_of(cfg),
                Err(e) => model_fault(cfg) == Some(e@),
            },
    {
        let model = match Qwen3Backbone::new(&cfg) {
            Ok(m) => m,
            Err(e) => {
                return Err(e);
            },
        };
        let lm_head = if cfg.tie_word_embeddings {
            None
        } else {
            Some(linear(cfg.hidden_size, cfg.vocab_size, &cfg))
        };
        Ok(Model { config: cfg, model, lm_head })
    }

    /// The device program that turns tokens of the given shape into logits. Its
    /// last result are the logits, of shape `[1, L, vocab_size]` for a model as
    /// configured. Each layer continues its cache.
    pub fn forward<A>(&self, shape: &[i32], cache: &[KvCache<A>]) -> (r: Result<Plan, LmError>)
        ensures
            match r {
                Ok(plan) => {
                    &&& shape_fault(shape@) is None
                    &&& cache_fault(cache@.len(), self.model.layers@.len()) is None
                    &&& plan.wf()
                    &&& plan.size() > 0
                    &&& plan.term(plan.size() - 1) == logits(*self, cache@, shape@)
                    &&& plan.appends() == Seq::new(self.model.layers@.len(), |i: int| i)
                    &&& self.is_of(self.config) ==> pass_of(*self, cache@, shape@).shape_of(
                        plan.term(plan.size() - 1),
                    ) == seq![1i32, shape@[1], self.config.vocab_size]
                },
                Err(e) => first(
                    shape_fault(shape@),
                    cache_fault(cache@.len(), self.model.layers@.len()),
                ) == Some(e@),
            },
    {
        if shape.len() != 2 || shape[0] != 1 || shape[1] < 1 {
            let mut text = "model input must have shape [1, L] with L >= 1, got ".to_owned();
            push_bracketed(&mut text, shape);
            return Err(LmError::Config(text));
        }
        let mut plan = Plan::new();
        let h: usize = match self.model.forward(&mut plan, shape, cache) {
            Ok(h) => h,
            Err(e) => {
                return Err(e);
            },
        };
        match &self.lm_head {
            Some(_) => {
                plan.push(Step::Linear { proj: Projection::Head, x: h });
            },
            None => {
                embedding_as_linear(&self.model.embed_tokens, &mut plan, h);
            },
        }
        proof {
            if self.is_of(self.config) {
                law_logits_have_their_shape(*self, self.config, cache@, shape@);
            }
        }
        Ok(plan)
    }

    /// Number of layers.
    pub fn n_layers(&self) -> (r: usize)
        ensures
            r == self.model.layers@.len(),
    {
        self.model.layers.len()
    }

    /// An empty cache for each layer.
    pub fn make_cache<A>(&self) -> (r: Vec<KvCache<A>>)
        ensures
            r@.len() == self.model.layers@.len(),
            forall|i: int|
                0 <= i < r@.len() ==> (#[trigger] r@[i])@ == CacheState::<A>::empty(),
    {
        let n: usize = self.n_layers();
        let mut caches: Vec<KvCache<A>> = Vec::new();
        for i in 0..n
            invariant
                caches@.len() == i,
                forall|j: int|
                    0 <= j < i ==> (#[trigger] caches@[j])@ == CacheState::<A>::empty(),
        {
            caches.push(KvCache::new());
        }
        caches
    }

    /// Matches the parameters, given by name, with the tensors of a checkpoint,
    /// given by name in the order of loading. Every parameter that has a tensor
    /// takes it, also where others have none, which is an error.
    pub fn load_weights(params: &Vec<String>, tensors: &Vec<String>) -> (r: Loaded)
        ensures
            r.is_of(texts(params@), texts(tensors@)),
    {
        match_weights(params, tensors)
    }
}

/// A configuration that packs the weights packs those of every layer and of the
/// embedding in the same way; one that does not packs none.
pub proof fn law_packing_is_uniform(m: Qwen3Backbone, cfg: Qwen3Config, i: int)
    requires
        m.is_of(cfg),
        0 <= i < m.layers@.len(),
    ensures
        ({
            let t = m.layers@[i];
            &&& t.self_attn.q_proj.quantization == cfg.quantization
            &&& t.self_attn.k_proj.quantization == cfg.quantization
            &&& t.self_attn.v_proj.quantization == cfg.quantization
            &&& t.self_attn.o_proj.quantization == cfg.quantization
            &&& t.mlp.gate_proj.quantization == cfg.quantization
            &&& t.mlp.up_proj.quantization == cfg.quantization
            &&& t.mlp.down_proj.quantization == cfg.quantization
            &&& m.embed_tokens is Quantized <==> cfg.quantization is Some
        }),
{
    assert(Ok::<TransformerBlock, Fault>(m.layers@[i]) == block_of(cfg));
}

/// A model has as many layers as configured, and every one has the configured
/// numbers and widths: all heads of a layer together are as wide as its queries, or
/// keys and values, and what comes out of each part is as wide as what went in. It
/// normalises with the configured bound, and packs as configured.
pub proof fn law_layers_are_as_configured(m: Model, cfg: Qwen3Config, i: int)
    requires
        m.is_of(cfg),
        widths_fit(cfg),
        0 <= i < m.model.layers@.len(),
    ensures
        ({
            let t = m.model.layers@[i];
            let a = t.self_attn;
            let heads = cfg.num_attention_heads * cfg.head_dim;
            let kv_heads = cfg.num_key_value_heads * cfg.head_dim;
            let is = |l: LinearLayer, from: int, to: int|
                l.in_dim == from && l.out_dim == to && l.quantization == cfg.quantization;
            let norms = |n: RmsNorm, dim: int| n.dim == dim && n.eps == cfg.rms_norm_eps;
            &&& m.model.layers@.len() == cfg.num_hidden_layers
            &&& a.n_heads == cfg.num_attention_heads
            &&& a.n_kv_heads == cfg.num_key_value_heads
            &&& a.head_dim == cfg.head_dim
            &&& is(a.q_proj, cfg.hidden_size as int, heads)
            &&& is(a.k_proj, cfg.hidden_size as int, kv_heads)
            &&& is(a.v_proj, cfg.hidden_size as int, kv_heads)
            &&& is(a.o_proj, heads, cfg.hidden_size as int)
            &&& norms(a.q_norm, cfg.head_dim as int)
            &&& norms(a.k_norm, cfg.head_dim as int)
            &&& is(t.mlp.gate_proj, cfg.hidden_size as int, cfg.intermediate_size as int)
            &&& is(t.mlp.up_proj, cfg.hidden_size as int, cfg.intermediate_size as int)
            &&& is(t.mlp.down_proj, cfg.intermediate_size as int, cfg.hidden_size as int)
            &&& norms(t.input_layernorm, cfg.hidden_size as int)
            &&& norms(t.post_attention_layernorm, cfg.hidden_size as int)
            &&& norms(m.model.norm, cfg.hidden_size as int)
            &&& rope_of(cfg.head_dim, cfg.rope_theta, cfg.rope_scaling) == Ok::<Rope, Fault>(a.rope)
        }),
{
    assert(Ok::<TransformerBlock, Fault>(m.model.layers@[i]) == block_of(cfg));
}

/// The embedding of a model has a row of the hidden width for each token of the
/// vocabulary, packed as configured. The model has an output layer of its own, from
/// the hidden width to the vocabulary, exactly if the embedding is not to serve as
/// one. There are no layers where none are configured.
pub proof fn law_ends_are_as_configured(m: Model, cfg: Qwen3Config)
    requires
        m.is_of(cfg),
    ensures
        match (m.model.embed_tokens, cfg.quantization) {
            (EmbeddingLayer::Original(e), None) => {
                e.embedding_count == cfg.vocab_size && e.dimensions == cfg.hidden_size
            },
            (EmbeddingLayer::Quantized(p), Some(q)) => {
                &&& p.group_size == q.group_size
                &&& p.bits == q.bits
                &&& p.inner.embedding_count == cfg.vocab_size
                &&& p.inner.dimensions == cfg.hidden_size
            },
            _ => false,
        },
        m.lm_head is None <==> cfg.tie_word_embeddings,
        m.lm_head matches Some(l) ==> {
            &&& l.in_dim == cfg.hidden_size
            &&& l.out_dim == cfg.vocab_size
            &&& l.quantization == cfg.quantization
        },
        cfg.num_hidden_layers <= 0 ==> m.model.layers@.len() == 0,
        m.config == cfg,
{
}

/// A configuration is refused exactly if it has layers and no rope can be built for
/// them; what is wrong with the rope is what is reported.
pub proof fn law_configuration_is_refused_for_its_rope(cfg: Qwen3Config)
    ensures
        match rope_of(cfg.head_dim, cfg.rope_theta, cfg.rope_scaling) {
            Err(f) => model_fault(cfg) == (if cfg.num_hidden_layers > 0 {
                Some(f)
            } else {
                None
            }),
            Ok(_) => model_fault(cfg) is None,
        },
{
}

/// A pass takes a single row of at least one token, and as many caches as there are
/// layers. It names the shape, or both numbers, where it does not.
pub proof fn law_pass_takes_one_row_of_tokens(shape: Seq<i32>, caches: nat, layers: nat)
    ensures
        shape_fault(shape) == (if shape.len() == 2 && shape[0] == 1 && shape[1] >= 1 {
            None
        } else {
            Some(
                Fault::Config(
                    "model input must have shape [1, L] with L >= 1, got "@ + bracketed(shape),
                ),
            )
        }),
        cache_fault(caches, layers) == (if caches == layers {
            None
        } else {
            Some(
                Fault::Config(
                    "cache length "@ + digits(caches) + " does not match layer count "@ + digits(
                        layers,
                    ),
                ),
            )
        }),
{
}

/// Attention is masked exactly where there is more than one query, at any offset,
/// with a cache or without one; scores are scaled for the dimension of a head.
pub proof fn law_several_queries_are_masked(
    a: Attention,
    layer: usize,
    x: Term,
    b: i32,
    l: i32,
    offset: Option<i32>,
)
    ensures
        match attended(a, layer, x, b, l, offset) {
            Term::Linear { x: flat, .. } => match *flat {
                Term::Reshape { x: swapped, .. } => match *swapped {
                    Term::SwapAxes { x: seen } => match *seen {
                        Term::Attend { head_dim, causal, .. } => {
                            causal == (l > 1) && head_dim == a.head_dim
                        },
                        _ => false,
                    },
                    _ => false,
                },
                _ => false,
            },
            _ => false,
        },
{
}

/// What `Model::new` makes of a configuration: as many layers as configured, with
/// the configured heads, and an output layer unless the embedding serves as one;
/// and it makes a model wherever there is no layer, or a rope for the layers.
pub proof fn law_new_model_is_as_configured(cfg: Qwen3Config, r: Result<Model, LmError>, i: int)
    requires
        call_ensures(Model::new, (cfg,), r),
        widths_fit(cfg),
    ensures
        r is Ok <==> cfg.num_hidden_layers <= 0 || rope_of(
            cfg.head_dim,
            cfg.rope_theta,
            cfg.rope_scaling,
        ) is Ok,
        r matches Err(e) ==> rope_of(cfg.head_dim, cfg.rope_theta, cfg.rope_scaling) == Err::<
            Rope,
            Fault,
        >(e@),
        r matches Ok(m) ==> {
            &&& m.config == cfg
            &&& m.lm_head is None <==> cfg.tie_word_embeddings
            &&& m.model.embed_tokens is Quantized <==> cfg.quantization is Some
            &&& m.model.layers@.len() == (if cfg.num_hidden_layers > 0 {
                cfg.num_hidden_layers as int
            } else {
                0
            })
            &&& 0 <= i < m.model.layers@.len() ==> {
                let a = m.model.layers@[i].self_attn;
                &&& a.n_heads == cfg.num_attention_heads
                &&& a.n_kv_heads == cfg.num_key_value_heads
                &&& a.head_dim == cfg.head_dim
                &&& a.rope.dims == cfg.head_dim
                &&& a.rope.base == cfg.rope_theta
                &&& a.q_proj.out_dim == cfg.num_attention_heads * cfg.head_dim
                &&& a.o_proj.out_dim == cfg.hidden_size
            }
        },
{
    law_configuration_is_refused_for_its_rope(cfg);
    if let Ok(m) = r {
        law_ends_are_as_configured(m, cfg);
        if 0 <= i < m.model.layers@.len() {
            law_layers_are_as_configured(m, cfg, i);
        }
    }
}

/// `make_cache` gives one cache for each layer, without buffers or positions.
pub proof fn law_made_caches_are_empty<A>(m: Model, caches: Vec<KvCache<A>>, n: usize)
    requires
        call_ensures(Model::make_cache::<A>, (&m,), caches),
        call_ensures(Model::n_layers, (&m,), n),
    ensures
        n == m.model.layers@.len(),
        caches@.len() == m.model.layers@.len(),
        forall|i: int|
            0 <= i < caches@.len() ==> {
                let c = (#[trigger] caches@[i])@;
                c.keys is None && c.values is None && c.offset == 0
            },
{
}

} // verus!
