//! What a forward pass does to shapes and to caches.

use crate::cache::{
    keys_written, law_update_appends, new_positions, performed, readied, sequence_axis, CacheState,
    KvCache, LayoutView, Tensor, UpdateEvent,
};
use crate::config::Qwen3Config;
use crate::generate::{grown, offsets};
use crate::models::qwen3::{
    attended, attention_of, block_of, cache_fault, embedded, fed_forward, hidden, logits, new_keys,
    new_values, queries, shape_fault, widths_fit, Attention, EmbeddingLayer, EmbeddingModule,
    LinearLayer, Model, RmsNorm,
};
use crate::plan::{Norm, Projection, Table, Term, REST};
use crate::single::Single;
use vstd::prelude::*;

verus! {

/// Number of bits of the words that packed weights are kept in.
pub const WORD_BITS: i32 = 32;

/// A forward pass: the model, the shape of the tokens, and the offsets of the
/// caches before it.
pub struct Pass {
    pub model: Model,
    pub tokens: Seq<i32>,
    pub offsets: Seq<int>,
}

/// Number of entries of an array of the given shape.
pub open spec fn entries(shape: Seq<i32>) -> int
    decreases shape.len(),
{
    if shape.len() == 0 {
        1
    } else {
        entries(shape.drop_last()) * shape.last()
    }
}

/// The same without the axis that is to take the rest.
pub open spec fn known_entries(shape: Seq<i32>) -> int
    decreases shape.len(),
{
    if shape.len() == 0 {
        1
    } else if shape.last() == REST {
        known_entries(shape.drop_last())
    } else {
        known_entries(shape.drop_last()) * shape.last()
    }
}

/// The shape that `total` entries take when they are reshaped to `shape`.
pub open spec fn resolved(shape: Seq<i32>, total: int) -> Seq<i32> {
    Seq::new(
        shape.len(),
        |i: int|
            if shape[i] == REST {
                (total / known_entries(shape)) as i32
            } else {
                shape[i]
            },
    )
}

/// The shape with the length of its last axis replaced.
pub open spec fn with_last(shape: Seq<i32>, n: i32) -> Seq<i32> {
    shape.drop_last().push(n)
}

/// The layer that a projection belongs to; none for the output layer.
pub open spec fn layer_of(proj: Projection) -> Option<usize> {
    match proj {
        Projection::Query(i) => Some(i),
        Projection::Key(i) => Some(i),
        Projection::Value(i) => Some(i),
        Projection::Output(i) => Some(i),
        Projection::Gate(i) => Some(i),
        Projection::Up(i) => Some(i),
        Projection::Down(i) => Some(i),
        Projection::Head => None,
    }
}

/// The layer that a normalisation belongs to; none for the last one.
pub open spec fn norm_layer_of(norm: Norm) -> Option<usize> {
    match norm {
        Norm::Query(i) => Some(i),
        Norm::Key(i) => Some(i),
        Norm::Input(i) => Some(i),
        Norm::PostAttention(i) => Some(i),
        Norm::Last => None,
    }
}

impl Pass {
    /// The embedding, packed or not.
    pub open spec fn embedding(self) -> EmbeddingModule {
        match self.model.model.embed_tokens {
            EmbeddingLayer::Original(e) => e,
            EmbeddingLayer::Quantized(p) => p.inner,
        }
    }

    /// The linear layer of a projection.
    pub open spec fn linear(self, proj: Projection) -> LinearLayer {
        let layers = self.model.model.layers@;
        match proj {
            Projection::Query(i) => layers[i as int].self_attn.q_proj,
            Projection::Key(i) => layers[i as int].self_attn.k_proj,
            Projection::Value(i) => layers[i as int].self_attn.v_proj,
            Projection::Output(i) => layers[i as int].self_attn.o_proj,
            Projection::Gate(i) => layers[i as int].mlp.gate_proj,
            Projection::Up(i) => layers[i as int].mlp.up_proj,
            Projection::Down(i) => layers[i as int].mlp.down_proj,
            Projection::Head => self.model.lm_head->0,
        }
    }

    /// The model has a linear layer for a projection.
    pub open spec fn has_linear(self, proj: Projection) -> bool {
        match layer_of(proj) {
            Some(i) => i < self.model.model.layers@.len(),
            None => self.model.lm_head is Some,
        }
    }

    /// The layer of a normalisation.
    pub open spec fn rms(self, norm: Norm) -> RmsNorm {
        let layers = self.model.model.layers@;
        match norm {
            Norm::Query(i) => layers[i as int].self_attn.q_norm,
            Norm::Key(i) => layers[i as int].self_attn.k_norm,
            Norm::Input(i) => layers[i as int].input_layernorm,
            Norm::PostAttention(i) => layers[i as int].post_attention_layernorm,
            Norm::Last => self.model.model.norm,
        }
    }

    /// The model has a layer for a normalisation.
    pub open spec fn has_rms(self, norm: Norm) -> bool {
        match norm_layer_of(norm) {
            Some(i) => i < self.model.model.layers@.len(),
            None => true,
        }
    }

    /// Length of the rows of a table of the packed embedding.
    pub open spec fn row(self, of: Table) -> i32 {
        match self.model.model.embed_tokens {
            EmbeddingLayer::Original(e) => e.dimensions,
            EmbeddingLayer::Quantized(p) => match of {
                Table::Weight => (p.inner.dimensions * p.bits / (WORD_BITS as int)) as i32,
                Table::Scales => (p.inner.dimensions as int / p.group_size as int) as i32,
                Table::Biases => (p.inner.dimensions as int / p.group_size as int) as i32,
            },
        }
    }

    /// The shape of a result of the pass, where every operation accepts its
    /// operands.
    pub open spec fn shape_of(self, t: Term) -> Seq<i32>
        decreases t,
    {
        match t {
            Term::Input => self.tokens,
            Term::Embed { x } => self.shape_of(*x).push(self.embedding().dimensions),
            Term::Flatten { x } => seq![entries(self.shape_of(*x)) as i32],
            Term::Rows { of, x } => self.shape_of(*x).push(self.row(of)),
            Term::Dequantize { weight, .. } => with_last(
                self.shape_of(*weight),
                self.embedding().dimensions,
            ),
            Term::Unembed { x } => with_last(
                self.shape_of(*x),
                self.embedding().embedding_count,
            ),
            Term::UnembedPacked { x, .. } => with_last(
                self.shape_of(*x),
                self.embedding().embedding_count,
            ),
            Term::Linear { proj, x } => with_last(self.shape_of(*x), self.linear(proj).out_dim),
            Term::Norm { norm, x } => self.shape_of(*x),
            Term::Reshape { x, shape } => resolved(shape, entries(self.shape_of(*x))),
            Term::SwapAxes { x } => {
                let inner = self.shape_of(*x);
                inner.update(1, inner[2]).update(2, inner[1])
            },
            Term::Rotate { layer, x, offset } => self.shape_of(*x),
            Term::Append { layer, k, v } => {
                let new = self.shape_of(*k);
                new.update(2, (self.offsets[layer as int] + new[2]) as i32)
            },
            Term::Keys { x } => self.shape_of(*x),
            Term::Values { x } => self.shape_of(*x),
            Term::Attend { q, v, .. } => with_last(self.shape_of(*q), self.shape_of(*v).last()),
            Term::Silu { x } => self.shape_of(*x),
            Term::Add { x, y } => self.shape_of(*x),
            Term::Multiply { x, y } => self.shape_of(*x),
            _ => Seq::empty(),
        }
    }

    /// Every operation that leads to a result accepts the shapes of its operands:
    /// a layer the width that it was made for, a sum two operands of one shape, a
    /// reshaping as many entries as there are, and so on.
    pub open spec fn fits(self, t: Term) -> bool
        decreases t,
    {
        match t {
            Term::Input => true,
            Term::Embed { x } => {
                &&& self.fits(*x)
                &&& self.model.model.embed_tokens is Original
            },
            Term::Flatten { x } => {
                &&& self.fits(*x)
                &&& self.shape_of(t)[0] == entries(self.shape_of(*x))
            },
            Term::Rows { of, x } => {
                &&& self.fits(*x)
                &&& self.model.model.embed_tokens is Quantized
            },
            Term::Dequantize { weight, scales, biases, group_size, bits } => {
                let wide = self.shape_of(*weight);
                let narrow = self.shape_of(*scales);
                let width = self.embedding().dimensions;
                &&& self.fits(*weight)
                &&& self.fits(*scales)
                &&& self.fits(*biases)
                &&& wide.len() > 0
                &&& narrow.len() > 0
                &&& wide.drop_last() == narrow.drop_last()
                &&& narrow == self.shape_of(*biases)
                &&& wide.last() * WORD_BITS == width * bits
                &&& narrow.last() * group_size == width
            },
            Term::Unembed { x } => {
                &&& self.fits(*x)
                &&& self.model.model.embed_tokens is Original
                &&& self.shape_of(*x).last() == self.embedding().dimensions
            },
            Term::UnembedPacked { x, group_size, bits } => {
                &&& self.fits(*x)
                &&& self.model.model.embed_tokens matches EmbeddingLayer::Quantized(p)
                &&& p.group_size == group_size
                &&& p.bits == bits
                &&& self.shape_of(*x).last() == p.inner.dimensions
            },
            Term::Linear { proj, x } => {
                &&& self.fits(*x)
                &&& self.has_linear(proj)
                &&& self.shape_of(*x).last() == self.linear(proj).in_dim
            },
            Term::Norm { norm, x } => {
                &&& self.fits(*x)
                &&& self.has_rms(norm)
                &&& self.shape_of(*x).last() == self.rms(norm).dim
            },
            Term::Reshape { x, shape } => {
                &&& self.fits(*x)
                &&& entries(self.shape_of(t)) == entries(self.shape_of(*x))
            },
            Term::SwapAxes { x } => self.fits(*x) && self.shape_of(*x).len() == 4,
            Term::Rotate { layer, x, offset } => {
                &&& self.fits(*x)
                &&& layer < self.model.model.layers@.len()
                &&& self.shape_of(*x).len() == 4
                &&& forall|mscale: Single|
                    #[trigger] self.model.model.layers@[layer as int].self_attn.rope.rotated(
                        self.shape_of(*x),
                        offset,
                        mscale,
                    ) is Ok
            },
            Term::Append { layer, k, v } => {
                let new = self.shape_of(*k);
                &&& self.fits(*k)
                &&& self.fits(*v)
                &&& layer < self.offsets.len()
                &&& new.len() == 4
                &&& new == self.shape_of(*v)
                &&& 0 <= self.offsets[layer as int] + new[2] <= i32::MAX
            },
            Term::Keys { x } => self.fits(*x) && *x is Append,
            Term::Values { x } => self.fits(*x) && *x is Append,
            Term::Attend { q, k, v, head_dim, .. } => {
                let (sq, sk, sv) = (self.shape_of(*q), self.shape_of(*k), self.shape_of(*v));
                &&& self.fits(*q)
                &&& self.fits(*k)
                &&& self.fits(*v)
                &&& sq.len() == 4
                &&& sk.len() == 4
                &&& sk.take(3) == sv.take(3)
                &&& sv.len() == 4
                &&& sq[0] == sk[0]
                &&& sk[1] > 0
                &&& sq[1] % sk[1] == 0
                &&& sq[3] == sk[3] == head_dim
            },
            Term::Silu { x } => self.fits(*x),
            Term::Add { x, y } => {
                &&& self.fits(*x)
                &&& self.fits(*y)
                &&& self.shape_of(*x) == self.shape_of(*y)
            },
            Term::Multiply { x, y } => {
                &&& self.fits(*x)
                &&& self.fits(*y)
                &&& self.shape_of(*x) == self.shape_of(*y)
            },
            _ => false,
        }
    }
}

/// The pass of a model over tokens of the given shape, on top of `cache`.
pub open spec fn pass_of<A>(m: Model, cache: Seq<KvCache<A>>, tokens: Seq<i32>) -> Pass {
    Pass { model: m, tokens, offsets: offsets(cache) }
}

/// A configuration by which the layers fit together: the widths of all heads fit
/// a machine integer, the query heads can be shared out among the key heads, and
/// rows of the embedding can be packed without a remainder.
pub open spec fn fits_together(cfg: Qwen3Config) -> bool {
    &&& widths_fit(cfg)
    &&& 0 < cfg.num_attention_heads
    &&& 0 < cfg.num_key_value_heads
    &&& cfg.num_attention_heads % cfg.num_key_value_heads == 0
    &&& cfg.quantization matches Some(q) ==> {
        &&& 0 < q.group_size
        &&& cfg.hidden_size % q.group_size == 0
        &&& (cfg.hidden_size * q.bits) % (WORD_BITS as int) == 0
        &&& i32::MIN <= cfg.hidden_size * q.bits / (WORD_BITS as int) <= i32::MAX
    }
}

/// Four axes, none of which takes the rest, are what they are said to be.
proof fn lemma_four_axes(s: Seq<i32>, total: int)
    requires
        s.len() == 4,
        forall|i: int| 0 <= i < 4 ==> s[i] != REST,
    ensures
        resolved(s, total) == s,
        entries(s) == s[0] * s[1] * s[2] * s[3],
{
    assert(resolved(s, total) =~= s);
    reveal_with_fuel(entries, 5);
}

/// The entries of two axes.
proof fn lemma_two_axes(a: i32, b: i32)
    ensures
        entries(seq![a, b]) == a * b,
{
    reveal_with_fuel(entries, 3);
    assert(seq![a, b].drop_last() =~= seq![a]);
    assert(entries(seq![a]) == 1int * a);
}

/// Two axes and the rest of `total` entries.
proof fn lemma_rest(b: i32, l: i32, rest: i32, total: int)
    requires
        b == 1,
        l >= 1,
        total == l * rest,
    ensures
        resolved(seq![b, l, REST], total) == seq![b, l, rest],
        entries(seq![b, l, rest]) == total,
{
    let s = seq![b, l, REST];
    reveal_with_fuel(known_entries, 4);
    lemma_two_axes(b, l);
    assert(s.drop_last() =~= seq![b, l]);
    assert(seq![b, l].drop_last() =~= seq![b]);
    assert(known_entries(seq![b]) == 1int * b);
    assert(known_entries(seq![b, l]) == 1int * l);
    assert(known_entries(s) == l);
    assert(total / l as int == rest) by (nonlinear_arith)
        requires
            total == l * rest,
            l >= 1,
    ;
    let r = seq![b, l, rest];
    assert(r.drop_last() =~= seq![b, l]);
    assert(entries(r) == (1int * l) * rest);
    assert(resolved(s, total) =~= r);
}

/// What the layers are given has one row of `dimensions` numbers for each token.
proof fn lemma_embedded(p: Pass)
    requires
        shape_fault(p.tokens) is None,
    ensures
        p.shape_of(embedded(p.model.model.embed_tokens, Term::Input, p.tokens)) == seq![
            1i32,
            p.tokens[1],
            p.embedding().dimensions,
        ],
{
    let d = p.embedding().dimensions;
    let l = p.tokens[1];
    let x = Term::Input;
    assert(p.tokens =~= seq![1i32, l]);
    assert(p.shape_of(x) == p.tokens);
    match p.model.model.embed_tokens {
        EmbeddingLayer::Original(_) => {
            assert(p.shape_of(x.embed()) =~= seq![1i32, l, d]);
        },
        EmbeddingLayer::Quantized(q) => {
            let flat = x.flatten();
            let weight = flat.rows(Table::Weight);
            let all = Term::Dequantize {
                weight: Box::new(weight),
                scales: Box::new(flat.rows(Table::Scales)),
                biases: Box::new(flat.rows(Table::Biases)),
                group_size: q.group_size,
                bits: q.bits,
            };
            lemma_two_axes(1, l);
            assert(p.shape_of(flat) =~= seq![l]);
            assert(p.shape_of(weight) =~= seq![l, p.row(Table::Weight)]);
            assert(p.shape_of(all) =~= seq![l, d]);
            lemma_two_axes(l, d);
            assert(p.tokens.push(REST) =~= seq![1i32, l, REST]);
            lemma_rest(1, l, d, l * d);
        },
    }
}

/// Every layer of a model keeps the shape of what it is given.
pub proof fn law_layers_keep_the_shape<A>(
    m: Model,
    cfg: Qwen3Config,
    cache: Seq<KvCache<A>>,
    tokens: Seq<i32>,
    n: int,
)
    requires
        m.is_of(cfg),
        shape_fault(tokens) is None,
        0 <= n <= m.model.layers@.len(),
    ensures
        pass_of(m, cache, tokens).shape_of(hidden(m.model, cache, tokens, n)) == seq![
            1i32,
            tokens[1],
            cfg.hidden_size,
        ],
    decreases n,
{
    let p = pass_of(m, cache, tokens);
    if n == 0 {
        lemma_embedded(p);
    } else {
        law_layers_keep_the_shape(m, cfg, cache, tokens, n - 1);
        let x = hidden(m.model, cache, tokens, n - 1);
        let i = (n - 1) as usize;
        let t = m.model.layers@[n - 1];
        let h = x.plus(
            attended(
                t.self_attn,
                i,
                x.norm(Norm::Input(i)),
                tokens[0],
                tokens[1],
                Some(cache[n - 1]@.offset),
            ),
        );
        assert(p.shape_of(h) == p.shape_of(x));
        assert(p.shape_of(hidden(m.model, cache, tokens, n)) == p.shape_of(h));
    }
}

/// The logits of a pass over `L` tokens have the shape `[1, L, vocab_size]`,
/// whether the model has an output layer of its own or the embedding serves as
/// one, packed or not.
pub proof fn law_logits_have_their_shape<A>(
    m: Model,
    cfg: Qwen3Config,
    cache: Seq<KvCache<A>>,
    tokens: Seq<i32>,
)
    requires
        m.is_of(cfg),
        shape_fault(tokens) is None,
    ensures
        pass_of(m, cache, tokens).shape_of(logits(m, cache, tokens)) == seq![
            1i32,
            tokens[1],
            cfg.vocab_size,
        ],
{
    let p = pass_of(m, cache, tokens);
    let n = m.model.layers@.len() as int;
    let x = hidden(m.model, cache, tokens, n);
    law_layers_keep_the_shape(m, cfg, cache, tokens, n);
    assert(p.shape_of(x.norm(Norm::Last)) == p.shape_of(x));
    assert(p.shape_of(logits(m, cache, tokens)) =~= seq![1i32, tokens[1], cfg.vocab_size]);
}

/// A projection split into heads: `[1, l, heads * dim]` in `[1, l, heads, dim]`.
proof fn lemma_split(p: Pass, x: Term, l: i32, heads: i32, dim: i32)
    requires
        p.shape_of(x) == seq![1i32, l, (heads * dim) as i32],
        i32::MIN <= heads * dim <= i32::MAX,
        p.fits(x),
        l >= 1,
        heads > 0,
        dim > 0,
    ensures
        p.shape_of(x.reshape(seq![1i32, l, heads, dim])) == seq![1i32, l, heads, dim],
        p.fits(x.reshape(seq![1i32, l, heads, dim])),
{
    let s = seq![1i32, l, heads, dim];
    let w = (heads * dim) as i32;
    lemma_four_axes(s, entries(p.shape_of(x)));
    lemma_rest(1, l, w, l * w);
    assert(1 * l * heads * dim == l * (heads * dim)) by (nonlinear_arith);
}

/// Heads put before positions: `[1, l, heads, dim]` in `[1, heads, l, dim]`, and
/// back.
proof fn lemma_swap(p: Pass, x: Term, a: i32, b: i32, c: i32, d: i32)
    requires
        p.shape_of(x) == seq![a, b, c, d],
        p.fits(x),
    ensures
        p.shape_of(x.swap_axes()) == seq![a, c, b, d],
        p.fits(x.swap_axes()),
{
    assert(p.shape_of(x.swap_axes()) =~= seq![a, c, b, d]);
}

/// The keys and values that a layer adds, and its queries, are laid out by head,
/// and fit.
proof fn lemma_heads_fit(p: Pass, cfg: Qwen3Config, i: usize, x: Term, l: i32, at: i32)
    requires
        p.model.is_of(cfg),
        fits_together(cfg),
        i < p.model.model.layers@.len(),
        p.shape_of(x) == seq![1i32, l, cfg.hidden_size],
        p.fits(x),
        l >= 1,
    ensures
        ({
            let a = p.model.model.layers@[i as int].self_attn;
            let (q, k) = (queries(a, i, x, 1, l, at), new_keys(a, i, x, 1, l, at));
            let v = new_values(a, i, x, 1, l);
            &&& p.shape_of(q) == seq![1i32, a.n_heads, l, a.head_dim]
            &&& p.shape_of(k) == seq![1i32, a.n_kv_heads, l, a.head_dim]
            &&& p.shape_of(v) == seq![1i32, a.n_kv_heads, l, a.head_dim]
            &&& p.fits(q)
            &&& p.fits(k)
            &&& p.fits(v)
        }),
{
    let t = p.model.model.layers@[i as int];
    let a = t.self_attn;
    assert(block_of(cfg) matches Ok(b) && b == t);
    let (h, kv, d) = (a.n_heads, a.n_kv_heads, a.head_dim);
    let q0 = x.linear(Projection::Query(i));
    let k0 = x.linear(Projection::Key(i));
    let v0 = x.linear(Projection::Value(i));
    assert(p.shape_of(q0) =~= seq![1i32, l, (h * d) as i32]);
    assert(p.shape_of(k0) =~= seq![1i32, l, (kv * d) as i32]);
    assert(p.shape_of(v0) =~= seq![1i32, l, (kv * d) as i32]);
    lemma_split(p, q0, l, h, d);
    lemma_split(p, k0, l, kv, d);
    lemma_split(p, v0, l, kv, d);
    let q1 = q0.reshape(seq![1i32, l, h, d]);
    let k1 = k0.reshape(seq![1i32, l, kv, d]);
    let v1 = v0.reshape(seq![1i32, l, kv, d]);
    let q2 = q1.norm(Norm::Query(i));
    let k2 = k1.norm(Norm::Key(i));
    assert(p.shape_of(q2) == p.shape_of(q1) && p.fits(q2));
    assert(p.shape_of(k2) == p.shape_of(k1) && p.fits(k2));
    lemma_swap(p, q2, 1, l, h, d);
    lemma_swap(p, k2, 1, l, kv, d);
    lemma_swap(p, v1, 1, l, kv, d);
    let q3 = q2.swap_axes();
    let k3 = k2.swap_axes();
    assert(p.fits(q3.rotate(i, at)));
    assert(p.fits(k3.rotate(i, at)));
}

/// The attention of a layer keeps the shape, and fits.
proof fn lemma_attention_fits(p: Pass, cfg: Qwen3Config, i: usize, x: Term)
    requires
        p.model.is_of(cfg),
        fits_together(cfg),
        i < p.model.model.layers@.len(),
        i < p.offsets.len(),
        p.tokens.len() == 2,
        p.tokens[1] >= 1,
        0 <= p.offsets[i as int] <= i32::MAX - p.tokens[1],
        p.shape_of(x) == seq![1i32, p.tokens[1], cfg.hidden_size],
        p.fits(x),
    ensures
        ({
            let a = p.model.model.layers@[i as int].self_attn;
            let at = Some(p.offsets[i as int] as i32);
            let y = attended(a, i, x, 1, p.tokens[1], at);
            &&& p.shape_of(y) == seq![1i32, p.tokens[1], cfg.hidden_size]
            &&& p.fits(y)
        }),
{
    let l = p.tokens[1];
    let t = p.model.model.layers@[i as int];
    let a = t.self_attn;
    let at = p.offsets[i as int] as i32;
    assert(block_of(cfg) matches Ok(b) && b == t);
    lemma_heads_fit(p, cfg, i, x, l, at);
    let q = queries(a, i, x, 1, l, at);
    let k = new_keys(a, i, x, 1, l, at);
    let v = new_values(a, i, x, 1, l);
    let all = Term::Append { layer: i, k: Box::new(k), v: Box::new(v) };
    let (keys, values) = (all.keys(), all.values());
    assert(p.fits(all));
    assert(p.shape_of(all) =~= seq![1i32, a.n_kv_heads, (at + l) as i32, a.head_dim]);
    assert(p.shape_of(keys) == p.shape_of(all) && p.fits(keys));
    assert(p.shape_of(values) == p.shape_of(all) && p.fits(values));
    let seen = Term::Attend {
        q: Box::new(q),
        k: Box::new(keys),
        v: Box::new(values),
        head_dim: a.head_dim,
        causal: l > 1,
    };
    assert(p.fits(seen));
    assert(p.shape_of(seen) =~= seq![1i32, a.n_heads, l, a.head_dim]);
    lemma_swap(p, seen, 1, a.n_heads, l, a.head_dim);
    let by_position = seen.swap_axes();
    let s = seq![1i32, l, a.n_heads, a.head_dim];
    let width = (a.n_heads * a.head_dim) as i32;
    lemma_four_axes(s, 0);
    assert(1 * l * a.n_heads * a.head_dim == l * (a.n_heads * a.head_dim)) by (nonlinear_arith);
    lemma_rest(1, l, width, l * width);
    let flat = by_position.reshape(seq![1i32, l, REST]);
    assert(p.shape_of(flat) == seq![1i32, l, width] && p.fits(flat));
    let y = flat.linear(Projection::Output(i));
    assert(p.shape_of(y) =~= seq![1i32, l, cfg.hidden_size]);
    assert(p.fits(y));
}

/// The feed-forward part of a layer keeps the shape, and fits.
proof fn lemma_feed_forward_fits(p: Pass, cfg: Qwen3Config, i: usize, x: Term, l: i32)
    requires
        p.model.is_of(cfg),
        i < p.model.model.layers@.len(),
        p.shape_of(x) == seq![1i32, l, cfg.hidden_size],
        p.fits(x),
    ensures
        p.shape_of(fed_forward(i, x)) == seq![1i32, l, cfg.hidden_size],
        p.fits(fed_forward(i, x)),
{
    let t = p.model.model.layers@[i as int];
    assert(block_of(cfg) matches Ok(b) && b == t);
    let gate = x.linear(Projection::Gate(i));
    let up = x.linear(Projection::Up(i));
    assert(p.shape_of(gate) =~= seq![1i32, l, cfg.intermediate_size]);
    assert(p.shape_of(up) =~= seq![1i32, l, cfg.intermediate_size]);
    let both = gate.silu().times(up);
    assert(p.fits(gate) && p.fits(up));
    assert(p.shape_of(gate.silu()) == p.shape_of(gate) && p.fits(gate.silu()));
    assert(p.shape_of(both) == p.shape_of(gate) && p.fits(both));
    assert(p.shape_of(fed_forward(i, x)) =~= seq![1i32, l, cfg.hidden_size]);
}

/// The embedding of the tokens fits.
proof fn lemma_embedding_fits(p: Pass, cfg: Qwen3Config)
    requires
        p.model.is_of(cfg),
        fits_together(cfg),
        shape_fault(p.tokens) is None,
    ensures
        p.fits(embedded(p.model.model.embed_tokens, Term::Input, p.tokens)),
{
    let d = cfg.hidden_size;
    let l = p.tokens[1];
    let x = Term::Input;
    assert(p.tokens =~= seq![1i32, l]);
    assert(p.shape_of(x) == p.tokens && p.fits(x));
    if let EmbeddingLayer::Quantized(q) = p.model.model.embed_tokens {
        let flat = x.flatten();
        let weight = flat.rows(Table::Weight);
        let scales = flat.rows(Table::Scales);
        let biases = flat.rows(Table::Biases);
        let all = Term::Dequantize {
            weight: Box::new(weight),
            scales: Box::new(scales),
            biases: Box::new(biases),
            group_size: q.group_size,
            bits: q.bits,
        };
        lemma_two_axes(1, l);
        assert(p.shape_of(flat) =~= seq![l] && p.fits(flat));
        assert(p.shape_of(weight) =~= seq![l, p.row(Table::Weight)] && p.fits(weight));
        assert(p.shape_of(scales) =~= seq![l, p.row(Table::Scales)] && p.fits(scales));
        assert(p.shape_of(biases) =~= seq![l, p.row(Table::Biases)] && p.fits(biases));
        assert(seq![l, p.row(Table::Weight)].drop_last() =~= seq![l]);
        assert(seq![l, p.row(Table::Scales)].drop_last() =~= seq![l]);
        let (g, b) = (q.group_size, q.bits);
        assert((d as int / g as int) * g == d && i32::MIN <= d as int / g as int <= i32::MAX)
            by (nonlinear_arith)
            requires
                g > 0,
                d as int % g as int == 0,
        ;
        assert(p.fits(all));
        assert(p.shape_of(all) =~= seq![l, d]);
        lemma_two_axes(l, d);
        assert(p.tokens.push(REST) =~= seq![1i32, l, REST]);
        lemma_rest(1, l, d, l * d);
    }
}

/// What comes out of the first `n` layers fits.
proof fn lemma_hidden_fits<A>(
    m: Model,
    cfg: Qwen3Config,
    cache: Seq<KvCache<A>>,
    tokens: Seq<i32>,
    n: int,
)
    requires
        m.is_of(cfg),
        fits_together(cfg),
        shape_fault(tokens) is None,
        cache.len() == m.model.layers@.len(),
        forall|i: int|
            0 <= i < cache.len() ==> 0 <= (#[trigger] cache[i])@.offset <= i32::MAX - tokens[1],
        0 <= n <= m.model.layers@.len(),
    ensures
        pass_of(m, cache, tokens).fits(hidden(m.model, cache, tokens, n)),
    decreases n,
{
    let p = pass_of(m, cache, tokens);
    if n == 0 {
        lemma_embedding_fits(p, cfg);
    } else {
        lemma_hidden_fits(m, cfg, cache, tokens, n - 1);
        law_layers_keep_the_shape(m, cfg, cache, tokens, n - 1);
        let x = hidden(m.model, cache, tokens, n - 1);
        let i = (n - 1) as usize;
        let t = m.model.layers@[n - 1];
        let l = tokens[1];
        assert(block_of(cfg) matches Ok(b) && b == t);
        assert(p.offsets[n - 1] == cache[n - 1]@.offset);
        let normed = x.norm(Norm::Input(i));
        assert(p.shape_of(normed) == p.shape_of(x) && p.fits(normed));
        lemma_attention_fits(p, cfg, i, normed);
        let h = x.plus(attended(t.self_attn, i, normed, 1, l, Some(cache[n - 1]@.offset)));
        assert(p.shape_of(h) == p.shape_of(x) && p.fits(h));
        let normed = h.norm(Norm::PostAttention(i));
        assert(p.shape_of(normed) == p.shape_of(h) && p.fits(normed));
        lemma_feed_forward_fits(p, cfg, i, normed, l);
        assert(p.fits(hidden(m.model, cache, tokens, n)));
    }
}

/// In a forward pass of a model whose layers fit together, on top of caches with
/// room for its positions, every operation accepts the shapes of its operands.
pub proof fn law_pass_fits<A>(
    m: Model,
    cfg: Qwen3Config,
    cache: Seq<KvCache<A>>,
    tokens: Seq<i32>,
)
    requires
        m.is_of(cfg),
        fits_together(cfg),
        shape_fault(tokens) is None,
        cache_fault(cache.len(), m.model.layers@.len()) is None,
        forall|i: int|
            0 <= i < cache.len() ==> 0 <= (#[trigger] cache[i])@.offset <= i32::MAX - tokens[1],
    ensures
        pass_of(m, cache, tokens).fits(logits(m, cache, tokens)),
{
    let p = pass_of(m, cache, tokens);
    let n = m.model.layers@.len() as int;
    let x = hidden(m.model, cache, tokens, n);
    lemma_hidden_fits(m, cfg, cache, tokens, n);
    law_layers_keep_the_shape(m, cfg, cache, tokens, n);
    let normed = x.norm(Norm::Last);
    assert(p.shape_of(normed) == p.shape_of(x) && p.fits(normed));
    assert(p.fits(logits(m, cache, tokens)));
}

/// A forward pass over `l` positions appends keys and values for just these to
/// the cache of each layer, laid out by head.
pub proof fn law_pass_appends_its_positions(
    p: Pass,
    a: Attention,
    layer: usize,
    x: Term,
    b: i32,
    l: i32,
    at: i32,
)
    requires
        b != REST,
        l != REST,
        a.n_kv_heads != REST,
        a.head_dim != REST,
    ensures
        p.shape_of(new_keys(a, layer, x, b, l, at)) == seq![b, a.n_kv_heads, l, a.head_dim],
        p.shape_of(new_values(a, layer, x, b, l)) == seq![b, a.n_kv_heads, l, a.head_dim],
        new_positions(p.shape_of(new_keys(a, layer, x, b, l, at))) == l,
        new_positions(p.shape_of(new_values(a, layer, x, b, l))) == l,
{
    let split = seq![b, l, a.n_kv_heads, a.head_dim];
    let k = x.linear(Projection::Key(layer)).reshape(split);
    let v = x.linear(Projection::Value(layer)).reshape(split);
    let normed = k.norm(Norm::Key(layer));
    assert(p.shape_of(k) =~= split);
    assert(p.shape_of(v) =~= split);
    assert(p.shape_of(normed) == split);
    assert(p.shape_of(normed.swap_axes()) =~= seq![b, a.n_kv_heads, l, a.head_dim]);
    assert(p.shape_of(v.swap_axes()) =~= seq![b, a.n_kv_heads, l, a.head_dim]);
}

/// The keys that a layer adds for `l` positions have as many.
proof fn lemma_new_positions(
    p: Pass,
    a: Attention,
    layer: usize,
    x: Term,
    b: i32,
    l: i32,
    at: i32,
)
    requires
        l != REST,
    ensures
        new_positions(p.shape_of(new_keys(a, layer, x, b, l, at))) == l,
{
    let split = x.linear(Projection::Key(layer)).reshape(
        seq![b, l, a.n_kv_heads, a.head_dim],
    );
    let normed = split.norm(Norm::Key(layer));
    assert(p.shape_of(split).len() == 4 && p.shape_of(split)[1] == l);
    assert(p.shape_of(normed) == p.shape_of(split));
    assert(p.shape_of(normed.swap_axes())[2] == l);
}

/// Once such a pass has updated the cache of a layer, its offset has grown by the
/// number of positions of the pass.
pub proof fn law_pass_grows_cache<A>(
    p: Pass,
    c: CacheState<A>,
    values: Tensor<A>,
    a: Attention,
    layer: usize,
    x: Term,
    b: i32,
    l: i32,
    k: LayoutView,
)
    requires
        k.shape == p.shape_of(new_keys(a, layer, x, b, l, c.offset)),
        c.offset + l <= i32::MAX,
        0 <= c.offset,
        0 <= l,
    ensures
        c.after(k, UpdateEvent::ValuesWritten { values }).offset == c.offset + l,
{
    lemma_new_positions(p, a, layer, x, b, l, c.offset);
}

/// The keys that layer `i` adds to its cache in a pass.
pub open spec fn layer_keys<A>(
    m: Model,
    cache: Seq<KvCache<A>>,
    tokens: Seq<i32>,
    i: int,
) -> Term {
    new_keys(
        m.model.layers@[i].self_attn,
        i as usize,
        hidden(m.model, cache, tokens, i).norm(Norm::Input(i as usize)),
        tokens[0],
        tokens[1],
        cache[i]@.offset,
    )
}

/// The values that layer `i` adds to its cache in a pass.
pub open spec fn layer_values<A>(
    m: Model,
    cache: Seq<KvCache<A>>,
    tokens: Seq<i32>,
    i: int,
) -> Term {
    new_values(
        m.model.layers@[i].self_attn,
        i as usize,
        hidden(m.model, cache, tokens, i).norm(Norm::Input(i as usize)),
        tokens[0],
        tokens[1],
    )
}

/// Once a pass over `L` tokens has updated the caches of all layers, each has
/// grown by `L` positions.
pub proof fn law_pass_grows_every_cache<A>(
    m: Model,
    before: Seq<KvCache<A>>,
    after: Seq<KvCache<A>>,
    tokens: Seq<i32>,
    keys: Seq<LayoutView>,
    values: Seq<Tensor<A>>,
)
    requires
        shape_fault(tokens) is None,
        cache_fault(before.len(), m.model.layers@.len()) is None,
        after.len() == before.len(),
        keys.len() == before.len(),
        values.len() == before.len(),
        forall|i: int|
            0 <= i < before.len() ==> {
                &&& 0 <= (#[trigger] before[i])@.offset <= i32::MAX - tokens[1]
                &&& keys[i].shape == pass_of(m, before, tokens).shape_of(
                    layer_keys(m, before, tokens, i),
                )
                &&& after[i]@.offset == before[i]@.after(
                    keys[i],
                    UpdateEvent::ValuesWritten { values: values[i] },
                ).offset
            },
    ensures
        grown(after, offsets(before), tokens[1] as int),
{
    let p = pass_of(m, before, tokens);
    assert forall|i: int| 0 <= i < after.len() implies (#[trigger] after[i])@.offset == offsets(
        before,
    )[i] + tokens[1] by {
        let x = hidden(m.model, before, tokens, i).norm(Norm::Input(i as usize));
        let a = m.model.layers@[i].self_attn;
        let c = before[i]@;
        law_pass_grows_cache(p, c, values[i], a, i as usize, x, tokens[0], tokens[1], keys[i]);
    }
}

/// A finished update of a cache: the layouts of the new keys and values, the
/// buffers after the growth, where there was one, and after each write, and the
/// positions that were written.
pub struct Update<A, R> {
    pub k: LayoutView,
    pub v: LayoutView,
    pub room: Option<(Tensor<A>, Tensor<A>)>,
    pub keys: Tensor<A>,
    pub values: Tensor<A>,
    pub new_k: Seq<R>,
    pub new_v: Seq<R>,
}

impl<A, R> Update<A, R> {
    /// The cache once its keys are written.
    pub open spec fn half_done(self, c: CacheState<A>) -> CacheState<A> {
        readied(c, self.k, self.room).after(self.k, UpdateEvent::KeysWritten { keys: self.keys })
    }

    /// The cache after the update.
    pub open spec fn done(self, c: CacheState<A>) -> CacheState<A> {
        self.half_done(c).after(self.k, UpdateEvent::ValuesWritten { values: self.values })
    }

    /// The device did all that the cache asked for in the course of the update.
    pub open spec fn performed_on(self, c: CacheState<A>, rows: spec_fn(A) -> Seq<R>) -> bool {
        &&& keys_written(
            c,
            self.k,
            self.v,
            self.room,
            self.keys,
            rows,
            self.new_k,
            self.new_v,
        )
        &&& performed(
            self.half_done(c),
            readied(c, self.k, self.room).request(
                self.k,
                self.v,
                UpdateEvent::KeysWritten { keys: self.keys },
            ),
            UpdateEvent::ValuesWritten { values: self.values },
            sequence_axis(self.k.shape),
            rows,
            self.new_k,
            self.new_v,
        )
    }
}

/// After a pass over `L` tokens in which every cache was updated with the keys
/// and values of its layer, each cache has grown by `L` positions: what was active
/// is as it was, and the new keys and values come behind it.
pub proof fn law_pass_appends_to_every_cache<A, R>(
    m: Model,
    before: Seq<KvCache<A>>,
    after: Seq<KvCache<A>>,
    tokens: Seq<i32>,
    updates: Seq<Update<A, R>>,
    rows: spec_fn(A) -> Seq<R>,
)
    requires
        shape_fault(tokens) is None,
        cache_fault(before.len(), m.model.layers@.len()) is None,
        after.len() == before.len(),
        updates.len() == before.len(),
        forall|i: int|
            0 <= i < before.len() ==> {
                let u = #[trigger] updates[i];
                &&& u.k.shape == pass_of(m, before, tokens).shape_of(
                    layer_keys(m, before, tokens, i),
                )
                &&& u.performed_on(before[i]@, rows)
                &&& after[i]@ == u.done(before[i]@)
            },
    ensures
        grown(after, offsets(before), tokens[1] as int),
        forall|i: int|
            0 <= i < before.len() ==> {
                let u = #[trigger] updates[i];
                &&& after[i]@.active_keys(rows) == before[i]@.active_keys(rows) + u.new_k
                &&& after[i]@.active_values(rows) == before[i]@.active_values(rows) + u.new_v
                &&& u.new_k.len() == tokens[1]
                &&& u.new_v.len() == tokens[1]
                &&& after[i]@.consistent(sequence_axis(u.k.shape), rows)
            },
{
    let p = pass_of(m, before, tokens);
    assert forall|i: int| 0 <= i < before.len() implies {
        let u = #[trigger] updates[i];
        &&& after[i]@.offset == before[i]@.offset + tokens[1]
        &&& after[i]@.active_keys(rows) == before[i]@.active_keys(rows) + u.new_k
        &&& after[i]@.active_values(rows) == before[i]@.active_values(rows) + u.new_v
        &&& u.new_k.len() == tokens[1]
        &&& u.new_v.len() == tokens[1]
        &&& after[i]@.consistent(sequence_axis(u.k.shape), rows)
    } by {
        let u = updates[i];
        let c = before[i]@;
        let x = hidden(m.model, before, tokens, i).norm(Norm::Input(i as usize));
        let a = m.model.layers@[i].self_attn;
        lemma_new_positions(p, a, i as usize, x, tokens[0], tokens[1], c.offset);
        law_update_appends(c, u.k, u.v, u.room, u.keys, u.values, rows, u.new_k, u.new_v);
    }
    assert forall|i: int| 0 <= i < after.len() implies (#[trigger] after[i])@.offset == offsets(
        before,
    )[i] + tokens[1] by {
        assert(after[i]@ == updates[i].done(before[i]@));
        assert(before[i]@.offset == offsets(before)[i]);
    }
}

/// The rope of a layer accepts what the layer gives it: queries and keys of any
/// batch and length, whatever the attention scale.
pub proof fn law_rope_fits_its_layer(
    p: Pass,
    cfg: Qwen3Config,
    layer: usize,
    x: Term,
    b: i32,
    l: i32,
    at: i32,
    mscale: Single,
)
    requires
        attention_of(cfg) is Ok,
    ensures
        ({
            let a = attention_of(cfg)->Ok_0;
            &&& a.rope.rotated(p.shape_of(queries(a, layer, x, b, l, at)), at, mscale) is Ok
            &&& a.rope.rotated(p.shape_of(new_keys(a, layer, x, b, l, at)), at, mscale) is Ok
        }),
{
    let a = attention_of(cfg)->Ok_0;
    let q = x.linear(Projection::Query(layer)).reshape(seq![b, l, a.n_heads, a.head_dim]);
    let k = x.linear(Projection::Key(layer)).reshape(seq![b, l, a.n_kv_heads, a.head_dim]);
    let (nq, nk) = (q.norm(Norm::Query(layer)), k.norm(Norm::Key(layer)));
    assert(p.shape_of(q).len() == 4 && p.shape_of(q)[3] == a.head_dim);
    assert(p.shape_of(k).len() == 4 && p.shape_of(k)[3] == a.head_dim);
    assert(p.shape_of(nq) == p.shape_of(q));
    assert(p.shape_of(nk) == p.shape_of(k));
    assert(p.shape_of(nq.swap_axes()).last() == a.head_dim);
    assert(p.shape_of(nk.swap_axes()).last() == a.head_dim);
}

} // verus!
