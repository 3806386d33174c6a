//! What a forward pass makes of each position.
//!
//! A pass is read here position by position: a result is a sequence of rows, one
//! for each token of the pass, and an operation makes rows of rows. What it makes
//! of a single row is left open, so that what is said here holds on any device.

use crate::cache::KvCache;
use crate::models::pass::{layer_keys, layer_values};
use crate::models::qwen3::{
    attended, fed_forward, hidden, logits, new_keys, new_values, queries, Attention,
    EmbeddingLayer, Model,
};
use crate::plan::{Norm, Plan, Projection, Table, Term, REST};
use vstd::prelude::*;

verus! {

/// What is done to a single row.
pub enum Op {
    Embed,
    Rows(Table),
    Unembed,
    UnembedPacked { group_size: i32, bits: i32 },
    Linear(Projection),
    Norm(Norm),
    /// The row in another shape.
    Reshape(Seq<i32>),
    Silu,
    /// The rope of a layer, for a row at the given position.
    Rotate { layer: usize, position: int },
}

/// A device, by what it makes of single rows.
#[verifier::reject_recursive_types(R)]
pub struct Device<R> {
    pub apply: spec_fn(Op, R) -> R,
    /// Packed weights, their scales and biases, as numbers.
    pub unpack: spec_fn(R, R, R, i32, i32) -> R,
    pub plus: spec_fn(R, R) -> R,
    pub times: spec_fn(R, R) -> R,
    /// What a query gathers from keys and values, with scores scaled by one over the
    /// root of the given dimension.
    pub gather: spec_fn(i32, R, Seq<R>, Seq<R>) -> R,
}

/// A pass on a device: the tokens, and what the cache of each layer holds before.
#[verifier::reject_recursive_types(R)]
pub struct Run<R> {
    pub device: Device<R>,
    pub tokens: Seq<R>,
    pub keys: Seq<Seq<R>>,
    pub values: Seq<Seq<R>>,
}

impl<R> Run<R> {
    /// An operation on every row.
    pub open spec fn each(self, op: Op, rows: Seq<R>) -> Seq<R> {
        Seq::new(rows.len(), |i: int| (self.device.apply)(op, rows[i]))
    }

    /// The rows of a result, one for each token.
    pub open spec fn rows(self, t: Term) -> Seq<R>
        decreases t,
    {
        match t {
            Term::Input => self.tokens,
            Term::Embed { x } => self.each(Op::Embed, self.rows(*x)),
            Term::Flatten { x } => self.rows(*x),
            Term::Rows { of, x } => self.each(Op::Rows(of), self.rows(*x)),
            Term::Dequantize { weight, scales, biases, group_size, bits } => {
                let (w, s, b) = (self.rows(*weight), self.rows(*scales), self.rows(*biases));
                Seq::new(w.len(), |i: int| (self.device.unpack)(w[i], s[i], b[i], group_size, bits))
            },
            Term::Unembed { x } => self.each(Op::Unembed, self.rows(*x)),
            Term::UnembedPacked { x, group_size, bits } => self.each(
                Op::UnembedPacked { group_size, bits },
                self.rows(*x),
            ),
            Term::Linear { proj, x } => self.each(Op::Linear(proj), self.rows(*x)),
            Term::Norm { norm, x } => self.each(Op::Norm(norm), self.rows(*x)),
            // One batch entry, and one row for each token, stay; a row gets what is
            // left of the shape.
            Term::Reshape { x, shape } => if shape.len() > 2 && shape[0] == 1 && shape[1]
                == self.tokens.len() {
                self.each(Op::Reshape(shape.skip(2)), self.rows(*x))
            } else {
                Seq::empty()
            },
            Term::SwapAxes { x } => self.rows(*x),
            Term::Rotate { layer, x, offset } => {
                let rows = self.rows(*x);
                Seq::new(
                    rows.len(),
                    |i: int|
                        (self.device.apply)(Op::Rotate { layer, position: offset + i }, rows[i]),
                )
            },
            Term::Keys { x } => self.all_keys(*x),
            Term::Values { x } => self.all_values(*x),
            // Under the mask the last query sees all keys, and each query before it
            // one less.
            Term::Attend { q, k, v, head_dim, causal } => {
                let (q, k, v) = (self.rows(*q), self.rows(*k), self.rows(*v));
                Seq::new(
                    q.len(),
                    |i: int|
                        {
                            let seen = if causal {
                                k.len() - q.len() + i + 1
                            } else {
                                k.len() as int
                            };
                            (self.device.gather)(head_dim, q[i], k.take(seen), v.take(seen))
                        },
                )
            },
            Term::Silu { x } => self.each(Op::Silu, self.rows(*x)),
            Term::Add { x, y } => {
                let (x, y) = (self.rows(*x), self.rows(*y));
                Seq::new(x.len(), |i: int| (self.device.plus)(x[i], y[i]))
            },
            Term::Multiply { x, y } => {
                let (x, y) = (self.rows(*x), self.rows(*y));
                Seq::new(x.len(), |i: int| (self.device.times)(x[i], y[i]))
            },
            _ => Seq::empty(),
        }
    }

    /// All keys of a layer, once new ones were appended.
    pub open spec fn all_keys(self, t: Term) -> Seq<R>
        decreases t,
    {
        match t {
            Term::Append { layer, k, v } => self.keys[layer as int] + self.rows(*k),
            _ => Seq::empty(),
        }
    }

    /// All values of a layer, once new ones were appended.
    pub open spec fn all_values(self, t: Term) -> Seq<R>
        decreases t,
    {
        match t {
            Term::Append { layer, k, v } => self.values[layer as int] + self.rows(*v),
            _ => Seq::empty(),
        }
    }

    /// The tokens have the given shape, and each of `layers` layers has a cache with
    /// as many values as keys.
    pub open spec fn fits(self, shape: Seq<i32>, layers: nat) -> bool {
        &&& shape.len() == 2
        &&& shape[0] == 1
        &&& 1 <= shape[1]
        &&& shape[1] == self.tokens.len()
        &&& self.keys.len() == layers
        &&& self.values.len() == layers
        &&& forall|i: int|
            0 <= i < layers ==> (#[trigger] self.keys[i]).len() == self.values[i].len()
    }
}

/// What the layers are given: the embedding of each token. A packed embedding is
/// looked up in three tables, and what is found there is unpacked as it was packed.
pub proof fn law_tokens_are_embedded_one_by_one<A, R>(
    run: Run<R>,
    m: Model,
    cache: Seq<KvCache<A>>,
    shape: Seq<i32>,
    i: int,
)
    requires
        run.fits(shape, m.model.layers@.len()),
        0 <= i < shape[1],
    ensures
        run.rows(hidden(m.model, cache, shape, 0)).len() == shape[1],
        run.rows(hidden(m.model, cache, shape, 0))[i] == (match m.model.embed_tokens {
            EmbeddingLayer::Original(_) => (run.device.apply)(Op::Embed, run.tokens[i]),
            EmbeddingLayer::Quantized(p) => (run.device.apply)(
                Op::Reshape(seq![-1i32]),
                (run.device.unpack)(
                    (run.device.apply)(Op::Rows(Table::Weight), run.tokens[i]),
                    (run.device.apply)(Op::Rows(Table::Scales), run.tokens[i]),
                    (run.device.apply)(Op::Rows(Table::Biases), run.tokens[i]),
                    p.group_size,
                    p.bits,
                ),
            ),
        }),
{
    let x = Term::Input;
    assert(run.rows(x) == run.tokens);
    match m.model.embed_tokens {
        EmbeddingLayer::Original(_) => {
            assert(run.rows(x.embed()) == run.each(Op::Embed, run.tokens));
        },
        EmbeddingLayer::Quantized(p) => {
            let flat = x.flatten();
            let w = flat.rows(Table::Weight);
            let s = flat.rows(Table::Scales);
            let b = flat.rows(Table::Biases);
            let all = Term::Dequantize {
                weight: Box::new(w),
                scales: Box::new(s),
                biases: Box::new(b),
                group_size: p.group_size,
                bits: p.bits,
            };
            assert(run.rows(flat) == run.tokens);
            assert(run.rows(w) == run.each(Op::Rows(Table::Weight), run.tokens));
            assert(run.rows(s) == run.each(Op::Rows(Table::Scales), run.tokens));
            assert(run.rows(b) == run.each(Op::Rows(Table::Biases), run.tokens));
            assert(run.rows(all).len() == run.tokens.len());
            assert(shape.push(REST).skip(2) =~= seq![-1i32]);
            assert(run.rows(all.reshape(shape.push(REST))) == run.each(
                Op::Reshape(seq![-1i32]),
                run.rows(all),
            ));
        },
    }
}

/// What the queries, the new keys and the new values of a layer are, row by row.
proof fn lemma_heads<A, R>(
    run: Run<R>,
    m: Model,
    cache: Seq<KvCache<A>>,
    shape: Seq<i32>,
    n: int,
)
    requires
        run.fits(shape, m.model.layers@.len()),
        0 <= n < m.model.layers@.len() <= usize::MAX,
        run.rows(hidden(m.model, cache, shape, n)).len() == shape[1],
    ensures
        ({
            let a = m.model.layers@[n].self_attn;
            let d = run.device;
            let at = cache[n]@.offset;
            let layer = n as usize;
            let x = run.rows(hidden(m.model, cache, shape, n));
            let normed = hidden(m.model, cache, shape, n).norm(Norm::Input(layer));
            let q = run.rows(queries(a, layer, normed, shape[0], shape[1], at));
            let k = run.rows(layer_keys(m, cache, shape, n));
            let v = run.rows(layer_values(m, cache, shape, n));
            &&& q.len() == shape[1] && k.len() == shape[1] && v.len() == shape[1]
            &&& forall|i: int|
                0 <= i < shape[1] ==> {
                    let row = (d.apply)(Op::Norm(Norm::Input(layer)), x[i]);
                    #[trigger] q[i] == (d.apply)(
                        Op::Rotate { layer, position: at + i },
                        (d.apply)(
                            Op::Norm(Norm::Query(layer)),
                            (d.apply)(
                                Op::Reshape(seq![a.n_heads, a.head_dim]),
                                (d.apply)(Op::Linear(Projection::Query(layer)), row),
                            ),
                        ),
                    )
                }
            &&& forall|i: int|
                0 <= i < shape[1] ==> {
                    let row = (d.apply)(Op::Norm(Norm::Input(layer)), x[i]);
                    #[trigger] k[i] == (d.apply)(
                        Op::Rotate { layer, position: at + i },
                        (d.apply)(
                            Op::Norm(Norm::Key(layer)),
                            (d.apply)(
                                Op::Reshape(seq![a.n_kv_heads, a.head_dim]),
                                (d.apply)(Op::Linear(Projection::Key(layer)), row),
                            ),
                        ),
                    )
                }
            &&& forall|i: int|
                0 <= i < shape[1] ==> {
                    let row = (d.apply)(Op::Norm(Norm::Input(layer)), x[i]);
                    #[trigger] v[i] == (d.apply)(
                        Op::Reshape(seq![a.n_kv_heads, a.head_dim]),
                        (d.apply)(Op::Linear(Projection::Value(layer)), row),
                    )
                }
        }),
{
    let a = m.model.layers@[n].self_attn;
    let at = cache[n]@.offset;
    let layer = n as usize;
    let (b, l) = (shape[0], shape[1]);
    let h = hidden(m.model, cache, shape, n);
    let x = h.norm(Norm::Input(layer));
    assert(run.rows(x) == run.each(Op::Norm(Norm::Input(layer)), run.rows(h)));

    let qs = seq![b, l, a.n_heads, a.head_dim];
    let ks = seq![b, l, a.n_kv_heads, a.head_dim];
    assert(qs.skip(2) =~= seq![a.n_heads, a.head_dim]);
    assert(ks.skip(2) =~= seq![a.n_kv_heads, a.head_dim]);

    let q0 = x.linear(Projection::Query(layer));
    let q1 = q0.reshape(qs);
    let q2 = q1.norm(Norm::Query(layer));
    let q3 = q2.swap_axes();
    assert(run.rows(q0) == run.each(Op::Linear(Projection::Query(layer)), run.rows(x)));
    assert(run.rows(q1) == run.each(Op::Reshape(seq![a.n_heads, a.head_dim]), run.rows(q0)));
    assert(run.rows(q2) == run.each(Op::Norm(Norm::Query(layer)), run.rows(q1)));
    assert(run.rows(q3) == run.rows(q2));
    assert(run.rows(q3.rotate(layer, at)).len() == l);
    assert(queries(a, layer, x, b, l, at) == q3.rotate(layer, at));

    let k0 = x.linear(Projection::Key(layer));
    let k1 = k0.reshape(ks);
    let k2 = k1.norm(Norm::Key(layer));
    let k3 = k2.swap_axes();
    assert(run.rows(k0) == run.each(Op::Linear(Projection::Key(layer)), run.rows(x)));
    assert(run.rows(k1) == run.each(Op::Reshape(seq![a.n_kv_heads, a.head_dim]), run.rows(k0)));
    assert(run.rows(k2) == run.each(Op::Norm(Norm::Key(layer)), run.rows(k1)));
    assert(run.rows(k3) == run.rows(k2));
    assert(run.rows(k3.rotate(layer, at)).len() == l);
    assert(layer_keys(m, cache, shape, n) == k3.rotate(layer, at));

    let v0 = x.linear(Projection::Value(layer));
    let v1 = v0.reshape(ks);
    assert(run.rows(v0) == run.each(Op::Linear(Projection::Value(layer)), run.rows(x)));
    assert(run.rows(v1) == run.each(Op::Reshape(seq![a.n_kv_heads, a.head_dim]), run.rows(v0)));
    assert(run.rows(v1.swap_axes()) == run.rows(v1));
    assert(layer_values(m, cache, shape, n) == v1.swap_axes());
}

/// What a layer makes of each position. The row of a position is normalised, and
/// projected to a query, a key and a value; these are split into heads, query and
/// key are normalised, and turned by the position, which is counted from the end of
/// the cache. The query gathers from the keys and values of the cache and of the
/// positions of the pass up to its own, none beyond; what it gathers is projected
/// and added to the row. The result is normalised, passed through the feed-forward
/// part, where one projection goes through the sigmoid linear unit and scales the
/// other, and added to itself.
pub proof fn law_layer_makes_this_of_each_position<A, R>(
    run: Run<R>,
    m: Model,
    cache: Seq<KvCache<A>>,
    shape: Seq<i32>,
    n: int,
    i: int,
)
    requires
        run.fits(shape, m.model.layers@.len()),
        0 <= n < m.model.layers@.len() <= usize::MAX,
        0 <= i < shape[1],
    ensures
        run.rows(hidden(m.model, cache, shape, n)).len() == shape[1],
        run.rows(hidden(m.model, cache, shape, n + 1)).len() == shape[1],
        ({
            let a = m.model.layers@[n].self_attn;
            let d = run.device;
            let at = cache[n]@.offset;
            let layer = n as usize;
            let x = run.rows(hidden(m.model, cache, shape, n));
            let y = run.rows(hidden(m.model, cache, shape, n + 1));
            let normed = |j: int| (d.apply)(Op::Norm(Norm::Input(layer)), x[j]);
            let query = (d.apply)(
                Op::Rotate { layer, position: at + i },
                (d.apply)(
                    Op::Norm(Norm::Query(layer)),
                    (d.apply)(
                        Op::Reshape(seq![a.n_heads, a.head_dim]),
                        (d.apply)(Op::Linear(Projection::Query(layer)), normed(i)),
                    ),
                ),
            );
            let keys = Seq::new(
                (i + 1) as nat,
                |j: int|
                    (d.apply)(
                        Op::Rotate { layer, position: at + j },
                        (d.apply)(
                            Op::Norm(Norm::Key(layer)),
                            (d.apply)(
                                Op::Reshape(seq![a.n_kv_heads, a.head_dim]),
                                (d.apply)(Op::Linear(Projection::Key(layer)), normed(j)),
                            ),
                        ),
                    ),
            );
            let values = Seq::new(
                (i + 1) as nat,
                |j: int|
                    (d.apply)(
                        Op::Reshape(seq![a.n_kv_heads, a.head_dim]),
                        (d.apply)(Op::Linear(Projection::Value(layer)), normed(j)),
                    ),
            );
            let gathered = (d.gather)(
                a.head_dim,
                query,
                run.keys[n] + keys,
                run.values[n] + values,
            );
            let h = (d.plus)(
                x[i],
                (d.apply)(
                    Op::Linear(Projection::Output(layer)),
                    (d.apply)(Op::Reshape(seq![-1i32]), gathered),
                ),
            );
            let row = (d.apply)(Op::Norm(Norm::PostAttention(layer)), h);
            y[i] == (d.plus)(
                h,
                (d.apply)(
                    Op::Linear(Projection::Down(layer)),
                    (d.times)(
                        (d.apply)(Op::Silu, (d.apply)(Op::Linear(Projection::Gate(layer)), row)),
                        (d.apply)(Op::Linear(Projection::Up(layer)), row),
                    ),
                ),
            )
        }),
    decreases n,
{
    if n > 0 {
        law_layer_makes_this_of_each_position(run, m, cache, shape, n - 1, i);
    } else {
        law_tokens_are_embedded_one_by_one(run, m, cache, shape, i);
    }
    lemma_heads(run, m, cache, shape, n);
    let t = m.model.layers@[n];
    let a = t.self_attn;
    let d = run.device;
    let at = cache[n]@.offset;
    let layer = n as usize;
    let (b, l) = (shape[0], shape[1]);
    let x = hidden(m.model, cache, shape, n);
    let xs = run.rows(x);
    let normed = x.norm(Norm::Input(layer));
    let q = queries(a, layer, normed, b, l, at);
    let k = layer_keys(m, cache, shape, n);
    let v = layer_values(m, cache, shape, n);
    let all = Term::Append { layer, k: Box::new(k), v: Box::new(v) };
    let (ks, vs) = (all.keys(), all.values());
    assert(run.all_keys(all) == run.keys[n] + run.rows(k));
    assert(run.all_values(all) == run.values[n] + run.rows(v));
    assert(run.rows(ks) == run.keys[n] + run.rows(k));
    assert(run.rows(vs) == run.values[n] + run.rows(v));
    let seen = Term::Attend {
        q: Box::new(q),
        k: Box::new(ks),
        v: Box::new(vs),
        head_dim: a.head_dim,
        causal: l > 1,
    };
    let c = run.keys[n].len() as int;
    let keys = run.rows(k).take(i + 1);
    let values = run.rows(v).take(i + 1);
    assert(run.rows(ks).take(c + i + 1) =~= run.keys[n] + keys);
    assert(run.rows(vs).take(c + i + 1) =~= run.values[n] + values);
    assert(run.rows(seen).len() == l);
    assert(run.rows(seen)[i] == (d.gather)(
        a.head_dim,
        run.rows(q)[i],
        run.keys[n] + keys,
        run.values[n] + values,
    ));
    let flat = seen.swap_axes().reshape(seq![b, l, REST]);
    assert(seq![b, l, REST].skip(2) =~= seq![-1i32]);
    assert(run.rows(seen.swap_axes()) == run.rows(seen));
    assert(run.rows(flat) == run.each(Op::Reshape(seq![-1i32]), run.rows(seen)));
    let out = flat.linear(Projection::Output(layer));
    assert(run.rows(out) == run.each(Op::Linear(Projection::Output(layer)), run.rows(flat)));
    assert(attended(a, layer, normed, b, l, Some(at)) == out);
    let h = x.plus(out);
    assert(run.rows(h).len() == l);
    assert(run.rows(h)[i] == (d.plus)(xs[i], run.rows(out)[i]));
    let post = h.norm(Norm::PostAttention(layer));
    assert(run.rows(post) == run.each(Op::Norm(Norm::PostAttention(layer)), run.rows(h)));
    let gate = post.linear(Projection::Gate(layer));
    let up = post.linear(Projection::Up(layer));
    assert(run.rows(gate) == run.each(Op::Linear(Projection::Gate(layer)), run.rows(post)));
    assert(run.rows(up) == run.each(Op::Linear(Projection::Up(layer)), run.rows(post)));
    let unit = gate.silu();
    assert(run.rows(unit) == run.each(Op::Silu, run.rows(gate)));
    let both = unit.times(up);
    assert(run.rows(both).len() == l);
    assert(run.rows(both)[i] == (d.times)(run.rows(unit)[i], run.rows(up)[i]));
    let down = both.linear(Projection::Down(layer));
    assert(run.rows(down) == run.each(Op::Linear(Projection::Down(layer)), run.rows(both)));
    assert(fed_forward(layer, post) == down);
    let y = h.plus(down);
    assert(hidden(m.model, cache, shape, n + 1) == y);
    assert(run.rows(y)[i] == (d.plus)(run.rows(h)[i], run.rows(down)[i]));

    let row = |j: int| (d.apply)(Op::Norm(Norm::Input(layer)), xs[j]);
    assert(keys =~= Seq::new(
        (i + 1) as nat,
        |j: int|
            (d.apply)(
                Op::Rotate { layer, position: at + j },
                (d.apply)(
                    Op::Norm(Norm::Key(layer)),
                    (d.apply)(
                        Op::Reshape(seq![a.n_kv_heads, a.head_dim]),
                        (d.apply)(Op::Linear(Projection::Key(layer)), row(j)),
                    ),
                ),
            ),
    ));
    assert(values =~= Seq::new(
        (i + 1) as nat,
        |j: int|
            (d.apply)(
                Op::Reshape(seq![a.n_kv_heads, a.head_dim]),
                (d.apply)(Op::Linear(Projection::Value(layer)), row(j)),
            ),
    ));
}

/// There is a row for each token between any two layers.
proof fn lemma_row_for_each_token<A, R>(
    run: Run<R>,
    m: Model,
    cache: Seq<KvCache<A>>,
    shape: Seq<i32>,
    n: int,
)
    requires
        run.fits(shape, m.model.layers@.len()),
        0 <= n <= m.model.layers@.len() <= usize::MAX,
    ensures
        run.rows(hidden(m.model, cache, shape, n)).len() == shape[1],
{
    if n == 0 {
        law_tokens_are_embedded_one_by_one(run, m, cache, shape, 0);
    } else {
        law_layer_makes_this_of_each_position(run, m, cache, shape, n - 1, 0);
    }
}

/// The logits of a position come from its row behind the last layer, normalised, by
/// the output layer, or by the transposed embedding where the model has none; a
/// packed embedding is applied as it was packed.
pub proof fn law_logits_of_each_position<A, R>(
    run: Run<R>,
    m: Model,
    cache: Seq<KvCache<A>>,
    shape: Seq<i32>,
    i: int,
)
    requires
        run.fits(shape, m.model.layers@.len()),
        m.model.layers@.len() <= usize::MAX,
        0 <= i < shape[1],
    ensures
        run.rows(logits(m, cache, shape)).len() == shape[1],
        run.rows(logits(m, cache, shape))[i] == (run.device.apply)(
            match (m.lm_head, m.model.embed_tokens) {
                (Some(_), _) => Op::Linear(Projection::Head),
                (None, EmbeddingLayer::Original(_)) => Op::Unembed,
                (None, EmbeddingLayer::Quantized(p)) => Op::UnembedPacked {
                    group_size: p.group_size,
                    bits: p.bits,
                },
            },
            (run.device.apply)(
                Op::Norm(Norm::Last),
                run.rows(hidden(m.model, cache, shape, m.model.layers@.len() as int))[i],
            ),
        ),
{
    let n = m.model.layers@.len() as int;
    let h = hidden(m.model, cache, shape, n);
    lemma_row_for_each_token(run, m, cache, shape, n);
    let x = h.norm(Norm::Last);
    assert(run.rows(x) == run.each(Op::Norm(Norm::Last), run.rows(h)));
    match (m.lm_head, m.model.embed_tokens) {
        (Some(_), _) => {
            assert(run.rows(x.linear(Projection::Head)) == run.each(
                Op::Linear(Projection::Head),
                run.rows(x),
            ));
        },
        (None, EmbeddingLayer::Original(_)) => {
            assert(run.rows(x.unembed()) == run.each(Op::Unembed, run.rows(x)));
        },
        (None, EmbeddingLayer::Quantized(p)) => {
            assert(run.rows(x.unembed_packed(p.group_size, p.bits)) == run.each(
                Op::UnembedPacked { group_size: p.group_size, bits: p.bits },
                run.rows(x),
            ));
        },
    }
}

/// The key that a layer makes of the row `x` at a position.
spec fn key_of<R>(d: Device<R>, a: Attention, layer: usize, position: int, x: R) -> R {
    (d.apply)(
        Op::Rotate { layer, position },
        (d.apply)(
            Op::Norm(Norm::Key(layer)),
            (d.apply)(
                Op::Reshape(seq![a.n_kv_heads, a.head_dim]),
                (d.apply)(
                    Op::Linear(Projection::Key(layer)),
                    (d.apply)(Op::Norm(Norm::Input(layer)), x),
                ),
            ),
        ),
    )
}

/// The value that a layer makes of the row `x`.
spec fn value_of<R>(d: Device<R>, a: Attention, layer: usize, x: R) -> R {
    (d.apply)(
        Op::Reshape(seq![a.n_kv_heads, a.head_dim]),
        (d.apply)(
            Op::Linear(Projection::Value(layer)),
            (d.apply)(Op::Norm(Norm::Input(layer)), x),
        ),
    )
}

/// What a layer makes of the row `x` at a position, with the keys and values that
/// it gathers from.
spec fn row_of<R>(
    d: Device<R>,
    a: Attention,
    layer: usize,
    position: int,
    x: R,
    keys: Seq<R>,
    values: Seq<R>,
) -> R {
    let query = (d.apply)(
        Op::Rotate { layer, position },
        (d.apply)(
            Op::Norm(Norm::Query(layer)),
            (d.apply)(
                Op::Reshape(seq![a.n_heads, a.head_dim]),
                (d.apply)(
                    Op::Linear(Projection::Query(layer)),
                    (d.apply)(Op::Norm(Norm::Input(layer)), x),
                ),
            ),
        ),
    );
    let h = (d.plus)(
        x,
        (d.apply)(
            Op::Linear(Projection::Output(layer)),
            (d.apply)(Op::Reshape(seq![-1i32]), (d.gather)(a.head_dim, query, keys, values)),
        ),
    );
    let row = (d.apply)(Op::Norm(Norm::PostAttention(layer)), h);
    (d.plus)(
        h,
        (d.apply)(
            Op::Linear(Projection::Down(layer)),
            (d.times)(
                (d.apply)(Op::Silu, (d.apply)(Op::Linear(Projection::Gate(layer)), row)),
                (d.apply)(Op::Linear(Projection::Up(layer)), row),
            ),
        ),
    )
}

/// The new keys of a layer for the first rows of a pass, from position `at` on.
spec fn keys_of<R>(d: Device<R>, a: Attention, layer: usize, at: int, x: Seq<R>) -> Seq<R> {
    Seq::new(x.len(), |j: int| key_of(d, a, layer, at + j, x[j]))
}

/// The new values of a layer for the first rows of a pass.
spec fn values_of<R>(d: Device<R>, a: Attention, layer: usize, x: Seq<R>) -> Seq<R> {
    Seq::new(x.len(), |j: int| value_of(d, a, layer, x[j]))
}

/// What a layer makes of a position, and what it adds to its cache, in short.
proof fn lemma_layer<A, R>(
    run: Run<R>,
    m: Model,
    cache: Seq<KvCache<A>>,
    shape: Seq<i32>,
    n: int,
    i: int,
)
    requires
        run.fits(shape, m.model.layers@.len()),
        0 <= n < m.model.layers@.len() <= usize::MAX,
        0 <= i < shape[1],
    ensures
        ({
            let a = m.model.layers@[n].self_attn;
            let at = cache[n]@.offset as int;
            let layer = n as usize;
            let x = run.rows(hidden(m.model, cache, shape, n));
            let y = run.rows(hidden(m.model, cache, shape, n + 1));
            &&& x.len() == shape[1]
            &&& y.len() == shape[1]
            &&& y[i] == row_of(
                run.device,
                a,
                layer,
                at + i,
                x[i],
                run.keys[n] + keys_of(run.device, a, layer, at, x.take(i + 1)),
                run.values[n] + values_of(run.device, a, layer, x.take(i + 1)),
            )
            &&& run.rows(layer_keys(m, cache, shape, n)) == keys_of(run.device, a, layer, at, x)
            &&& run.rows(layer_values(m, cache, shape, n)) == values_of(run.device, a, layer, x)
        }),
{
    law_layer_makes_this_of_each_position(run, m, cache, shape, n, i);
    lemma_heads(run, m, cache, shape, n);
    let a = m.model.layers@[n].self_attn;
    let d = run.device;
    let at = cache[n]@.offset;
    let layer = n as usize;
    let x = run.rows(hidden(m.model, cache, shape, n));
    let normed = |j: int| (d.apply)(Op::Norm(Norm::Input(layer)), x[j]);
    assert(keys_of(d, a, layer, at as int, x.take(i + 1)) =~= Seq::new(
        (i + 1) as nat,
        |j: int|
            (d.apply)(
                Op::Rotate { layer, position: at + j },
                (d.apply)(
                    Op::Norm(Norm::Key(layer)),
                    (d.apply)(
                        Op::Reshape(seq![a.n_kv_heads, a.head_dim]),
                        (d.apply)(Op::Linear(Projection::Key(layer)), normed(j)),
                    ),
                ),
            ),
    ));
    assert(values_of(d, a, layer, x.take(i + 1)) =~= Seq::new(
        (i + 1) as nat,
        |j: int|
            (d.apply)(
                Op::Reshape(seq![a.n_kv_heads, a.head_dim]),
                (d.apply)(Op::Linear(Projection::Value(layer)), normed(j)),
            ),
    ));
    assert(run.rows(layer_keys(m, cache, shape, n)) =~= keys_of(d, a, layer, at as int, x));
    assert(run.rows(layer_values(m, cache, shape, n)) =~= values_of(d, a, layer, x));
}

/// Rows of equal tokens are equal, as long as all tokens before them are.
proof fn lemma_equal_beginnings<A, R>(
    one: Run<R>,
    other: Run<R>,
    m: Model,
    cache: Seq<KvCache<A>>,
    shape: Seq<i32>,
    longer: Seq<i32>,
    n: int,
    i: int,
)
    requires
        one.fits(shape, m.model.layers@.len()),
        other.fits(longer, m.model.layers@.len()),
        one.device == other.device,
        one.keys == other.keys,
        one.values == other.values,
        m.model.layers@.len() <= usize::MAX,
        0 <= n <= m.model.layers@.len(),
        0 <= i < shape[1],
        i < longer[1],
        forall|j: int| 0 <= j <= i ==> one.tokens[j] == other.tokens[j],
    ensures
        one.rows(hidden(m.model, cache, shape, n))[i] == other.rows(
            hidden(m.model, cache, longer, n),
        )[i],
    decreases n,
{
    if n == 0 {
        law_tokens_are_embedded_one_by_one(one, m, cache, shape, i);
        law_tokens_are_embedded_one_by_one(other, m, cache, longer, i);
    } else {
        lemma_layer(one, m, cache, shape, n - 1, i);
        lemma_layer(other, m, cache, longer, n - 1, i);
        let x = one.rows(hidden(m.model, cache, shape, n - 1));
        let y = other.rows(hidden(m.model, cache, longer, n - 1));
        assert forall|j: int| 0 <= j <= i implies x[j] == y[j] by {
            lemma_equal_beginnings(one, other, m, cache, shape, longer, n - 1, j);
        }
        assert(x.take(i + 1) =~= y.take(i + 1));
    }
}

/// What comes out for a position depends on the tokens up to it, and on the caches,
/// alone: two passes on top of the same caches, whatever their offsets are, that
/// agree in the first tokens up to a position give the same logits for it, whatever
/// tokens follow, and however many.
pub proof fn law_later_tokens_do_not_matter<A, R>(
    one: Run<R>,
    other: Run<R>,
    m: Model,
    cache: Seq<KvCache<A>>,
    shape: Seq<i32>,
    longer: Seq<i32>,
    i: int,
)
    requires
        one.fits(shape, m.model.layers@.len()),
        other.fits(longer, m.model.layers@.len()),
        one.device == other.device,
        one.keys == other.keys,
        one.values == other.values,
        m.model.layers@.len() <= usize::MAX,
        0 <= i < shape[1],
        i < longer[1],
        forall|j: int| 0 <= j <= i ==> one.tokens[j] == other.tokens[j],
    ensures
        one.rows(logits(m, cache, shape))[i] == other.rows(logits(m, cache, longer))[i],
{
    let n = m.model.layers@.len() as int;
    law_logits_of_each_position(one, m, cache, shape, i);
    law_logits_of_each_position(other, m, cache, longer, i);
    lemma_equal_beginnings(one, other, m, cache, shape, longer, n, i);
}

/// The rows of a pass are those of its two halves.
proof fn lemma_halves<A, R>(
    whole: Run<R>,
    first: Run<R>,
    second: Run<R>,
    m: Model,
    cache: Seq<KvCache<A>>,
    later: Seq<KvCache<A>>,
    shapes: (Seq<i32>, Seq<i32>, Seq<i32>),
    n: int,
)
    requires
        in_two_chunks(whole, first, second, m, cache, later, shapes),
        0 <= n <= m.model.layers@.len(),
    ensures
        whole.rows(hidden(m.model, cache, shapes.0, n)) == first.rows(
            hidden(m.model, cache, shapes.1, n),
        ) + second.rows(hidden(m.model, later, shapes.2, n)),
    decreases n,
{
    let (all, a, b) = shapes;
    lemma_row_for_each_token(whole, m, cache, all, n);
    lemma_row_for_each_token(first, m, cache, a, n);
    lemma_row_for_each_token(second, m, later, b, n);
    let xs = whole.rows(hidden(m.model, cache, all, n));
    let ys = first.rows(hidden(m.model, cache, a, n));
    let zs = second.rows(hidden(m.model, later, b, n));
    let l = a[1] as int;
    if n > 0 {
        lemma_halves(whole, first, second, m, cache, later, shapes, n - 1);
    }
    assert forall|i: int| 0 <= i < all[1] implies xs[i] == (ys + zs)[i] by {
        if i < l {
            lemma_equal_beginnings(first, whole, m, cache, a, all, n, i);
        } else if n == 0 {
            law_tokens_are_embedded_one_by_one(whole, m, cache, all, i);
            law_tokens_are_embedded_one_by_one(second, m, later, b, i - l);
        } else {
            let at = cache[n - 1]@.offset as int;
            let layer = (n - 1) as usize;
            let att = m.model.layers@[n - 1].self_attn;
            let d = whole.device;
            lemma_layer(whole, m, cache, all, n - 1, i);
            lemma_layer(first, m, cache, a, n - 1, 0);
            lemma_layer(second, m, later, b, n - 1, i - l);
            let x = whole.rows(hidden(m.model, cache, all, n - 1));
            let y = first.rows(hidden(m.model, cache, a, n - 1));
            let z = second.rows(hidden(m.model, later, b, n - 1));
            assert(x == y + z);
            assert(later[n - 1]@.offset == at + l);
            assert(second.keys[n - 1] == whole.keys[n - 1] + keys_of(d, att, layer, at, y));
            assert(second.values[n - 1] == whole.values[n - 1] + values_of(d, att, layer, y));
            assert(whole.keys[n - 1] + keys_of(d, att, layer, at, x.take(i + 1))
                =~= second.keys[n - 1] + keys_of(d, att, layer, at + l, z.take(i - l + 1)));
            assert(whole.values[n - 1] + values_of(d, att, layer, x.take(i + 1))
                =~= second.values[n - 1] + values_of(d, att, layer, z.take(i - l + 1)));
        }
    }
    assert(xs =~= ys + zs);
}

/// A prompt is read in one pass, `whole`, or in two, `first` and then `second`, which
/// goes on where `first` ended: its caches hold what `first` added to them too.
pub open spec fn in_two_chunks<A, R>(
    whole: Run<R>,
    first: Run<R>,
    second: Run<R>,
    m: Model,
    cache: Seq<KvCache<A>>,
    later: Seq<KvCache<A>>,
    shapes: (Seq<i32>, Seq<i32>, Seq<i32>),
) -> bool {
    let (all, a, b) = shapes;
    let layers = m.model.layers@.len();
    &&& layers <= usize::MAX
    &&& whole.fits(all, layers)
    &&& first.fits(a, layers)
    &&& second.fits(b, layers)
    &&& whole.device == first.device
    &&& whole.device == second.device
    &&& whole.tokens == first.tokens + second.tokens
    &&& whole.keys == first.keys
    &&& whole.values == first.values
    &&& forall|i: int|
        0 <= i < layers ==> {
            &&& #[trigger] second.keys[i] == first.keys[i] + first.rows(layer_keys(m, cache, a, i))
            &&& second.values[i] == first.values[i] + first.rows(layer_values(m, cache, a, i))
            &&& later[i]@.offset == cache[i]@.offset + a[1]
        }
}

/// A prompt read in two chunks, at any offsets, gives the same logits as one read
/// at once, those of the first chunk and then those of the second; and what is added
/// to the cache of each layer is the same. By the same law it may be read in any
/// number of chunks.
pub proof fn law_chunks_read_like_the_whole<A, R>(
    whole: Run<R>,
    first: Run<R>,
    second: Run<R>,
    m: Model,
    cache: Seq<KvCache<A>>,
    later: Seq<KvCache<A>>,
    shapes: (Seq<i32>, Seq<i32>, Seq<i32>),
)
    requires
        in_two_chunks(whole, first, second, m, cache, later, shapes),
    ensures
        whole.rows(logits(m, cache, shapes.0)) == first.rows(logits(m, cache, shapes.1))
            + second.rows(logits(m, later, shapes.2)),
        forall|i: int|
            0 <= i < m.model.layers@.len() ==> whole.keys[i] + whole.rows(
                #[trigger] layer_keys(m, cache, shapes.0, i),
            ) == second.keys[i] + second.rows(layer_keys(m, later, shapes.2, i)),
        forall|i: int|
            0 <= i < m.model.layers@.len() ==> whole.values[i] + whole.rows(
                #[trigger] layer_values(m, cache, shapes.0, i),
            ) == second.values[i] + second.rows(layer_values(m, later, shapes.2, i)),
{
    let (all, a, b) = shapes;
    let n = m.model.layers@.len() as int;
    let l = a[1] as int;
    lemma_halves(whole, first, second, m, cache, later, shapes, n);
    lemma_row_for_each_token(first, m, cache, a, n);
    lemma_row_for_each_token(second, m, later, b, n);
    let xs = whole.rows(logits(m, cache, all));
    let ys = first.rows(logits(m, cache, a));
    let zs = second.rows(logits(m, later, b));
    law_logits_of_each_position(whole, m, cache, all, 0);
    law_logits_of_each_position(first, m, cache, a, 0);
    law_logits_of_each_position(second, m, later, b, 0);
    assert forall|i: int| 0 <= i < all[1] implies xs[i] == (ys + zs)[i] by {
        law_logits_of_each_position(whole, m, cache, all, i);
        if i < l {
            law_logits_of_each_position(first, m, cache, a, i);
        } else {
            law_logits_of_each_position(second, m, later, b, i - l);
        }
    }
    assert(xs =~= ys + zs);
    assert forall|i: int| 0 <= i < n implies {
        &&& whole.keys[i] + whole.rows(#[trigger] layer_keys(m, cache, all, i)) == second.keys[i]
            + second.rows(layer_keys(m, later, b, i))
        &&& whole.values[i] + whole.rows(layer_values(m, cache, all, i)) == second.values[i]
            + second.rows(layer_values(m, later, b, i))
    } by {
        lemma_halves(whole, first, second, m, cache, later, shapes, i);
        lemma_layer(whole, m, cache, all, i, 0);
        lemma_layer(first, m, cache, a, i, 0);
        lemma_layer(second, m, later, b, i, 0);
        assert(second.keys[i] == first.keys[i] + first.rows(layer_keys(m, cache, a, i)));
        assert(whole.keys[i] + whole.rows(layer_keys(m, cache, all, i)) =~= second.keys[i]
            + second.rows(layer_keys(m, later, b, i)));
        assert(whole.values[i] + whole.rows(layer_values(m, cache, all, i)) =~= second.values[i]
            + second.rows(layer_values(m, later, b, i)));
    }
    assert forall|i: int| 0 <= i < n implies whole.values[i] + whole.rows(
        #[trigger] layer_values(m, cache, all, i),
    ) == second.values[i] + second.rows(layer_values(m, later, b, i)) by {
        let k = layer_keys(m, cache, all, i);
        assert(whole.keys[i] + whole.rows(k) == second.keys[i] + second.rows(
            layer_keys(m, later, b, i),
        ));
    }
}

/// Attention without a cache is attention on top of an empty one.
pub proof fn law_no_cache_is_like_an_empty_one<R>(
    run: Run<R>,
    a: Attention,
    layer: usize,
    x: Term,
    l: i32,
)
    requires
        layer < run.keys.len(),
        layer < run.values.len(),
        run.keys[layer as int].len() == 0,
        run.values[layer as int].len() == 0,
    ensures
        run.rows(attended(a, layer, x, 1, l, None)) == run.rows(
            attended(a, layer, x, 1, l, Some(0)),
        ),
{
    let q = queries(a, layer, x, 1, l, 0);
    let k = new_keys(a, layer, x, 1, l, 0);
    let v = new_values(a, layer, x, 1, l);
    let all = Term::Append { layer, k: Box::new(k), v: Box::new(v) };
    assert(run.all_keys(all) =~= run.rows(k));
    assert(run.all_values(all) =~= run.rows(v));
    assert(run.rows(all.keys()) == run.rows(k));
    assert(run.rows(all.values()) == run.rows(v));
    let bare = Term::Attend {
        q: Box::new(q),
        k: Box::new(k),
        v: Box::new(v),
        head_dim: a.head_dim,
        causal: l > 1,
    };
    let cached = Term::Attend {
        q: Box::new(q),
        k: Box::new(all.keys()),
        v: Box::new(all.values()),
        head_dim: a.head_dim,
        causal: l > 1,
    };
    assert(run.rows(bare) =~= run.rows(cached));
    let s = seq![1i32, l, REST];
    assert(run.rows(bare.swap_axes()) == run.rows(cached.swap_axes()));
    assert(run.rows(bare.swap_axes().reshape(s)) == run.rows(cached.swap_axes().reshape(s)));
    assert(run.rows(bare.swap_axes().reshape(s).linear(Projection::Output(layer))) == run.rows(
        cached.swap_axes().reshape(s).linear(Projection::Output(layer)),
    ));
}

/// Two programs that `forward` gives for the same model on top of the same caches
/// make the same logits of a position, as long as the tokens up to it agree.
pub proof fn law_forward_is_causal<A, R>(
    m: Model,
    cache: &[KvCache<A>],
    shape: &[i32],
    longer: &[i32],
    plan: Plan,
    other_plan: Plan,
    one: Run<R>,
    other: Run<R>,
    i: int,
)
    requires
        call_ensures(Model::forward::<A>, (&m, shape, cache), Ok(plan)),
        call_ensures(Model::forward::<A>, (&m, longer, cache), Ok(other_plan)),
        one.fits(shape@, m.model.layers@.len()),
        other.fits(longer@, m.model.layers@.len()),
        one.device == other.device,
        one.keys == other.keys,
        one.values == other.values,
        0 <= i < shape@[1],
        i < longer@[1],
        forall|j: int| 0 <= j <= i ==> one.tokens[j] == other.tokens[j],
    ensures
        one.rows(plan.term(plan.size() - 1)).len() == shape@[1],
        one.rows(plan.term(plan.size() - 1))[i] == other.rows(
            other_plan.term(other_plan.size() - 1),
        )[i],
        plan.appends() == Seq::new(m.model.layers@.len(), |l: int| l),
{
    assert(m.model.layers.len() == m.model.layers@.len());
    law_logits_of_each_position(one, m, cache@, shape@, i);
    law_later_tokens_do_not_matter(one, other, m, cache@, shape@, longer@, i);
}

/// The programs that `forward` gives for a prompt in two chunks make the same logits
/// as the one for the whole prompt.
pub proof fn law_forward_reads_chunks_like_the_whole<A, R>(
    m: Model,
    cache: &[KvCache<A>],
    later: &[KvCache<A>],
    shapes: (&[i32], &[i32], &[i32]),
    plans: (Plan, Plan, Plan),
    whole: Run<R>,
    first: Run<R>,
    second: Run<R>,
)
    requires
        call_ensures(Model::forward::<A>, (&m, shapes.0, cache), Ok(plans.0)),
        call_ensures(Model::forward::<A>, (&m, shapes.1, cache), Ok(plans.1)),
        call_ensures(Model::forward::<A>, (&m, shapes.2, later), Ok(plans.2)),
        in_two_chunks(
            whole,
            first,
            second,
            m,
            cache@,
            later@,
            (shapes.0@, shapes.1@, shapes.2@),
        ),
    ensures
        whole.rows(plans.0.term(plans.0.size() - 1)) == first.rows(
            plans.1.term(plans.1.size() - 1),
        ) + second.rows(plans.2.term(plans.2.size() - 1)),
{
    law_chunks_read_like_the_whole(
        whole,
        first,
        second,
        m,
        cache@,
        later@,
        (shapes.0@, shapes.1@, shapes.2@),
    );
}

} // verus!
