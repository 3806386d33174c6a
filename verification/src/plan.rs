//! Device programs.
//!
//! What the device computes is laid down as a list of operations before any of
//! them runs. Each operation yields one result, and names its operands by the
//! numbers of the operations that yielded them. What a program computes is stated
//! as a `Term`: the expression that a result stands for.

use crate::error::{Fault, LmError};
use crate::single::Single;
use vstd::prelude::*;

verus! {

/// In a shape: as long as it takes to hold all entries.
pub const REST: i32 = -1;

/// A linear layer of the model, by the layer that it belongs to.
#[derive(Clone, Copy, Debug, PartialEq, Eq, Structural)]
pub enum Projection {
    Query(usize),
    Key(usize),
    Value(usize),
    Output(usize),
    Gate(usize),
    Up(usize),
    Down(usize),
    Head,
}

/// A normalisation of the model, by the layer that it belongs to.
#[derive(Clone, Copy, Debug, PartialEq, Eq, Structural)]
pub enum Norm {
    Query(usize),
    Key(usize),
    Input(usize),
    PostAttention(usize),
    Last,
}

/// One of the three tables of a packed embedding.
#[derive(Clone, Copy, Debug, PartialEq, Eq, Structural)]
pub enum Table {
    Weight,
    Scales,
    Biases,
}

/// A number that is known when a program is laid down.
#[derive(Clone, Copy, Debug, PartialEq, Eq, Structural)]
pub enum Literal {
    /// The number itself.
    Single(Single),
    /// An integer.
    Integer(i32),
    /// The distance from `low` to `high`; where it is `widened`, `high` counts
    /// as a thousandth more than it is.
    Span { low: i32, high: i32, widened: bool },
}

/// A device operation. Operands are numbers of earlier operations.
#[derive(Debug)]
pub enum Step {
    /// What the program is run on.
    Input,
    /// A single number.
    Scalar { value: Literal },
    /// Given numbers in a given shape.
    Constant { values: Vec<Single>, shape: Vec<i32> },
    /// The numbers from `start` up to `stop`, which is left out, by `step`.
    Arange { start: i32, stop: i32, step: i32 },
    /// The embedding of each token.
    Embed { x: usize },
    /// All entries in one axis.
    Flatten { x: usize },
    /// The rows of a table that `x` lists.
    Rows { of: Table, x: usize },
    /// Packed rows as numbers.
    Dequantize { weight: usize, scales: usize, biases: usize, group_size: i32, bits: i32 },
    /// The transposed embedding, applied as a linear layer.
    Unembed { x: usize },
    /// The same with a packed embedding.
    UnembedPacked { x: usize, group_size: i32, bits: i32 },
    /// A linear layer.
    Linear { proj: Projection, x: usize },
    /// A normalisation.
    Norm { norm: Norm, x: usize },
    /// The same entries in another shape; an axis of `REST` takes what is left.
    Reshape { x: usize, shape: Vec<i32> },
    /// Axes one and two exchanged, of four.
    SwapAxes { x: usize },
    /// The rope of a layer, from position `offset` on.
    Rotate { layer: usize, x: usize, offset: i32 },
    /// Keys and values appended to the cache of a layer; yields all of both.
    Append { layer: usize, k: usize, v: usize },
    /// The keys of an `Append`.
    Keys { x: usize },
    /// The values of an `Append`.
    Values { x: usize },
    /// Attention, scaled by one over the root of `head_dim`.
    Attend { q: usize, k: usize, v: usize, head_dim: i32, causal: bool },
    /// The sigmoid linear unit.
    Silu { x: usize },
    Add { x: usize, y: usize },
    Subtract { x: usize, y: usize },
    Multiply { x: usize, y: usize },
    Divide { x: usize, y: usize },
    /// `x` to the power of `y`.
    Power { x: usize, y: usize },
    /// Whether `x` is less than `y`.
    Less { x: usize, y: usize },
    /// `x` where `when` holds, else `y`.
    Select { when: usize, x: usize, y: usize },
    /// The nearest number between zero and one.
    ClipUnit { x: usize },
    /// `x` times a number, which is first put into the element type of `x`.
    Scale { x: usize, by: Single },
    /// Positions `start..end` of the last axis.
    Range { x: usize, start: i32, end: i32 },
    /// `x`, then `y`, along the last axis.
    Concat { x: usize, y: usize },
    /// The rope with base frequency `base`, its positions divided by `divisor`.
    Rope { x: usize, dims: i32, base: Single, divisor: Single, offset: i32 },
    /// The rope with frequencies of its own.
    RopeAlong { x: usize, dims: i32, offset: i32 },
    /// The last position of axis one, of three.
    LastPosition { x: usize },
    /// The index of the largest entry along the last axis.
    ArgMax { x: usize },
    /// An index along the last axis, drawn at random with the entries as logits.
    Categorical { x: usize },
}

/// What a result stands for.
pub enum Term {
    Input,
    Scalar { value: Literal },
    Constant { values: Seq<Single>, shape: Seq<i32> },
    Arange { start: i32, stop: i32, step: i32 },
    Embed { x: Box<Term> },
    Flatten { x: Box<Term> },
    Rows { of: Table, x: Box<Term> },
    Dequantize {
        weight: Box<Term>,
        scales: Box<Term>,
        biases: Box<Term>,
        group_size: i32,
        bits: i32,
    },
    Unembed { x: Box<Term> },
    UnembedPacked { x: Box<Term>, group_size: i32, bits: i32 },
    Linear { proj: Projection, x: Box<Term> },
    Norm { norm: Norm, x: Box<Term> },
    Reshape { x: Box<Term>, shape: Seq<i32> },
    SwapAxes { x: Box<Term> },
    Rotate { layer: usize, x: Box<Term>, offset: i32 },
    Append { layer: usize, k: Box<Term>, v: Box<Term> },
    Keys { x: Box<Term> },
    Values { x: Box<Term> },
    Attend { q: Box<Term>, k: Box<Term>, v: Box<Term>, head_dim: i32, causal: bool },
    Silu { x: Box<Term> },
    Add { x: Box<Term>, y: Box<Term> },
    Subtract { x: Box<Term>, y: Box<Term> },
    Multiply { x: Box<Term>, y: Box<Term> },
    Divide { x: Box<Term>, y: Box<Term> },
    Power { x: Box<Term>, y: Box<Term> },
    Less { x: Box<Term>, y: Box<Term> },
    Select { when: Box<Term>, x: Box<Term>, y: Box<Term> },
    ClipUnit { x: Box<Term> },
    Scale { x: Box<Term>, by: Single },
    Range { x: Box<Term>, start: i32, end: i32 },
    Concat { x: Box<Term>, y: Box<Term> },
    Rope { x: Box<Term>, dims: i32, base: Single, divisor: Single, offset: i32 },
    RopeAlong { x: Box<Term>, dims: i32, offset: i32 },
    LastPosition { x: Box<Term> },
    ArgMax { x: Box<Term> },
    Categorical { x: Box<Term> },
}

impl Step {
    /// The operands are among the first `n` results.
    pub open spec fn reads_below(self, n: int) -> bool {
        match self {
            Step::Input => true,
            Step::Scalar { .. } => true,
            Step::Constant { .. } => true,
            Step::Arange { .. } => true,
            Step::Embed { x } => x < n,
            Step::Flatten { x } => x < n,
            Step::Rows { x, .. } => x < n,
            Step::Dequantize { weight, scales, biases, .. } => {
                weight < n && scales < n && biases < n
            },
            Step::Unembed { x } => x < n,
            Step::UnembedPacked { x, .. } => x < n,
            Step::Linear { x, .. } => x < n,
            Step::Norm { x, .. } => x < n,
            Step::Reshape { x, .. } => x < n,
            Step::SwapAxes { x } => x < n,
            Step::Rotate { x, .. } => x < n,
            Step::Append { k, v, .. } => k < n && v < n,
            Step::Keys { x } => x < n,
            Step::Values { x } => x < n,
            Step::Attend { q, k, v, .. } => q < n && k < n && v < n,
            Step::Silu { x } => x < n,
            Step::Add { x, y } => x < n && y < n,
            Step::Subtract { x, y } => x < n && y < n,
            Step::Multiply { x, y } => x < n && y < n,
            Step::Divide { x, y } => x < n && y < n,
            Step::Power { x, y } => x < n && y < n,
            Step::Less { x, y } => x < n && y < n,
            Step::Select { when, x, y } => when < n && x < n && y < n,
            Step::ClipUnit { x } => x < n,
            Step::Scale { x, .. } => x < n,
            Step::Range { x, .. } => x < n,
            Step::Concat { x, y } => x < n && y < n,
            Step::Rope { x, .. } => x < n,
            Step::RopeAlong { x, .. } => x < n,
            Step::LastPosition { x } => x < n,
            Step::ArgMax { x } => x < n,
            Step::Categorical { x } => x < n,
        }
    }

    /// What the operation yields, given what the results before it stand for.
    pub open spec fn yields(self, at: Seq<Term>) -> Term {
        match self {
            Step::Input => Term::Input,
            Step::Scalar { value } => Term::Scalar { value },
            Step::Constant { values, shape } => Term::Constant { values: values@, shape: shape@ },
            Step::Arange { start, stop, step } => Term::Arange { start, stop, step },
            Step::Embed { x } => Term::Embed { x: Box::new(at[x as int]) },
            Step::Flatten { x } => Term::Flatten { x: Box::new(at[x as int]) },
            Step::Rows { of, x } => Term::Rows { of, x: Box::new(at[x as int]) },
            Step::Dequantize { weight, scales, biases, group_size, bits } => Term::Dequantize {
                weight: Box::new(at[weight as int]),
                scales: Box::new(at[scales as int]),
                biases: Box::new(at[biases as int]),
                group_size,
                bits,
            },
            Step::Unembed { x } => Term::Unembed { x: Box::new(at[x as int]) },
            Step::UnembedPacked { x, group_size, bits } => Term::UnembedPacked {
                x: Box::new(at[x as int]),
                group_size,
                bits,
            },
            Step::Linear { proj, x } => Term::Linear { proj, x: Box::new(at[x as int]) },
            Step::Norm { norm, x } => Term::Norm { norm, x: Box::new(at[x as int]) },
            Step::Reshape { x, shape } => Term::Reshape {
                x: Box::new(at[x as int]),
                shape: shape@,
            },
            Step::SwapAxes { x } => Term::SwapAxes { x: Box::new(at[x as int]) },
            Step::Rotate { layer, x, offset } => Term::Rotate {
                layer,
                x: Box::new(at[x as int]),
                offset,
            },
            Step::Append { layer, k, v } => Term::Append {
                layer,
                k: Box::new(at[k as int]),
                v: Box::new(at[v as int]),
            },
            Step::Keys { x } => Term::Keys { x: Box::new(at[x as int]) },
            Step::Values { x } => Term::Values { x: Box::new(at[x as int]) },
            Step::Attend { q, k, v, head_dim, causal } => Term::Attend {
                q: Box::new(at[q as int]),
                k: Box::new(at[k as int]),
                v: Box::new(at[v as int]),
                head_dim,
                causal,
            },
            Step::Silu { x } => Term::Silu { x: Box::new(at[x as int]) },
            Step::Add { x, y } => Term::Add {
                x: Box::new(at[x as int]),
                y: Box::new(at[y as int]),
            },
            Step::Subtract { x, y } => Term::Subtract {
                x: Box::new(at[x as int]),
                y: Box::new(at[y as int]),
            },
            Step::Multiply { x, y } => Term::Multiply {
                x: Box::new(at[x as int]),
                y: Box::new(at[y as int]),
            },
            Step::Divide { x, y } => Term::Divide {
                x: Box::new(at[x as int]),
                y: Box::new(at[y as int]),
            },
            Step::Power { x, y } => Term::Power {
                x: Box::new(at[x as int]),
                y: Box::new(at[y as int]),
            },
            Step::Less { x, y } => Term::Less {
                x: Box::new(at[x as int]),
                y: Box::new(at[y as int]),
            },
            Step::Select { when, x, y } => Term::Select {
                when: Box::new(at[when as int]),
                x: Box::new(at[x as int]),
                y: Box::new(at[y as int]),
            },
            Step::ClipUnit { x } => Term::ClipUnit { x: Box::new(at[x as int]) },
            Step::Scale { x, by } => Term::Scale { x: Box::new(at[x as int]), by },
            Step::Range { x, start, end } => Term::Range { x: Box::new(at[x as int]), start, end },
            Step::Concat { x, y } => Term::Concat {
                x: Box::new(at[x as int]),
                y: Box::new(at[y as int]),
            },
            Step::Rope { x, dims, base, divisor, offset } => Term::Rope {
                x: Box::new(at[x as int]),
                dims,
                base,
                divisor,
                offset,
            },
            Step::RopeAlong { x, dims, offset } => Term::RopeAlong {
                x: Box::new(at[x as int]),
                dims,
                offset,
            },
            Step::LastPosition { x } => Term::LastPosition { x: Box::new(at[x as int]) },
            Step::ArgMax { x } => Term::ArgMax { x: Box::new(at[x as int]) },
            Step::Categorical { x } => Term::Categorical { x: Box::new(at[x as int]) },
        }
    }
}

/// Expressions, written as operations on their first operand.
impl Term {
    pub open spec fn embed(self) -> Term {
        Term::Embed { x: Box::new(self) }
    }

    pub open spec fn flatten(self) -> Term {
        Term::Flatten { x: Box::new(self) }
    }

    pub open spec fn rows(self, of: Table) -> Term {
        Term::Rows { of, x: Box::new(self) }
    }

    pub open spec fn unembed(self) -> Term {
        Term::Unembed { x: Box::new(self) }
    }

    pub open spec fn unembed_packed(self, group_size: i32, bits: i32) -> Term {
        Term::UnembedPacked { group_size, bits, x: Box::new(self) }
    }

    pub open spec fn linear(self, proj: Projection) -> Term {
        Term::Linear { proj, x: Box::new(self) }
    }

    pub open spec fn norm(self, norm: Norm) -> Term {
        Term::Norm { norm, x: Box::new(self) }
    }

    pub open spec fn reshape(self, shape: Seq<i32>) -> Term {
        Term::Reshape { shape, x: Box::new(self) }
    }

    pub open spec fn swap_axes(self) -> Term {
        Term::SwapAxes { x: Box::new(self) }
    }

    pub open spec fn rotate(self, layer: usize, offset: i32) -> Term {
        Term::Rotate { layer, offset, x: Box::new(self) }
    }

    pub open spec fn keys(self) -> Term {
        Term::Keys { x: Box::new(self) }
    }

    pub open spec fn values(self) -> Term {
        Term::Values { x: Box::new(self) }
    }

    pub open spec fn silu(self) -> Term {
        Term::Silu { x: Box::new(self) }
    }

    pub open spec fn clip_unit(self) -> Term {
        Term::ClipUnit { x: Box::new(self) }
    }

    pub open spec fn scale(self, by: Single) -> Term {
        Term::Scale { by, x: Box::new(self) }
    }

    pub open spec fn range(self, start: i32, end: i32) -> Term {
        Term::Range { start, end, x: Box::new(self) }
    }

    pub open spec fn last_position(self) -> Term {
        Term::LastPosition { x: Box::new(self) }
    }

    pub open spec fn arg_max(self) -> Term {
        Term::ArgMax { x: Box::new(self) }
    }

    pub open spec fn categorical(self) -> Term {
        Term::Categorical { x: Box::new(self) }
    }

    pub open spec fn plus(self, y: Term) -> Term {
        Term::Add { x: Box::new(self), y: Box::new(y) }
    }

    pub open spec fn minus(self, y: Term) -> Term {
        Term::Subtract { x: Box::new(self), y: Box::new(y) }
    }

    pub open spec fn times(self, y: Term) -> Term {
        Term::Multiply { x: Box::new(self), y: Box::new(y) }
    }

    pub open spec fn over(self, y: Term) -> Term {
        Term::Divide { x: Box::new(self), y: Box::new(y) }
    }

    pub open spec fn to_the(self, y: Term) -> Term {
        Term::Power { x: Box::new(self), y: Box::new(y) }
    }

    pub open spec fn less_than(self, y: Term) -> Term {
        Term::Less { x: Box::new(self), y: Box::new(y) }
    }

    pub open spec fn concat(self, y: Term) -> Term {
        Term::Concat { x: Box::new(self), y: Box::new(y) }
    }

    /// The number `value`.
    pub open spec fn number(value: Literal) -> Term {
        Term::Scalar { value }
    }

    /// `self` where `when` holds, else `y`.
    pub open spec fn where_or(self, when: Term, y: Term) -> Term {
        Term::Select { when: Box::new(when), x: Box::new(self), y: Box::new(y) }
    }
}

/// What the results of a program stand for.
#[verifier::opaque]
pub open spec fn results(steps: Seq<Step>) -> Seq<Term>
    decreases steps.len(),
{
    if steps.len() == 0 {
        Seq::empty()
    } else {
        let before = results(steps.drop_last());
        before.push(steps.last().yields(before))
    }
}

/// The layers whose caches a program appends to, in order.
#[verifier::opaque]
pub open spec fn appends(steps: Seq<Step>) -> Seq<int>
    decreases steps.len(),
{
    if steps.len() == 0 {
        Seq::empty()
    } else {
        match steps.last() {
            Step::Append { layer, .. } => appends(steps.drop_last()).push(layer as int),
            _ => appends(steps.drop_last()),
        }
    }
}

/// A device program.
#[derive(Debug)]
pub struct Plan {
    pub steps: Vec<Step>,
}

impl Plan {
    /// Every operation reads only results of earlier ones, and yields one.
    pub open spec fn wf(self) -> bool {
        &&& forall|i: int|
            0 <= i < self.steps@.len() ==> (#[trigger] self.steps@[i]).reads_below(i)
        &&& self.results().len() == self.steps@.len()
    }

    /// What the results stand for.
    pub open spec fn results(self) -> Seq<Term> {
        results(self.steps@)
    }

    /// How many results there are.
    pub open spec fn size(self) -> int {
        self.results().len() as int
    }

    /// What result `i` stands for.
    #[verifier::inline]
    pub open spec fn term(self, i: int) -> Term {
        self.results()[i]
    }

    /// The layers whose caches are appended to, in order.
    pub open spec fn appends(self) -> Seq<int> {
        appends(self.steps@)
    }

    /// The program goes on where `before` ended: its results stand for the same.
    pub open spec fn continues(self, before: Plan) -> bool {
        &&& before.size() <= self.size()
        &&& forall|i: int|
            0 <= i < before.size() ==> #[trigger] self.results()[i] == before.results()[i]
    }

    /// The last result stands for `term`, and no cache is changed.
    pub open spec fn computes(self, term: Term) -> bool {
        &&& self.wf()
        &&& self.size() > 0
        &&& self.term(self.size() - 1) == term
        &&& self.appends() == Seq::<int>::empty()
    }

    /// A program without operations.
    pub fn empty() -> (r: Self)
        ensures
            r.wf(),
            r.size() == 0,
            r.appends() == Seq::<int>::empty(),
    {
        reveal(results);
        reveal(appends);
        Plan { steps: Vec::new() }
    }

    /// A program that yields nothing but its input, as result zero.
    pub fn new() -> (r: Self)
        ensures
            r.wf(),
            r.size() == 1,
            r.term(0) == Term::Input,
            r.appends() == Seq::<int>::empty(),
    {
        let mut plan = Plan::empty();
        plan.push(Step::Input);
        plan
    }

    /// Adds an operation; its result has the number that comes back.
    pub(crate) fn push(&mut self, step: Step) -> (r: usize)
        requires
            old(self).wf(),
            step.reads_below(old(self).size()),
        ensures
            final(self).wf(),
            final(self).results() == old(self).results().push(step.yields(old(self).results())),
            r == old(self).size(),
            final(self).appends() == (match step {
                Step::Append { layer, .. } => old(self).appends().push(layer as int),
                _ => old(self).appends(),
            }),
    {
        let r: usize = self.steps.len();
        let ghost before = self.steps@;
        self.steps.push(step);
        proof {
            assert(self.steps@.drop_last() =~= before);
            reveal_with_fuel(results, 2);
            reveal_with_fuel(appends, 2);
        }
        r
    }
}

/// `after` goes on where `before` ended, and its last result, number `r`, stands
/// for `term`.
pub open spec fn extended_by(before: Plan, after: Plan, r: usize, term: Term) -> bool {
    &&& after.wf()
    &&& after.continues(before)
    &&& r == after.size() - 1
    &&& after.term(r as int) == term
}

/// `r` is a program for the expression `of`, or the error that it is.
pub open spec fn realises(of: Result<Term, Fault>, r: Result<Plan, LmError>) -> bool {
    match (of, r) {
        (Ok(term), Ok(plan)) => plan.computes(term),
        (Err(fault), Err(e)) => e@ == fault,
        _ => false,
    }
}

} // verus!
