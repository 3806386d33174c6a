//! Rotary position embedding: which scaling a configuration asks for, and how
//! the embedding is applied.
//!
//! Default and linear scaling divide the positions by a constant. YaRN replaces
//! the frequencies, and scales what is rotated.

use crate::config::{RopeScaling, RopeScalingValue};
use crate::error::{first, Fault, LmError};
use crate::meaning::Reading;
use crate::plan::{realises, Literal, Plan, Step, Term};
use crate::single::{Single, ONE, ZERO};
use crate::text::{decimal, push_decimal, quote, quoted, same};
use vstd::prelude::*;
use vstd::string::StringExecFns;

verus! {

/// The bit pattern of 32.0.
pub const DEFAULT_BETA_FAST: u32 = 0x4200_0000;

/// The bit pattern of 1.0.
pub const DEFAULT_BETA_SLOW: u32 = 0x3f80_0000;

/// The bit pattern of 1.0.
pub const DEFAULT_MSCALE: u32 = 0x3f80_0000;

/// The bit pattern of 0.0.
pub const DEFAULT_MSCALE_ALL_DIM: u32 = 0;

/// What YaRN scaling is computed from.
#[derive(Clone, Copy, Debug, PartialEq, Eq, Structural)]
pub struct YarnParameters {
    pub factor: Single,
    pub original_max_position_embeddings: Single,
    pub beta_fast: Single,
    pub beta_slow: Single,
    pub mscale: Single,
    pub mscale_all_dim: Single,
}

/// How positions are scaled.
#[derive(Clone, Copy, Debug, PartialEq, Eq, Structural)]
pub enum Scaling {
    /// Positions are multiplied by one over `divisor`.
    Standard { divisor: Single },
    /// Frequencies follow YaRN.
    Yarn(YarnParameters),
}

/// A rope: `dims` rotated dimensions with the base frequency `base`.
#[derive(Clone, Copy, Debug, PartialEq, Eq, Structural)]
pub struct Rope {
    pub dims: i32,
    pub base: Single,
    pub scaling: Scaling,
}

/// What is wrong with a value that must be a number.
pub open spec fn number_fault(table: Map<Seq<char>, RopeScalingValue>, key: Seq<char>) -> Option<
    Fault,
> {
    if table.contains_key(key) && !(table[key] is Float) {
        Some(Fault::Config("rope_scaling."@ + key + " must be numeric"@))
    } else {
        None
    }
}

/// What is wrong with a number that must be there.
pub open spec fn required_fault(table: Map<Seq<char>, RopeScalingValue>, key: Seq<char>) -> Option<
    Fault,
> {
    if !table.contains_key(key) {
        Some(Fault::Config("rope_scaling."@ + key + " is required for rope_type=\"yarn\""@))
    } else {
        number_fault(table, key)
    }
}

/// The number under `key`, or `default` where there is none.
pub open spec fn number_or(
    table: Map<Seq<char>, RopeScalingValue>,
    key: Seq<char>,
    default: Single,
) -> Single {
    if table.contains_key(key) {
        table[key]->Float_0
    } else {
        default
    }
}

/// What is wrong with a number that must be finite and positive.
pub open spec fn positive_fault(name: Seq<char>, value: Single) -> Option<Fault> {
    if value.finite() && value.positive() {
        None
    } else {
        Some(Fault::NotPositive { name, value })
    }
}

/// What is wrong with a number that must be finite.
pub open spec fn finite_fault(name: Seq<char>, value: Single) -> Option<Fault> {
    if value.finite() {
        None
    } else {
        Some(Fault::NotFinite { name, value })
    }
}

/// The kind of scaling that a table names: under `type`, else under
/// `rope_type`; the default where what it finds is no text.
pub open spec fn rope_type(table: Map<Seq<char>, RopeScalingValue>) -> Seq<char> {
    let key = if table.contains_key("type"@) {
        "type"@
    } else {
        "rope_type"@
    };
    if table.contains_key(key) && table[key] is String {
        table[key]->String_0@
    } else {
        "default"@
    }
}

/// The YaRN parameters of a table.
pub open spec fn yarn_parameters(table: Map<Seq<char>, RopeScalingValue>) -> YarnParameters {
    YarnParameters {
        factor: number_or(table, "factor"@, Single { bits: ZERO }),
        original_max_position_embeddings: number_or(
            table,
            "original_max_position_embeddings"@,
            Single { bits: ZERO },
        ),
        beta_fast: number_or(table, "beta_fast"@, Single { bits: DEFAULT_BETA_FAST }),
        beta_slow: number_or(table, "beta_slow"@, Single { bits: DEFAULT_BETA_SLOW }),
        mscale: number_or(table, "mscale"@, Single { bits: DEFAULT_MSCALE }),
        mscale_all_dim: number_or(
            table,
            "mscale_all_dim"@,
            Single { bits: DEFAULT_MSCALE_ALL_DIM },
        ),
    }
}

/// What is wrong with a YaRN table: first how its values are written, in the
/// order of the parameters, then what they are.
pub open spec fn yarn_fault(table: Map<Seq<char>, RopeScalingValue>) -> Option<Fault> {
    let p = yarn_parameters(table);
    first(
        required_fault(table, "factor"@),
        first(
            required_fault(table, "original_max_position_embeddings"@),
            first(
                number_fault(table, "beta_fast"@),
                first(
                    number_fault(table, "beta_slow"@),
                    first(
                        number_fault(table, "mscale"@),
                        first(number_fault(table, "mscale_all_dim"@), yarn_value_fault(p)),
                    ),
                ),
            ),
        ),
    )
}

/// What is wrong with the values of YaRN parameters.
pub open spec fn yarn_value_fault(p: YarnParameters) -> Option<Fault> {
    first(
        positive_fault("rope_scaling.factor"@, p.factor),
        first(
            positive_fault(
                "rope_scaling.original_max_position_embeddings"@,
                p.original_max_position_embeddings,
            ),
            first(
                positive_fault("rope_scaling.beta_fast"@, p.beta_fast),
                first(
                    positive_fault("rope_scaling.beta_slow"@, p.beta_slow),
                    first(
                        finite_fault("rope_scaling.mscale"@, p.mscale),
                        finite_fault("rope_scaling.mscale_all_dim"@, p.mscale_all_dim),
                    ),
                ),
            ),
        ),
    )
}

/// The scaling that a table asks for, or what is wrong with it.
pub open spec fn table_scaling(table: Map<Seq<char>, RopeScalingValue>) -> Result<Scaling, Fault> {
    let kind = rope_type(table);
    if kind == "default"@ {
        Ok(Scaling::Standard { divisor: Single { bits: ONE } })
    } else if kind == "linear"@ {
        let divisor = number_or(table, "factor"@, Single { bits: ONE });
        let fault = first(
            number_fault(table, "factor"@),
            positive_fault("rope_scaling.factor"@, divisor),
        );
        if fault is Some {
            Err(fault->0)
        } else {
            Ok(Scaling::Standard { divisor })
        }
    } else if kind == "yarn"@ {
        if yarn_fault(table) is Some {
            Err(yarn_fault(table)->0)
        } else {
            Ok(Scaling::Yarn(yarn_parameters(table)))
        }
    } else {
        Err(unsupported(quoted(kind)))
    }
}

/// The scaling that a configuration asks for.
pub open spec fn scaling_of(config: Option<RopeScaling>) -> Result<Scaling, Fault> {
    match config {
        None => Ok(Scaling::Standard { divisor: Single { bits: ONE } }),
        Some(c) => table_scaling(c@),
    }
}

/// A number under `key`, if there is a value.
fn optional_float(config: &RopeScaling, key: &str) -> (r: Result<Option<Single>, LmError>)
    ensures
        match r {
            Ok(None) => !config@.contains_key(key@),
            Ok(Some(x)) => {
                &&& config@.contains_key(key@)
                &&& config@[key@] == RopeScalingValue::Float(x)
            },
            Err(e) => Some(e@) == number_fault(config@, key@),
        },
        r is Ok ==> number_fault(config@, key@) is None,
{
    match config.get(key) {
        None => Ok(None),
        Some(RopeScalingValue::Float(value)) => Ok(Some(*value)),
        Some(_) => {
            let mut text = "rope_scaling.".to_owned();
            text.append(key);
            text.append(" must be numeric");
            Err(LmError::Config(text))
        },
    }
}

/// A number under `key`, which has to be there.
fn required_float(config: &RopeScaling, key: &str) -> (r: Result<Single, LmError>)
    ensures
        match r {
            Ok(x) => {
                &&& config@.contains_key(key@)
                &&& config@[key@] == RopeScalingValue::Float(x)
                &&& required_fault(config@, key@) is None
            },
            Err(e) => Some(e@) == required_fault(config@, key@),
        },
{
    match optional_float(config, key) {
        Err(e) => Err(e),
        Ok(Some(x)) => Ok(x),
        Ok(None) => {
            let mut text = "rope_scaling.".to_owned();
            text.append(key);
            text.append(" is required for rope_type=\"yarn\"");
            Err(LmError::Config(text))
        },
    }
}

/// A number under `key`, or `default`.
fn float_or(config: &RopeScaling, key: &str, default: Single) -> (r: Result<Single, LmError>)
    ensures
        match r {
            Ok(x) => number_fault(config@, key@) is None && x == number_or(
                config@,
                key@,
                default,
            ),
            Err(e) => Some(e@) == number_fault(config@, key@),
        },
{
    match optional_float(config, key) {
        Err(e) => Err(e),
        Ok(Some(x)) => Ok(x),
        Ok(None) => Ok(default),
    }
}

/// Accepts a finite, positive number.
pub fn validate_positive(name: &str, value: Single) -> (r: Result<(), LmError>)
    ensures
        match r {
            Ok(_) => positive_fault(name@, value) is None,
            Err(e) => Some(e@) == positive_fault(name@, value),
        },
{
    if value.is_finite() && value.is_positive() {
        Ok(())
    } else {
        Err(LmError::NotPositive { name: name.to_owned(), value })
    }
}

/// Accepts a finite number.
pub fn validate_finite(name: &str, value: Single) -> (r: Result<(), LmError>)
    ensures
        match r {
            Ok(_) => finite_fault(name@, value) is None,
            Err(e) => Some(e@) == finite_fault(name@, value),
        },
{
    if value.is_finite() {
        Ok(())
    } else {
        Err(LmError::NotFinite { name: name.to_owned(), value })
    }
}

/// Accepts YaRN parameters with usable values.
fn validate_yarn(p: &YarnParameters) -> (r: Result<(), LmError>)
    ensures
        match r {
            Ok(_) => yarn_value_fault(*p) is None,
            Err(e) => Some(e@) == yarn_value_fault(*p),
        },
{
    if let Err(e) = validate_positive("rope_scaling.factor", p.factor) {
        return Err(e);
    }
    if let Err(e) = validate_positive(
        "rope_scaling.original_max_position_embeddings",
        p.original_max_position_embeddings,
    ) {
        return Err(e);
    }
    if let Err(e) = validate_positive("rope_scaling.beta_fast", p.beta_fast) {
        return Err(e);
    }
    if let Err(e) = validate_positive("rope_scaling.beta_slow", p.beta_slow) {
        return Err(e);
    }
    if let Err(e) = validate_finite("rope_scaling.mscale", p.mscale) {
        return Err(e);
    }
    validate_finite("rope_scaling.mscale_all_dim", p.mscale_all_dim)
}

/// The YaRN parameters of a table.
fn parse_yarn(config: &RopeScaling) -> (r: Result<YarnParameters, LmError>)
    ensures
        match r {
            Ok(p) => yarn_fault(config@) is None && p == yarn_parameters(config@),
            Err(e) => Some(e@) == yarn_fault(config@),
        },
{
    let factor = match required_float(config, "factor") {
        Ok(x) => x,
        Err(e) => return Err(e),
    };
    let original_max_position_embeddings = match required_float(
        config,
        "original_max_position_embeddings",
    ) {
        Ok(x) => x,
        Err(e) => return Err(e),
    };
    let beta_fast = match float_or(config, "beta_fast", Single { bits: DEFAULT_BETA_FAST }) {
        Ok(x) => x,
        Err(e) => return Err(e),
    };
    let beta_slow = match float_or(config, "beta_slow", Single { bits: DEFAULT_BETA_SLOW }) {
        Ok(x) => x,
        Err(e) => return Err(e),
    };
    let mscale = match float_or(config, "mscale", Single { bits: DEFAULT_MSCALE }) {
        Ok(x) => x,
        Err(e) => return Err(e),
    };
    let mscale_all_dim = match float_or(
        config,
        "mscale_all_dim",
        Single { bits: DEFAULT_MSCALE_ALL_DIM },
    ) {
        Ok(x) => x,
        Err(e) => return Err(e),
    };
    let parameters = YarnParameters {
        factor,
        original_max_position_embeddings,
        beta_fast,
        beta_slow,
        mscale,
        mscale_all_dim,
    };
    match validate_yarn(&parameters) {
        Ok(_) => Ok(parameters),
        Err(e) => Err(e),
    }
}

/// The scaling that a configuration asks for. Without a table, or without a
/// kind in it, positions are not scaled.
pub fn parse_scaling(rope_scaling: &Option<RopeScaling>) -> (r: Result<Scaling, LmError>)
    ensures
        match r {
            Ok(s) => scaling_of(*rope_scaling) == Ok::<Scaling, Fault>(s),
            Err(e) => scaling_of(*rope_scaling) == Err::<Scaling, Fault>(e@),
        },
{
    let config = match rope_scaling {
        Some(c) => c,
        None => return Ok(Scaling::Standard { divisor: Single { bits: ONE } }),
    };
    let named = match config.get("type") {
        Some(v) => Some(v),
        None => config.get("rope_type"),
    };
    let kind: &str = match named {
        Some(RopeScalingValue::String(s)) => s.as_str(),
        _ => "default",
    };
    if same(kind, "default") {
        Ok(Scaling::Standard { divisor: Single { bits: ONE } })
    } else if same(kind, "linear") {
        let divisor = match float_or(config, "factor", Single { bits: ONE }) {
            Ok(x) => x,
            Err(e) => return Err(e),
        };
        match validate_positive("rope_scaling.factor", divisor) {
            Ok(_) => Ok(Scaling::Standard { divisor }),
            Err(e) => Err(e),
        }
    } else if same(kind, "yarn") {
        match parse_yarn(config) {
            Ok(p) => Ok(Scaling::Yarn(p)),
            Err(e) => Err(e),
        }
    } else {
        Err(unsupported_kind(quote(kind).as_str()))
    }
}

/// The refusal of a kind of scaling, whose name is given between quotation
/// marks.
pub open spec fn unsupported(quoted_kind: Seq<char>) -> Fault {
    Fault::Config(
        "unsupported rope_type "@ + quoted_kind
            + " (only default, linear, and yarn are supported)"@,
    )
}

/// The refusal of a kind of scaling, whose name is given between quotation
/// marks.
pub fn unsupported_kind(quoted_kind: &str) -> (r: LmError)
    ensures
        r@ == unsupported(quoted_kind@),
{
    let mut text = "unsupported rope_type ".to_owned();
    text.append(quoted_kind);
    text.append(" (only default, linear, and yarn are supported)");
    LmError::Config(text)
}

/// What is wrong with the dimensions or the base of a rope.
pub open spec fn rope_fault(head_dim: int, rope_theta: Single) -> Option<Fault> {
    first(
        if head_dim > 0 {
            None
        } else {
            Some(Fault::HeadDim { dim: head_dim })
        },
        first(
            if head_dim % 2 == 0 {
                None
            } else {
                Some(Fault::Config("head_dim must be even for RoPE, got "@ + decimal(head_dim)))
            },
            positive_fault("rope_theta"@, rope_theta),
        ),
    )
}

/// The rope of a configuration, or what is wrong with it.
pub open spec fn rope_of(
    head_dim: i32,
    rope_theta: Single,
    rope_scaling: Option<RopeScaling>,
) -> Result<Rope, Fault> {
    let fault = rope_fault(head_dim as int, rope_theta);
    if fault is Some {
        Err(fault->0)
    } else {
        match scaling_of(rope_scaling) {
            Ok(scaling) => Ok(Rope { dims: head_dim, base: rope_theta, scaling }),
            Err(f) => Err(f),
        }
    }
}

/// The rope of a configuration, with default, linear or YaRN scaling.
pub fn build_rope(
    head_dim: i32,
    rope_theta: Single,
    rope_scaling: &Option<RopeScaling>,
) -> (r: Result<Rope, LmError>)
    ensures
        match r {
            Ok(rope) => rope_of(head_dim, rope_theta, *rope_scaling) == Ok::<Rope, Fault>(rope),
            Err(e) => rope_of(head_dim, rope_theta, *rope_scaling) == Err::<Rope, Fault>(e@),
        },
{
    if head_dim <= 0 {
        return Err(LmError::HeadDim { dim: head_dim });
    }
    if head_dim % 2 != 0 {
        let mut text = "head_dim must be even for RoPE, got ".to_owned();
        push_decimal(&mut text, head_dim as i64);
        return Err(LmError::Config(text));
    }
    if let Err(e) = validate_positive("rope_theta", rope_theta) {
        return Err(e);
    }
    match parse_scaling(rope_scaling) {
        Ok(scaling) => Ok(Rope { dims: head_dim, base: rope_theta, scaling }),
        Err(e) => Err(e),
    }
}

/// What is wrong with the shape of an input for YaRN.
pub open spec fn yarn_shape_fault(dims: i32, shape: Seq<i32>) -> Option<Fault> {
    if shape.len() == 0 {
        Some(Fault::Config("YaRN input must have at least one dimension"@))
    } else if dims > shape.last() {
        Some(
            Fault::Config(
                "YaRN rotary dimensions "@ + decimal(dims as int) + " exceed input dimension "@
                    + decimal(shape.last() as int),
            ),
        )
    } else {
        None
    }
}

/// The input `x` of YaRN with its rotated dimensions scaled by `mscale`. The
/// dimensions past them, up to `last_dim`, pass through.
pub open spec fn yarn_scaled(dims: i32, mscale: Single, x: Term, last_dim: i32) -> Term {
    if mscale.one() {
        x
    } else if dims == last_dim {
        x.scale(mscale)
    } else {
        x.range(0, dims).scale(mscale).concat(x.range(dims, last_dim))
    }
}

impl Rope {
    /// The rotated input, for an input of the given shape whose first position
    /// is `offset`; `mscale` is the attention scale of the rope.
    pub open spec fn rotated(self, shape: Seq<i32>, offset: i32, mscale: Single) -> Result<
        Term,
        Fault,
    > {
        match self.scaling {
            Scaling::Standard { divisor } => Ok(
                Term::Rope {
                    x: Box::new(Term::Input),
                    dims: self.dims,
                    base: self.base,
                    divisor,
                    offset,
                },
            ),
            Scaling::Yarn(_) => match yarn_shape_fault(self.dims, shape) {
                Some(fault) => Err(fault),
                None => Ok(
                    Term::RopeAlong {
                        x: Box::new(yarn_scaled(self.dims, mscale, Term::Input, shape.last())),
                        dims: self.dims,
                        offset,
                    },
                ),
            },
        }
    }

    /// The program that rotates an input of the given shape whose first position
    /// is `offset`; `mscale` is the attention scale that was computed for this
    /// rope.
    pub fn forward(&self, shape: &[i32], offset: i32, mscale: Single) -> (r: Result<Plan, LmError>)
        ensures
            realises(self.rotated(shape@, offset, mscale), r),
    {
        match self.scaling {
            Scaling::Standard { divisor } => {
                let mut plan = Plan::new();
                plan.push(
                    Step::Rope { x: 0, dims: self.dims, base: self.base, divisor, offset },
                );
                Ok(plan)
            },
            Scaling::Yarn(_) => yarn_forward(self.dims, mscale, shape, offset),
        }
    }
}

/// The program that applies YaRN to an input of the given shape.
fn yarn_forward(dims: i32, mscale: Single, shape: &[i32], offset: i32) -> (r: Result<Plan, LmError>)
    ensures
        match yarn_shape_fault(dims, shape@) {
            Some(fault) => r matches Err(e) && e@ == fault,
            None => r matches Ok(plan) && plan.computes(
                Term::RopeAlong {
                    x: Box::new(yarn_scaled(dims, mscale, Term::Input, shape@.last())),
                    dims,
                    offset,
                },
            ),
        },
{
    if shape.len() == 0 {
        return Err(LmError::Config("YaRN input must have at least one dimension".to_owned()));
    }
    let last_dim: i32 = shape[shape.len() - 1];
    if dims > last_dim {
        let mut text = "YaRN rotary dimensions ".to_owned();
        push_decimal(&mut text, dims as i64);
        text.append(" exceed input dimension ");
        push_decimal(&mut text, last_dim as i64);
        return Err(LmError::Config(text));
    }
    let mut plan = Plan::new();
    let scaled: usize = if mscale.is_one() {
        0
    } else if dims == last_dim {
        plan.push(Step::Scale { x: 0, by: mscale })
    } else {
        let rotary: usize = plan.push(Step::Range { x: 0, start: 0, end: dims });
        let rotary: usize = plan.push(Step::Scale { x: rotary, by: mscale });
        let pass_through: usize = plan.push(Step::Range { x: 0, start: dims, end: last_dim });
        plan.push(Step::Concat { x: rotary, y: pass_through })
    };
    plan.push(Step::RopeAlong { x: scaled, dims, offset });
    Ok(plan)
}

/// The dimensions between which YaRN passes from one frequency to the other:
/// the computed ones, kept within the rotated dimensions.
pub fn yarn_correction_range(low: i32, high: i32, dims: i32) -> (r: (i32, i32))
    requires
        dims > 0,
    ensures
        r.0 == (if low < 0 { 0 } else { low as int }),
        r.1 == (if high < dims - 1 { high as int } else { dims - 1 }),
{
    let first_dim: i32 = if low < 0 {
        0
    } else {
        low
    };
    let last_dim: i32 = if high < dims - 1 {
        high
    } else {
        dims - 1
    };
    (first_dim, last_dim)
}

/// The YaRN frequencies of a rope, as denominators: those of the base for the
/// dimensions below the range `from..to`, those stretched by `factor` above it,
/// and in between a mixture that a ramp over the range gives.
pub open spec fn yarn_frequencies_of(
    dims: i32,
    base: Single,
    factor: Single,
    from: i32,
    to: i32,
) -> Term {
    let one = Term::number(Literal::Single(Single { bits: ONE }));
    let extra = Term::number(Literal::Single(base)).to_the(
        Term::Arange { start: 0, stop: dims, step: 2 }.over(Term::number(Literal::Integer(dims))),
    );
    let inter = Term::number(Literal::Single(factor)).times(extra);
    let ramp = Term::Arange { start: 0, stop: (dims / 2) as i32, step: 1 }.minus(
        Term::number(Literal::Integer(from)),
    ).over(Term::number(Literal::Span { low: from, high: to, widened: from == to }));
    let mask = one.minus(ramp.clip_unit());
    inter.times(extra).over(inter.times(mask).plus(extra.times(one.minus(mask))))
}

/// The program that computes the YaRN frequencies. `range` comes from
/// `yarn_correction_range`; where it has no width of its own, the ramp is given
/// a small one.
pub fn yarn_frequencies(dims: i32, base: Single, factor: Single, range: (i32, i32)) -> (r: Plan)
    requires
        dims > 0,
    ensures
        r.computes(yarn_frequencies_of(dims, base, factor, range.0, range.1)),
{
    let (low, high): (i32, i32) = range;
    let widened = low == high;
    let mut plan = Plan::empty();
    let one: usize = plan.push(Step::Scalar { value: Literal::Single(Single { bits: ONE }) });

    let exponents: usize = plan.push(Step::Arange { start: 0, stop: dims, step: 2 });
    let dimensions: usize = plan.push(Step::Scalar { value: Literal::Integer(dims) });
    let exponents: usize = plan.push(Step::Divide { x: exponents, y: dimensions });
    let base: usize = plan.push(Step::Scalar { value: Literal::Single(base) });
    let extra: usize = plan.push(Step::Power { x: base, y: exponents });
    let factor: usize = plan.push(Step::Scalar { value: Literal::Single(factor) });
    let inter: usize = plan.push(Step::Multiply { x: factor, y: extra });

    let ramp: usize = plan.push(Step::Arange { start: 0, stop: dims / 2, step: 1 });
    let first_dim: usize = plan.push(Step::Scalar { value: Literal::Integer(low) });
    let ramp: usize = plan.push(Step::Subtract { x: ramp, y: first_dim });
    let width: usize = plan.push(Step::Scalar { value: Literal::Span { low, high, widened } });
    let ramp: usize = plan.push(Step::Divide { x: ramp, y: width });
    let ramp: usize = plan.push(Step::ClipUnit { x: ramp });
    let mask: usize = plan.push(Step::Subtract { x: one, y: ramp });

    let numerator: usize = plan.push(Step::Multiply { x: inter, y: extra });
    let masked: usize = plan.push(Step::Multiply { x: inter, y: mask });
    let unmasked: usize = plan.push(Step::Subtract { x: one, y: mask });
    let unmasked: usize = plan.push(Step::Multiply { x: extra, y: unmasked });
    let denominator: usize = plan.push(Step::Add { x: masked, y: unmasked });
    plan.push(Step::Divide { x: numerator, y: denominator });
    plan
}

/// Whether YaRN leaves the attention scale at one: it does unless the context
/// is stretched.
pub fn yarn_mscale_is_one(factor: Single) -> (r: bool)
    ensures
        r == factor.at_most_one(),
{
    factor.is_at_most_one()
}

/// A rope that was accepted has a positive, even number of dimensions, so that
/// they pair up, a usable base, and usable scaling parameters.
pub proof fn law_rope_is_usable(
    head_dim: i32,
    rope_theta: Single,
    rope_scaling: Option<RopeScaling>,
)
    requires
        rope_of(head_dim, rope_theta, rope_scaling) is Ok,
    ensures
        ({
            let rope = rope_of(head_dim, rope_theta, rope_scaling)->Ok_0;
            &&& rope.dims > 0
            &&& 2 * (rope.dims / 2) == rope.dims
            &&& rope.base.finite() && rope.base.positive()
            &&& match rope.scaling {
                Scaling::Standard { divisor } => divisor.finite() && divisor.positive(),
                Scaling::Yarn(p) => {
                    &&& p.factor.finite() && p.factor.positive()
                    &&& p.original_max_position_embeddings.finite()
                    &&& p.original_max_position_embeddings.positive()
                    &&& p.beta_fast.finite() && p.beta_fast.positive()
                    &&& p.beta_slow.finite() && p.beta_slow.positive()
                    &&& p.mscale.finite()
                    &&& p.mscale_all_dim.finite()
                },
            }
        }),
{
}

/// Without a table, and with one that names no kind, positions keep their scale.
pub proof fn law_default_scaling(table: RopeScaling)
    requires
        !table@.contains_key("type"@),
        !table@.contains_key("rope_type"@),
    ensures
        scaling_of(None) == Ok::<Scaling, Fault>(
            Scaling::Standard { divisor: Single { bits: ONE } },
        ),
        scaling_of(Some(table)) == scaling_of(None),
{
}

/// YaRN takes its context values from the table, or is refused.
pub proof fn law_yarn_needs_context_values(table: RopeScaling)
    requires
        rope_type(table@) == "yarn"@,
        !table@.contains_key("factor"@) || !table@.contains_key(
            "original_max_position_embeddings"@,
        ),
    ensures
        scaling_of(Some(table)) is Err,
{
    reveal_strlit("yarn");
    reveal_strlit("default");
    reveal_strlit("linear");
    assert("yarn"@.len() != "default"@.len());
    assert("yarn"@.len() != "linear"@.len());
}

/// Names of kinds of scaling differ from each other.
proof fn lemma_kinds_differ()
    ensures
        "default"@ != "linear"@,
        "default"@ != "yarn"@,
        "linear"@ != "yarn"@,
{
    reveal_strlit("yarn");
    reveal_strlit("default");
    reveal_strlit("linear");
    assert("yarn"@.len() == 4);
    assert("default"@.len() == 7);
    assert("linear"@.len() == 6);
}

/// What scaling a table asks for. The kind stands under `type`, or, where there is
/// no such entry, under `rope_type`; a table without a text there leaves positions
/// as they are. Linear scaling divides them by the factor of the table, or by one,
/// and takes finite positive factors only. YaRN takes its numbers from the table,
/// or their defaults. Another kind is refused.
pub proof fn law_scaling_is_that_of_the_table(table: RopeScaling)
    ensures
        ({
            let t = table@;
            let named = if t.contains_key("type"@) {
                Some(t["type"@])
            } else if t.contains_key("rope_type"@) {
                Some(t["rope_type"@])
            } else {
                None
            };
            let kind = match named {
                Some(RopeScalingValue::String(s)) => s@,
                _ => "default"@,
            };
            let r = scaling_of(Some(table));
            &&& kind == "default"@ ==> r == Ok::<Scaling, Fault>(
                Scaling::Standard { divisor: Single { bits: 0x3f80_0000 } },
            )
            &&& kind == "linear"@ && !t.contains_key("factor"@) ==> r == Ok::<Scaling, Fault>(
                Scaling::Standard { divisor: Single { bits: 0x3f80_0000 } },
            )
            &&& kind == "linear"@ && t.contains_key("factor"@) ==> match t["factor"@] {
                RopeScalingValue::Float(f) => if 0 < f.bits < 0x7f80_0000 {
                    r == Ok::<Scaling, Fault>(Scaling::Standard { divisor: f })
                } else {
                    r == Err::<Scaling, Fault>(
                        Fault::NotPositive { name: "rope_scaling.factor"@, value: f },
                    )
                },
                _ => r == Err::<Scaling, Fault>(
                    Fault::Config("rope_scaling.factor must be numeric"@),
                ),
            }
            &&& kind == "yarn"@ && r is Ok ==> r->Ok_0 is Yarn
            &&& kind != "default"@ && kind != "linear"@ && kind != "yarn"@ ==> r == Err::<
                Scaling,
                Fault,
            >(
                Fault::Config(
                    "unsupported rope_type "@ + quoted(kind)
                        + " (only default, linear, and yarn are supported)"@,
                ),
            )
        }),
{
    lemma_kinds_differ();
    reveal_strlit("rope_scaling.");
    reveal_strlit("factor");
    reveal_strlit(" must be numeric");
    reveal_strlit("rope_scaling.factor must be numeric");
    assert("rope_scaling."@ + "factor"@ + " must be numeric"@
        =~= "rope_scaling.factor must be numeric"@);
}

/// A YaRN table is accepted exactly if its numbers are there and usable: a factor
/// and a context length, finite and positive; where they are given, ramp bounds of
/// the same sort, and finite attention scales. Each parameter is then the number of
/// its name, or its default: 32, 1, 1 and 0, in this order.
pub proof fn law_yarn_reads_every_number(table: RopeScaling)
    requires
        rope_type(table@) == "yarn"@,
    ensures
        ({
            let t = table@;
            let positive = |key: Seq<char>|
                t[key] is Float && 0 < t[key]->Float_0.bits < 0x7f80_0000;
            let finite = |key: Seq<char>|
                t[key] is Float && t[key]->Float_0.bits as int % 0x8000_0000 < 0x7f80_0000;
            let has = |key: Seq<char>| t.contains_key(key);
            let or = |key: Seq<char>, bits: u32|
                if t.contains_key(key) {
                    t[key]
                } else {
                    RopeScalingValue::Float(Single { bits })
                };
            let r = scaling_of(Some(table));
            &&& r is Ok <==> {
                &&& has("factor"@) && positive("factor"@)
                &&& has("original_max_position_embeddings"@)
                &&& positive("original_max_position_embeddings"@)
                &&& has("beta_fast"@) ==> positive("beta_fast"@)
                &&& has("beta_slow"@) ==> positive("beta_slow"@)
                &&& has("mscale"@) ==> finite("mscale"@)
                &&& has("mscale_all_dim"@) ==> finite("mscale_all_dim"@)
            }
            &&& r matches Ok(Scaling::Yarn(p)) ==> {
                &&& RopeScalingValue::Float(p.factor) == t["factor"@]
                &&& RopeScalingValue::Float(p.original_max_position_embeddings)
                    == t["original_max_position_embeddings"@]
                &&& RopeScalingValue::Float(p.beta_fast) == or("beta_fast"@, 0x4200_0000)
                &&& RopeScalingValue::Float(p.beta_slow) == or("beta_slow"@, 0x3f80_0000)
                &&& RopeScalingValue::Float(p.mscale) == or("mscale"@, 0x3f80_0000)
                &&& RopeScalingValue::Float(p.mscale_all_dim) == or("mscale_all_dim"@, 0)
            }
            &&& r is Ok ==> r->Ok_0 is Yarn
        }),
{
    lemma_kinds_differ();
}

/// A YaRN table without a number that it needs is refused with the name of it, the
/// factor first; so is one with a text in place of a number.
pub proof fn law_yarn_refusal_names_the_number(table: RopeScaling)
    requires
        rope_type(table@) == "yarn"@,
    ensures
        ({
            let t = table@;
            let r = scaling_of(Some(table));
            let context = "original_max_position_embeddings"@;
            &&& !t.contains_key("factor"@) ==> r == Err::<Scaling, Fault>(
                Fault::Config("rope_scaling.factor is required for rope_type=\"yarn\""@),
            )
            &&& t.contains_key("factor"@) && t["factor"@] is String ==> r == Err::<Scaling, Fault>(
                Fault::Config("rope_scaling.factor must be numeric"@),
            )
            &&& t.contains_key("factor"@) && t["factor"@] is Float && !t.contains_key(context)
                ==> r == Err::<Scaling, Fault>(
                Fault::Config(
                    "rope_scaling.original_max_position_embeddings is required for rope_type=\"yarn\""@,
                ),
            )
        }),
{
    lemma_kinds_differ();
    reveal_strlit("rope_scaling.");
    reveal_strlit("factor");
    reveal_strlit("original_max_position_embeddings");
    reveal_strlit(" is required for rope_type=\"yarn\"");
    reveal_strlit(" must be numeric");
    reveal_strlit("rope_scaling.factor is required for rope_type=\"yarn\"");
    reveal_strlit("rope_scaling.factor must be numeric");
    reveal_strlit(
        "rope_scaling.original_max_position_embeddings is required for rope_type=\"yarn\"",
    );
    assert("rope_scaling."@ + "factor"@ + " is required for rope_type=\"yarn\""@
        =~= "rope_scaling.factor is required for rope_type=\"yarn\""@);
    assert("rope_scaling."@ + "factor"@ + " must be numeric"@
        =~= "rope_scaling.factor must be numeric"@);
    assert("rope_scaling."@ + "original_max_position_embeddings"@
        + " is required for rope_type=\"yarn\""@
        =~= "rope_scaling.original_max_position_embeddings is required for rope_type=\"yarn\""@);
}

/// A rope is built exactly if the head dimension is positive and even, the base
/// finite and positive, and the scaling usable. It turns all dimensions of a head,
/// with that base and that scaling.
pub proof fn law_rope_is_that_of_the_configuration(
    head_dim: i32,
    rope_theta: Single,
    rope_scaling: Option<RopeScaling>,
)
    ensures
        ({
            let r = rope_of(head_dim, rope_theta, rope_scaling);
            &&& r is Ok <==> {
                &&& head_dim > 0
                &&& head_dim % 2 == 0
                &&& 0 < rope_theta.bits < 0x7f80_0000
                &&& scaling_of(rope_scaling) is Ok
            }
            &&& r matches Ok(rope) ==> {
                &&& rope.dims == head_dim
                &&& rope.base == rope_theta
                &&& scaling_of(rope_scaling) == Ok::<Scaling, Fault>(rope.scaling)
            }
            &&& head_dim <= 0 ==> r == Err::<Rope, Fault>(Fault::HeadDim { dim: head_dim as int })
            &&& head_dim > 0 && head_dim % 2 == 0 && !(0 < rope_theta.bits < 0x7f80_0000)
                ==> r == Err::<Rope, Fault>(
                Fault::NotPositive { name: "rope_theta"@, value: rope_theta },
            )
        }),
{
}

/// A rope turns its input, from the given position on, with the base frequency of
/// the configuration and all dimensions of a head. Without a table, or with one
/// that asks for no scaling, positions are taken as they are; with one that asks
/// for linear scaling they are divided by its factor.
pub proof fn law_rope_divides_positions_by_the_factor(
    head_dim: i32,
    rope_theta: Single,
    rope_scaling: Option<RopeScaling>,
    shape: Seq<i32>,
    offset: i32,
    mscale: Single,
)
    requires
        rope_of(head_dim, rope_theta, rope_scaling) is Ok,
    ensures
        ({
            let rope = rope_of(head_dim, rope_theta, rope_scaling)->Ok_0;
            let turned = |divisor: Single|
                Ok::<Term, Fault>(
                    Term::Rope {
                        x: Box::new(Term::Input),
                        dims: head_dim,
                        base: rope_theta,
                        divisor,
                        offset,
                    },
                );
            let one = Single { bits: 0x3f80_0000 };
            match rope_scaling {
                None => rope.rotated(shape, offset, mscale) == turned(one),
                Some(table) => {
                    let t = table@;
                    let kind = if t.contains_key("type"@) {
                        t["type"@]
                    } else {
                        t["rope_type"@]
                    };
                    let is_kind = |name: Seq<char>|
                        (t.contains_key("type"@) || t.contains_key("rope_type"@))
                            && kind is String && kind->String_0@ == name;
                    &&& is_kind("default"@) || !t.contains_key("type"@) && !t.contains_key(
                        "rope_type"@,
                    ) ==> rope.rotated(shape, offset, mscale) == turned(one)
                    &&& is_kind("linear"@) && t.contains_key("factor"@) ==> {
                        &&& t["factor"@] is Float
                        &&& rope.rotated(shape, offset, mscale) == turned(t["factor"@]->Float_0)
                    }
                    &&& is_kind("linear"@) && !t.contains_key("factor"@) ==> rope.rotated(
                        shape,
                        offset,
                        mscale,
                    ) == turned(one)
                    &&& is_kind("yarn"@) ==> rope.scaling is Yarn
                },
            }
        }),
{
    lemma_kinds_differ();
}

/// Under YaRN an input is turned, from the given position on and in all dimensions
/// of the rope, with its own frequencies, after the attention scale was applied to
/// just these dimensions: an entry in one of them is multiplied by the scale, an
/// entry past them is as it was. This holds in any arithmetic in which to multiply
/// by one changes nothing. An input that has no axes, or is narrower than the rope,
/// is refused.
pub proof fn law_yarn_scales_what_it_turns<T>(
    m: Reading<T>,
    rope: Rope,
    shape: Seq<i32>,
    offset: i32,
    mscale: Single,
    i: int,
    j: int,
)
    requires
        rope.scaling is Yarn,
        rope.dims >= 0,
        shape.len() > 0 ==> m.columns == shape[shape.len() - 1] && 0 <= j < m.columns,
        forall|y: T| #[trigger]
            (m.numbers.times)(y, (m.numbers.single)(Single { bits: 0x3f80_0000 })) == y,
    ensures
        rope.rotated(shape, offset, mscale) is Err <==> shape.len() == 0 || shape[shape.len() - 1]
            < rope.dims,
        rope.rotated(shape, offset, mscale) matches Ok(t) ==> match t {
            Term::RopeAlong { x, dims, offset: from } => {
                &&& dims == rope.dims
                &&& from == offset
                &&& m.entry(*x, i, j) == (if j < rope.dims {
                    (m.numbers.times)((m.input)(i, j), (m.numbers.single)(mscale))
                } else {
                    (m.input)(i, j)
                })
            },
            _ => false,
        },
{
    if rope.rotated(shape, offset, mscale) is Ok {
        let n = m.numbers;
        let x = Term::Input;
        let last = shape.last();
        let turned = x.range(0, rope.dims);
        let rest = x.range(rope.dims, last);
        assert(m.entry(x, i, j) == (m.input)(i, j));
        assert(m.entry(x, i, 0 + j) == (m.input)(i, j));
        assert(m.entry(x.scale(mscale), i, j) == (n.times)(m.entry(x, i, j), (n.single)(mscale)));
        assert(m.width(turned) == rope.dims);
        assert(m.width(turned.scale(mscale)) == m.width(turned));
        assert(m.entry(turned.scale(mscale), i, j) == (n.times)(
            m.entry(turned, i, j),
            (n.single)(mscale),
        ));
        if j < rope.dims {
            assert(m.entry(turned, i, j) == (m.input)(i, j));
        } else {
            assert(m.entry(x, i, rope.dims + (j - rope.dims)) == (m.input)(i, j));
            assert(m.entry(rest, i, j - rope.dims) == (m.input)(i, j));
        }
        let both = turned.scale(mscale).concat(rest);
        assert(m.entry(both, i, j) == if j < m.width(turned.scale(mscale)) {
            m.entry(turned.scale(mscale), i, j)
        } else {
            m.entry(rest, i, j - m.width(turned.scale(mscale)))
        });
        if mscale.one() {
            assert(mscale == (Single { bits: 0x3f80_0000 }));
            assert((n.times)((m.input)(i, j), (n.single)(mscale)) == (m.input)(i, j));
        }
    }
}

/// The frequencies of YaRN, in any arithmetic. For the pair of dimensions `j`,
/// `extra` is the base to the power of `2 j / dims`, and `inter` that times the
/// factor. The ramp is the place of `j` between the bounds, kept between zero and
/// one; with `mask` for one less the ramp, the frequency is
/// `inter * extra / (inter * mask + extra * (1 - mask))`. Bounds that coincide
/// count as apart.
pub proof fn law_yarn_frequency_of_each_pair<T>(
    m: Reading<T>,
    dims: i32,
    base: Single,
    factor: Single,
    from: i32,
    to: i32,
    i: int,
    j: int,
)
    requires
        dims > 0,
        0 <= j < dims / 2,
    ensures
        ({
            let n = m.numbers;
            let one = (n.single)(Single { bits: 0x3f80_0000 });
            let extra = (n.power)(
                (n.single)(base),
                (n.over)((n.integer)(2 * j), (n.integer)(dims as int)),
            );
            let inter = (n.times)((n.single)(factor), extra);
            let ramp = (n.clip)(
                (n.over)(
                    (n.minus)((n.integer)(j), (n.integer)(from as int)),
                    (n.span)(from as int, to as int, from == to),
                ),
            );
            let mask = (n.minus)(one, ramp);
            m.entry(yarn_frequencies_of(dims, base, factor, from, to), i, j) == (n.over)(
                (n.times)(inter, extra),
                (n.plus)((n.times)(inter, mask), (n.times)(extra, (n.minus)(one, mask))),
            )
        }),
{
    let n = m.numbers;
    let one = Term::number(Literal::Single(Single { bits: ONE }));
    let b = Term::number(Literal::Single(base));
    let f = Term::number(Literal::Single(factor));
    let d = Term::number(Literal::Integer(dims));
    let all = Term::Arange { start: 0, stop: dims, step: 2 };
    let pairs = Term::Arange { start: 0, stop: (dims / 2) as i32, step: 1 };
    let low = Term::number(Literal::Integer(from));
    let width = Term::number(Literal::Span { low: from, high: to, widened: from == to });
    assert(m.entry(all, i, j) == (n.integer)(2 * j)) by {
        assert(0 + 2 * j == 2 * j);
    }
    assert(m.entry(pairs, i, j) == (n.integer)(j)) by {
        assert(0 + 1 * j == j);
    }
    assert(m.entry(one, i, j) == (n.single)(Single { bits: 0x3f80_0000 }));
    assert(m.entry(b, i, j) == (n.single)(base));
    assert(m.entry(f, i, j) == (n.single)(factor));
    assert(m.entry(d, i, j) == (n.integer)(dims as int));
    assert(m.entry(low, i, j) == (n.integer)(from as int));
    assert(m.entry(width, i, j) == (n.span)(from as int, to as int, from == to));
    let exponent = all.over(d);
    assert(m.entry(exponent, i, j) == (n.over)(m.entry(all, i, j), m.entry(d, i, j)));
    let extra = b.to_the(exponent);
    assert(m.entry(extra, i, j) == (n.power)(m.entry(b, i, j), m.entry(exponent, i, j)));
    let inter = f.times(extra);
    assert(m.entry(inter, i, j) == (n.times)(m.entry(f, i, j), m.entry(extra, i, j)));
    let place = pairs.minus(low);
    assert(m.entry(place, i, j) == (n.minus)(m.entry(pairs, i, j), m.entry(low, i, j)));
    let ramp = place.over(width);
    assert(m.entry(ramp, i, j) == (n.over)(m.entry(place, i, j), m.entry(width, i, j)));
    let clipped = ramp.clip_unit();
    assert(m.entry(clipped, i, j) == (n.clip)(m.entry(ramp, i, j)));
    let mask = one.minus(clipped);
    assert(m.entry(mask, i, j) == (n.minus)(m.entry(one, i, j), m.entry(clipped, i, j)));
    let above = inter.times(extra);
    assert(m.entry(above, i, j) == (n.times)(m.entry(inter, i, j), m.entry(extra, i, j)));
    let masked = inter.times(mask);
    assert(m.entry(masked, i, j) == (n.times)(m.entry(inter, i, j), m.entry(mask, i, j)));
    let rest = one.minus(mask);
    assert(m.entry(rest, i, j) == (n.minus)(m.entry(one, i, j), m.entry(mask, i, j)));
    let unmasked = extra.times(rest);
    assert(m.entry(unmasked, i, j) == (n.times)(m.entry(extra, i, j), m.entry(rest, i, j)));
    let below = masked.plus(unmasked);
    assert(m.entry(below, i, j) == (n.plus)(m.entry(masked, i, j), m.entry(unmasked, i, j)));
    assert(m.entry(above.over(below), i, j) == (n.over)(
        m.entry(above, i, j),
        m.entry(below, i, j),
    ));
}

/// YaRN leaves a pair of dimensions whose ramp is zero at the frequency of the
/// base, and stretches one whose ramp is one by the factor, in any arithmetic with
/// a zero and a one that follow the usual rules.
pub proof fn law_yarn_keeps_low_and_stretches_high_pairs<T>(
    m: Reading<T>,
    zero: T,
    dims: i32,
    base: Single,
    factor: Single,
    from: i32,
    to: i32,
    i: int,
    j: int,
)
    requires
        dims > 0,
        0 <= j < dims / 2,
        ({
            let n = m.numbers;
            let one = (n.single)(Single { bits: 0x3f80_0000 });
            &&& (n.minus)(one, zero) == one
            &&& (n.minus)(one, one) == zero
            &&& forall|x: T| #[trigger] (n.times)(x, one) == x
            &&& forall|x: T| #[trigger] (n.times)(x, zero) == zero
            &&& forall|x: T| #[trigger] (n.plus)(x, zero) == x
            &&& forall|x: T| #[trigger] (n.plus)(zero, x) == x
            &&& forall|x: T, y: T|
                x != zero && y != zero ==> (n.over)(#[trigger] (n.times)(x, y), x) == y && (n.over)(
                    (n.times)(x, y),
                    y,
                ) == x
        }),
        ({
            let n = m.numbers;
            let extra = (n.power)(
                (n.single)(base),
                (n.over)((n.integer)(2 * j), (n.integer)(dims as int)),
            );
            extra != zero && (n.times)((n.single)(factor), extra) != zero
        }),
    ensures
        ({
            let n = m.numbers;
            let one = (n.single)(Single { bits: 0x3f80_0000 });
            let extra = (n.power)(
                (n.single)(base),
                (n.over)((n.integer)(2 * j), (n.integer)(dims as int)),
            );
            let ramp = (n.clip)(
                (n.over)(
                    (n.minus)((n.integer)(j), (n.integer)(from as int)),
                    (n.span)(from as int, to as int, from == to),
                ),
            );
            let frequency = m.entry(yarn_frequencies_of(dims, base, factor, from, to), i, j);
            &&& ramp == zero ==> frequency == extra
            &&& ramp == one ==> frequency == (n.times)((n.single)(factor), extra)
        }),
{
    law_yarn_frequency_of_each_pair(m, dims, base, factor, from, to, i, j);
    let n = m.numbers;
    let one = (n.single)(Single { bits: 0x3f80_0000 });
    let extra = (n.power)(
        (n.single)(base),
        (n.over)((n.integer)(2 * j), (n.integer)(dims as int)),
    );
    let inter = (n.times)((n.single)(factor), extra);
    assert((n.times)(inter, one) == inter);
    assert((n.times)(extra, zero) == zero);
    assert((n.times)(inter, zero) == zero);
    assert((n.times)(extra, one) == extra);
    assert((n.plus)(inter, zero) == inter);
    assert((n.plus)(zero, extra) == extra);
    assert((n.over)((n.times)(inter, extra), inter) == extra);
}

/// The bounds of the ramp are the computed ones where these lie within the rotated
/// dimensions, and else the nearest end: the lower one is never below zero, the
/// upper one never beyond the last dimension.
pub proof fn law_ramp_bounds_stay_within_the_dimensions(
    low: i32,
    high: i32,
    dims: i32,
    r: (i32, i32),
)
    requires
        dims > 0,
        call_ensures(yarn_correction_range, (low, high, dims), r),
    ensures
        r.0 >= 0,
        r.0 >= low,
        r.0 == 0 || r.0 == low,
        r.1 <= dims - 1,
        r.1 <= high,
        r.1 == dims - 1 || r.1 == high,
{
}

/// What a rope does that was built and then applied: from the given position on it
/// turns all dimensions of a head with the base of the configuration. Without a
/// table positions are taken as they are; with one that names linear scaling and a
/// factor they are divided by that factor; with one that names YaRN the rope has
/// frequencies of its own.
pub proof fn law_applied_rope_follows_the_configuration(
    head_dim: i32,
    rope_theta: Single,
    rope_scaling: Option<RopeScaling>,
    rope: Rope,
    shape: &[i32],
    offset: i32,
    mscale: Single,
    plan: Plan,
)
    requires
        call_ensures(build_rope, (head_dim, rope_theta, &rope_scaling), Ok(rope)),
        call_ensures(Rope::forward, (&rope, shape, offset, mscale), Ok(plan)),
    ensures
        ({
            let turned = |divisor: Single|
                plan.term(plan.size() - 1) == Term::Rope {
                    x: Box::new(Term::Input),
                    dims: head_dim,
                    base: rope_theta,
                    divisor,
                    offset,
                };
            let names = |kind: Seq<char>|
                match rope_scaling {
                    Some(table) => {
                        let key = if table@.contains_key("type"@) {
                            "type"@
                        } else {
                            "rope_type"@
                        };
                        &&& table@.contains_key(key)
                        &&& table@[key] is String
                        &&& table@[key]->String_0@ == kind
                    },
                    None => false,
                };
            &&& rope_scaling is None ==> turned(Single { bits: 0x3f80_0000 })
            &&& names("default"@) ==> turned(Single { bits: 0x3f80_0000 })
            &&& names("linear"@) && rope_scaling->0@.contains_key("factor"@) ==> {
                &&& rope_scaling->0@["factor"@] is Float
                &&& turned(rope_scaling->0@["factor"@]->Float_0)
            }
            &&& names("linear"@) && !rope_scaling->0@.contains_key("factor"@) ==> turned(
                Single { bits: 0x3f80_0000 },
            )
            &&& names("yarn"@) ==> match plan.term(plan.size() - 1) {
                Term::RopeAlong { dims, offset: from, .. } => dims == head_dim && from == offset,
                _ => false,
            }
            &&& plan.appends().len() == 0
        }),
{
    lemma_kinds_differ();
    law_rope_divides_positions_by_the_factor(
        head_dim,
        rope_theta,
        rope_scaling,
        shape@,
        offset,
        mscale,
    );
}

/// The frequency program holds, for each pair of dimensions, the mixture of the
/// base frequency and the stretched one that the ramp gives, in any arithmetic.
pub proof fn law_frequency_program_mixes_by_the_ramp<T>(
    m: Reading<T>,
    dims: i32,
    base: Single,
    factor: Single,
    range: (i32, i32),
    plan: Plan,
    i: int,
    j: int,
)
    requires
        dims > 0,
        0 <= j < dims / 2,
        call_ensures(yarn_frequencies, (dims, base, factor, range), plan),
    ensures
        ({
            let n = m.numbers;
            let one = (n.single)(Single { bits: 0x3f80_0000 });
            let extra = (n.power)(
                (n.single)(base),
                (n.over)((n.integer)(2 * j), (n.integer)(dims as int)),
            );
            let inter = (n.times)((n.single)(factor), extra);
            let ramp = (n.clip)(
                (n.over)(
                    (n.minus)((n.integer)(j), (n.integer)(range.0 as int)),
                    (n.span)(range.0 as int, range.1 as int, range.0 == range.1),
                ),
            );
            let mask = (n.minus)(one, ramp);
            m.entry(plan.term(plan.size() - 1), i, j) == (n.over)(
                (n.times)(inter, extra),
                (n.plus)((n.times)(inter, mask), (n.times)(extra, (n.minus)(one, mask))),
            )
        }),
{
    law_yarn_frequency_of_each_pair(m, dims, base, factor, range.0, range.1, i, j);
}

/// A setting passes exactly if it is a finite number, and, where it must be, a
/// positive one; else the refusal carries its name and the number. The attention
/// scale is one unless the context is stretched.
pub proof fn law_settings_are_checked(
    name: &str,
    value: Single,
    positive: Result<(), LmError>,
    finite: Result<(), LmError>,
    unscaled: bool,
)
    requires
        call_ensures(validate_positive, (name, value), positive),
        call_ensures(validate_finite, (name, value), finite),
        call_ensures(yarn_mscale_is_one, (value,), unscaled),
    ensures
        match positive {
            Ok(_) => 0 < value.bits < 0x7f80_0000,
            Err(e) => {
                &&& !(0 < value.bits < 0x7f80_0000)
                &&& e@ == Fault::NotPositive { name: name@, value }
            },
        },
        match finite {
            Ok(_) => value.bits as int % 0x8000_0000 < 0x7f80_0000,
            Err(e) => {
                &&& value.bits as int % 0x8000_0000 >= 0x7f80_0000
                &&& e@ == Fault::NotFinite { name: name@, value }
            },
        },
        unscaled <==> value.bits <= 0x3f80_0000 || 0x8000_0000 <= value.bits <= 0xff80_0000,
{
}

/// Of a YaRN table whose entries are all numbers, the first that is not usable is
/// refused, by its name and with its value: the factor, the context length and the
/// ramp bounds if they are not finite and positive, then the attention scales if
/// they are not finite.
pub proof fn law_first_unusable_number_is_refused(table: RopeScaling)
    requires
        rope_type(table@) == "yarn"@,
        table@.contains_key("factor"@),
        table@.contains_key("original_max_position_embeddings"@),
        forall|key: Seq<char>|
            key == "factor"@ || key == "original_max_position_embeddings"@ || key == "beta_fast"@
                || key == "beta_slow"@ || key == "mscale"@ || key == "mscale_all_dim"@ ==> (
            #[trigger] table@.contains_key(key) ==> table@[key] is Float),
    ensures
        ({
            let t = table@;
            let usable = |key: Seq<char>|
                !t.contains_key(key) || 0 < t[key]->Float_0.bits < 0x7f80_0000;
            let finite = |key: Seq<char>|
                !t.contains_key(key) || t[key]->Float_0.bits as int % 0x8000_0000 < 0x7f80_0000;
            let positive_needed = |key: Seq<char>, name: Seq<char>|
                scaling_of(Some(table)) == Err::<Scaling, Fault>(
                    Fault::NotPositive { name, value: t[key]->Float_0 },
                );
            let finite_needed = |key: Seq<char>, name: Seq<char>|
                scaling_of(Some(table)) == Err::<Scaling, Fault>(
                    Fault::NotFinite { name, value: t[key]->Float_0 },
                );
            let context = "original_max_position_embeddings"@;
            if !usable("factor"@) {
                positive_needed("factor"@, "rope_scaling.factor"@)
            } else if !usable(context) {
                positive_needed(context, "rope_scaling.original_max_position_embeddings"@)
            } else if !usable("beta_fast"@) {
                positive_needed("beta_fast"@, "rope_scaling.beta_fast"@)
            } else if !usable("beta_slow"@) {
                positive_needed("beta_slow"@, "rope_scaling.beta_slow"@)
            } else if !finite("mscale"@) {
                finite_needed("mscale"@, "rope_scaling.mscale"@)
            } else if !finite("mscale_all_dim"@) {
                finite_needed("mscale_all_dim"@, "rope_scaling.mscale_all_dim"@)
            } else {
                scaling_of(Some(table)) is Ok
            }
        }),
{
    lemma_kinds_differ();
    let t = table@;
    assert(t.contains_key("beta_fast"@) ==> t["beta_fast"@] is Float);
    assert(t.contains_key("beta_slow"@) ==> t["beta_slow"@] is Float);
    assert(t.contains_key("mscale"@) ==> t["mscale"@] is Float);
    assert(t.contains_key("mscale_all_dim"@) ==> t["mscale_all_dim"@] is Float);
    assert(t["factor"@] is Float);
    assert(t["original_max_position_embeddings"@] is Float);
}

/// A text in place of a number is refused by name, wherever numbers are read; an odd
/// head dimension, and an input that is too narrow for YaRN, are refused with what
/// they are.
pub proof fn law_refusals_say_what_was_given(
    table: RopeScaling,
    key: Seq<char>,
    head_dim: i32,
    rope_theta: Single,
    rope: Rope,
    shape: Seq<i32>,
    offset: i32,
    mscale: Single,
)
    ensures
        number_fault(table@, key) == (if table@.contains_key(key) && table@[key] is String {
            Some(Fault::Config("rope_scaling."@ + key + " must be numeric"@))
        } else {
            None
        }),
        head_dim > 0 && head_dim % 2 != 0 ==> rope_of(head_dim, rope_theta, Some(table)) == Err::<
            Rope,
            Fault,
        >(Fault::Config("head_dim must be even for RoPE, got "@ + decimal(head_dim as int))),
        rope.scaling is Yarn && shape.len() == 0 ==> rope.rotated(shape, offset, mscale) == Err::<
            Term,
            Fault,
        >(Fault::Config("YaRN input must have at least one dimension"@)),
        rope.scaling is Yarn && shape.len() > 0 && shape[shape.len() - 1] < rope.dims
            ==> rope.rotated(shape, offset, mscale) == Err::<Term, Fault>(
            Fault::Config(
                "YaRN rotary dimensions "@ + decimal(rope.dims as int) + " exceed input dimension "@
                    + decimal(shape[shape.len() - 1] as int),
            ),
        ),
{
}

/// Of a YaRN table, how its entries are written is looked at before what they are:
/// the first text in place of a number is refused by its name, whatever the numbers
/// are.
pub proof fn law_first_text_is_refused(table: RopeScaling)
    requires
        rope_type(table@) == "yarn"@,
        table@.contains_key("factor"@),
        table@["factor"@] is Float,
        table@.contains_key("original_max_position_embeddings"@),
    ensures
        ({
            let t = table@;
            let text = |key: Seq<char>| t.contains_key(key) && t[key] is String;
            let numeric_needed = |key: Seq<char>|
                scaling_of(Some(table)) == Err::<Scaling, Fault>(
                    Fault::Config("rope_scaling."@ + key + " must be numeric"@),
                );
            if text("original_max_position_embeddings"@) {
                numeric_needed("original_max_position_embeddings"@)
            } else if text("beta_fast"@) {
                numeric_needed("beta_fast"@)
            } else if text("beta_slow"@) {
                numeric_needed("beta_slow"@)
            } else if text("mscale"@) {
                numeric_needed("mscale"@)
            } else {
                text("mscale_all_dim"@) ==> numeric_needed("mscale_all_dim"@)
            }
        }),
{
    lemma_kinds_differ();
}

} // verus!
