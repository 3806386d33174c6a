//! Choosing the next token.

use crate::error::{Fault, LmError};
use crate::meaning::Reading;
use crate::plan::{extended_by, realises, Literal, Plan, Step, Term};
use crate::single::{Single, ONE, ZERO};
use std::collections::HashSet;
use vstd::prelude::*;

verus! {

broadcast use vstd::std_specs::hash::group_hash_axioms;

/// The factor for token `id`: the penalty if it was generated before, else one.
pub open spec fn factor(penalty: Single, generated: Set<u32>, id: int) -> Single {
    if id <= u32::MAX && generated.contains(id as u32) {
        penalty
    } else {
        Single { bits: ONE }
    }
}

/// The factors of all tokens of a vocabulary.
pub open spec fn factors_of(vocab_size: nat, penalty: Single, generated: Set<u32>) -> Seq<Single> {
    Seq::new(vocab_size, |id: int| factor(penalty, generated, id))
}

/// Whether repetition is penalised: not by a factor of one, and not before
/// anything was generated.
pub open spec fn penalises(rep_penalty: Single, generated: Set<u32>) -> bool {
    !rep_penalty.one() && generated != Set::<u32>::empty()
}

/// The logits `x` with repeated tokens penalised: negative ones are multiplied
/// by the factor of their token, the others divided.
pub open spec fn penalised(x: Term, vocab_size: i32, penalty: Single, generated: Set<u32>) -> Term {
    let factors = Term::Constant {
        values: factors_of(vocab_size as nat, penalty, generated),
        shape: seq![1, vocab_size],
    };
    let zero = Term::number(Literal::Single(Single { bits: ZERO }));
    x.times(factors).where_or(x.less_than(zero), x.over(factors))
}

/// The token that is chosen from the logits `x`: at temperature zero the most
/// likely one, else a random one with the logits divided by the temperature.
pub open spec fn drawn(x: Term, temp: Single) -> Term {
    if temp.zero() {
        x.arg_max()
    } else {
        x.over(Term::number(Literal::Single(temp))).categorical()
    }
}

/// The tokens that are chosen from the logits `x`, whose shape is `shape`, or what
/// is wrong with the temperature.
pub open spec fn sampled(
    x: Term,
    shape: Seq<i32>,
    temp: Single,
    rep_penalty: Single,
    generated: Set<u32>,
) -> Result<Term, Fault> {
    match temperature_fault(temp) {
        Some(fault) => Err(fault),
        None => Ok(
            drawn(
                if penalises(rep_penalty, generated) {
                    penalised(x, shape[1], rep_penalty, generated)
                } else {
                    x
                },
                temp,
            ),
        ),
    }
}

/// What is wrong with a temperature.
pub open spec fn temperature_fault(temp: Single) -> Option<Fault> {
    if temp.zero() || temp.finite() && temp.positive() {
        None
    } else {
        Some(Fault::Temperature { value: temp })
    }
}

/// The program that chooses one token per row from logits of the given shape: a
/// row for each batch entry, with a column for each token. `temp` is zero for
/// the most likely token, or a finite positive temperature; others are refused.
pub fn sample(
    logits: &[i32],
    temp: Single,
    rep_penalty: Single,
    generated_ids: &HashSet<u32>,
) -> (r: Result<Plan, LmError>)
    requires
        penalises(rep_penalty, generated_ids@) ==> logits@.len() >= 2 && logits@[1] >= 0,
    ensures
        realises(sampled(Term::Input, logits@, temp, rep_penalty, generated_ids@), r),
{
    let mut plan = Plan::new();
    match sample_from(&mut plan, 0, logits, temp, rep_penalty, generated_ids) {
        Ok(_) => Ok(plan),
        Err(e) => Err(e),
    }
}

/// Lays down the choice of tokens from result `x`.
pub(crate) fn sample_from(
    plan: &mut Plan,
    x: usize,
    logits: &[i32],
    temp: Single,
    rep_penalty: Single,
    generated_ids: &HashSet<u32>,
) -> (r: Result<usize, LmError>)
    requires
        old(plan).wf(),
        x < old(plan).size(),
        penalises(rep_penalty, generated_ids@) ==> logits@.len() >= 2 && logits@[1] >= 0,
    ensures
        ({
            let of = sampled(
                old(plan).term(x as int),
                logits@,
                temp,
                rep_penalty,
                generated_ids@,
            );
            match r {
                Ok(at) => {
                    &&& of is Ok
                    &&& extended_by(*old(plan), *final(plan), at, of->Ok_0)
                    &&& final(plan).appends() == old(plan).appends()
                },
                Err(e) => of == Err::<Term, Fault>(e@),
            }
        }),
{
    if !(temp.is_zero() || temp.is_finite() && temp.is_positive()) {
        return Err(LmError::Temperature { value: temp });
    }
    if !rep_penalty.is_one() && !generated_ids.is_empty() {
        let adjusted: usize = apply_rep_penalty(plan, x, logits[1], rep_penalty, generated_ids);
        Ok(finish_sample(plan, adjusted, temp))
    } else {
        Ok(finish_sample(plan, x, temp))
    }
}

/// The factor of each token: `penalty` for those that were generated before.
fn penalty_factors(vocab_size: usize, penalty: Single, generated_ids: &HashSet<u32>) -> (r: Vec<
    Single,
>)
    ensures
        r@ == factors_of(vocab_size as nat, penalty, generated_ids@),
{
    let one = Single { bits: ONE };
    let mut factors: Vec<Single> = vec![one; vocab_size];
    let ghost mut seen: Set<u32> = Set::empty();
    for id in it: generated_ids.iter()
        invariant
            it.seq().unref().to_set() == generated_ids@,
            forall|x: u32|
                seen.contains(x) <==> exists|k: int|
                    0 <= k < it.index() && *#[trigger] it.seq()[k] == x,
            it.index() == it.seq().len() ==> seen =~= generated_ids@,
            factors@ =~= factors_of(vocab_size as nat, penalty, seen),
    {
        let idx: usize = *id as usize;
        if idx < vocab_size {
            factors.set(idx, penalty);
        }
        proof {
            let all = it.seq();
            assert forall|x: u32| generated_ids@.contains(x) implies exists|k: int|
                0 <= k < all.len() && *#[trigger] all[k] == x by {
                let k = choose|k: int| 0 <= k < all.unref().len() && all.unref()[k] == x;
                assert(*all[k] == x);
            }
            assert forall|k: int| 0 <= k < all.len() implies generated_ids@.contains(
                *#[trigger] all[k],
            ) by {
                assert(all.unref()[k] == *all[k]);
            }
            seen = seen.insert(*id);
        }
    }
    factors
}

/// Lays down the penalty on repeated tokens for the logits of result `x`.
fn apply_rep_penalty(
    plan: &mut Plan,
    x: usize,
    vocab_size: i32,
    penalty: Single,
    generated_ids: &HashSet<u32>,
) -> (r: usize)
    requires
        old(plan).wf(),
        x < old(plan).size(),
        vocab_size >= 0,
    ensures
        extended_by(
            *old(plan),
            *final(plan),
            r,
            penalised(old(plan).term(x as int), vocab_size, penalty, generated_ids@),
        ),
        final(plan).appends() == old(plan).appends(),
{
    let values = penalty_factors(vocab_size as usize, penalty, generated_ids);
    let factors: usize = plan.push(Step::Constant { values, shape: vec![1, vocab_size] });
    let zero: usize = plan.push(Step::Scalar { value: Literal::Single(Single { bits: ZERO }) });
    let negative: usize = plan.push(Step::Less { x, y: zero });
    let multiplied: usize = plan.push(Step::Multiply { x, y: factors });
    let divided: usize = plan.push(Step::Divide { x, y: factors });
    plan.push(Step::Select { when: negative, x: multiplied, y: divided })
}

/// Lays down the choice at temperature `temp`.
fn finish_sample(plan: &mut Plan, x: usize, temp: Single) -> (r: usize)
    requires
        old(plan).wf(),
        x < old(plan).size(),
    ensures
        extended_by(*old(plan), *final(plan), r, drawn(old(plan).term(x as int), temp)),
        final(plan).appends() == old(plan).appends(),
{
    if temp.is_zero() {
        plan.push(Step::ArgMax { x })
    } else {
        let divisor: usize = plan.push(Step::Scalar { value: Literal::Single(temp) });
        let divided: usize = plan.push(Step::Divide { x, y: divisor });
        plan.push(Step::Categorical { x: divided })
    }
}

/// A temperature that is neither zero nor finite and positive is refused, whatever
/// the penalty and the history are; every other is taken.
pub proof fn law_bad_temperature_is_refused(
    x: Term,
    shape: Seq<i32>,
    temp: Single,
    rep_penalty: Single,
    generated: Set<u32>,
)
    ensures
        sampled(x, shape, temp, rep_penalty, generated) is Err <==> !(temp.zero() || temp.finite()
            && temp.positive()),
{
}

/// A penalty of one, and any penalty before the first token, change nothing.
pub proof fn law_unit_penalty_is_no_op(rep_penalty: Single, generated: Set<u32>)
    ensures
        rep_penalty.one() ==> !penalises(rep_penalty, generated),
        !penalises(rep_penalty, Set::<u32>::empty()),
        rep_penalty.one() ==> forall|id: int| factor(rep_penalty, generated, id) == (Single {
            bits: ONE,
        }),
{
    assert forall|id: int| rep_penalty.one() implies factor(rep_penalty, generated, id) == (Single {
        bits: ONE,
    }) by {
        assert(rep_penalty.bits == ONE);
    }
}

/// The token is chosen from logits that are penalised, and then divided by the
/// temperature. In any row, the logit `x` of a token that was generated before
/// counts as `x` times the penalty where it is negative, and as `x` over the
/// penalty where it is not; that of any other token counts as it is. At
/// temperature zero, of either sign, the largest of these is taken; at any other,
/// a token is drawn with these over the temperature as logits. This holds in any
/// arithmetic in which to multiply or divide by one changes nothing.
pub proof fn law_token_is_chosen_from_penalised_logits<T>(
    m: Reading<T>,
    x: Term,
    shape: Seq<i32>,
    temp: Single,
    rep_penalty: Single,
    generated: Set<u32>,
    row: int,
    id: int,
)
    requires
        shape.len() == 2,
        0 <= id < shape[1],
        sampled(x, shape, temp, rep_penalty, generated) is Ok,
        forall|y: T| #[trigger]
            (m.numbers.times)(y, (m.numbers.single)(Single { bits: 0x3f80_0000 })) == y,
        forall|y: T| #[trigger]
            (m.numbers.over)(y, (m.numbers.single)(Single { bits: 0x3f80_0000 })) == y,
    ensures
        ({
            let n = m.numbers;
            let logit = m.entry(x, row, id);
            let penalty = (n.single)(rep_penalty);
            let counted = if generated.contains(id as u32) {
                if (n.less)(logit, (n.single)(Single { bits: 0 })) {
                    (n.times)(logit, penalty)
                } else {
                    (n.over)(logit, penalty)
                }
            } else {
                logit
            };
            match sampled(x, shape, temp, rep_penalty, generated)->Ok_0 {
                Term::ArgMax { x: y } => {
                    &&& temp.bits == 0 || temp.bits == 0x8000_0000
                    &&& m.entry(*y, row, id) == counted
                },
                Term::Categorical { x: y } => {
                    &&& temp.bits != 0 && temp.bits != 0x8000_0000
                    &&& m.entry(*y, row, id) == (n.over)(counted, (n.single)(temp))
                },
                _ => false,
            }
        }),
{
    let n = m.numbers;
    let zero = Term::number(Literal::Single(Single { bits: ZERO }));
    let factors = Term::Constant {
        values: factors_of(shape[1] as nat, rep_penalty, generated),
        shape: seq![1, shape[1]],
    };
    let divisor = Term::number(Literal::Single(temp));
    let y = if penalises(rep_penalty, generated) {
        penalised(x, shape[1], rep_penalty, generated)
    } else {
        x
    };
    assert(m.entry(zero, row, id) == (n.single)(Single { bits: 0 }));
    assert(m.entry(factors, row, id) == (n.single)(factor(rep_penalty, generated, id)));
    assert(m.entry(divisor, row, id) == (n.single)(temp));
    let up = x.times(factors);
    let down = x.over(factors);
    assert(m.entry(up, row, id) == (n.times)(m.entry(x, row, id), m.entry(factors, row, id)));
    assert(m.entry(down, row, id) == (n.over)(m.entry(x, row, id), m.entry(factors, row, id)));
    assert(m.holds(x.less_than(zero), row, id) == (n.less)(
        m.entry(x, row, id),
        m.entry(zero, row, id),
    ));
    assert(m.entry(up.where_or(x.less_than(zero), down), row, id) == if m.holds(
        x.less_than(zero),
        row,
        id,
    ) {
        m.entry(up, row, id)
    } else {
        m.entry(down, row, id)
    });
    assert(m.entry(y.over(divisor), row, id) == (n.over)(m.entry(y, row, id), (n.single)(temp)));
    if rep_penalty.one() {
        assert(rep_penalty == (Single { bits: 0x3f80_0000 }));
        assert((n.times)(m.entry(x, row, id), (n.single)(rep_penalty)) == m.entry(x, row, id));
        assert((n.over)(m.entry(x, row, id), (n.single)(rep_penalty)) == m.entry(x, row, id));
    }
    if !generated.contains(id as u32) {
        assert((n.times)(m.entry(x, row, id), (n.single)(Single { bits: 0x3f80_0000 })) == m.entry(
            x,
            row,
            id,
        ));
        assert((n.over)(m.entry(x, row, id), (n.single)(Single { bits: 0x3f80_0000 })) == m.entry(
            x,
            row,
            id,
        ));
    }
}

/// A choice of tokens is refused exactly where the temperature is neither zero nor
/// a finite positive number, and the refusal carries it.
pub proof fn law_refusal_carries_the_temperature(
    x: Term,
    shape: Seq<i32>,
    temp: Single,
    rep_penalty: Single,
    generated: Set<u32>,
)
    ensures
        match sampled(x, shape, temp, rep_penalty, generated) {
            Ok(_) => temp.bits == 0x8000_0000 || temp.bits < 0x7f80_0000,
            Err(fault) => {
                &&& fault == Fault::Temperature { value: temp }
                &&& temp.bits != 0x8000_0000
                &&& temp.bits >= 0x7f80_0000
            },
        },
{
}

/// What a program that `sample` gives chooses from, token by token: see
/// `law_token_is_chosen_from_penalised_logits`. It appends to no cache. There is no
/// program exactly where the temperature is neither zero nor finite and positive.
pub proof fn law_sample_chooses_from_penalised_logits<T>(
    m: Reading<T>,
    shape: &[i32],
    temp: Single,
    rep_penalty: Single,
    generated_ids: &HashSet<u32>,
    r: Result<Plan, LmError>,
    row: int,
    id: int,
)
    requires
        shape@.len() == 2,
        0 <= id < shape@[1],
        call_ensures(sample, (shape, temp, rep_penalty, generated_ids), r),
        forall|y: T| #[trigger]
            (m.numbers.times)(y, (m.numbers.single)(Single { bits: 0x3f80_0000 })) == y,
        forall|y: T| #[trigger]
            (m.numbers.over)(y, (m.numbers.single)(Single { bits: 0x3f80_0000 })) == y,
    ensures
        r is Ok <==> temp.bits == 0x8000_0000 || temp.bits < 0x7f80_0000,
        r matches Err(e) ==> e@ == (Fault::Temperature { value: temp }),
        r matches Ok(plan) ==> {
            let n = m.numbers;
            let logit = (m.input)(row, id);
            let penalty = (n.single)(rep_penalty);
            let counted = if generated_ids@.contains(id as u32) {
                if (n.less)(logit, (n.single)(Single { bits: 0 })) {
                    (n.times)(logit, penalty)
                } else {
                    (n.over)(logit, penalty)
                }
            } else {
                logit
            };
            &&& plan.appends().len() == 0
            &&& match plan.term(plan.size() - 1) {
                Term::ArgMax { x } => {
                    &&& temp.bits == 0 || temp.bits == 0x8000_0000
                    &&& m.entry(*x, row, id) == counted
                },
                Term::Categorical { x } => {
                    &&& temp.bits != 0 && temp.bits != 0x8000_0000
                    &&& m.entry(*x, row, id) == (n.over)(counted, (n.single)(temp))
                },
                _ => false,
            }
        },
{
    let ids = generated_ids@;
    law_refusal_carries_the_temperature(Term::Input, shape@, temp, rep_penalty, ids);
    if r is Ok {
        assert(m.entry(Term::Input, row, id) == (m.input)(row, id));
        law_token_is_chosen_from_penalised_logits(
            m,
            Term::Input,
            shape@,
            temp,
            rep_penalty,
            ids,
            row,
            id,
        );
    }
}

} // verus!
