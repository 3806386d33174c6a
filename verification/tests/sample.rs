use mlx_lm::error::LmError;
use mlx_lm::plan::{Literal, Plan, Step};
use mlx_lm::sample::sample;
use mlx_lm::single::Single;
use std::collections::HashSet;

fn single(x: f32) -> Single {
    Single { bits: x.to_bits() }
}

/// What the program makes of one row of logits; a random draw is left to the
/// caller, as the scaled logits.
enum Outcome {
    Token(usize),
    Drawn(Vec<f32>),
}

fn run(plan: &Plan, logits: &[f32]) -> Outcome {
    let mut results: Vec<Vec<f32>> = Vec::new();
    let at = |v: &Vec<f32>, i: usize| if v.len() == 1 { v[0] } else { v[i] };
    for step in &plan.steps {
        let both = |x: &usize, y: &usize, f: fn(f32, f32) -> f32| -> Vec<f32> {
            let (x, y) = (&results[*x], &results[*y]);
            let n = x.len().max(y.len());
            (0..n).map(|i| f(at(x, i), at(y, i))).collect()
        };
        let next = match step {
            Step::Input => logits.to_vec(),
            Step::Scalar {
                value: Literal::Single(s),
            } => vec![f32::from_bits(s.bits)],
            Step::Constant { values, shape } => {
                assert_eq!(shape, &[1, values.len() as i32]);
                values.iter().map(|s| f32::from_bits(s.bits)).collect()
            }
            Step::Multiply { x, y } => both(x, y, |a, b| a * b),
            Step::Divide { x, y } => both(x, y, |a, b| a / b),
            Step::Less { x, y } => both(x, y, |a, b| if a < b { 1.0 } else { 0.0 }),
            Step::Select { when, x, y } => (0..logits.len())
                .map(|i| {
                    let chosen = if results[*when][i] == 1.0 { x } else { y };
                    results[*chosen][i]
                })
                .collect(),
            Step::ArgMax { x } => {
                let row = &results[*x];
                let best = (0..row.len()).fold(0, |b, i| if row[i] > row[b] { i } else { b });
                return Outcome::Token(best);
            }
            Step::Categorical { x } => return Outcome::Drawn(results[*x].clone()),
            other => panic!("unexpected step {other:?}"),
        };
        results.push(next);
    }
    panic!("the program chooses no token");
}

fn token(plan: &Plan, logits: &[f32]) -> usize {
    match run(plan, logits) {
        Outcome::Token(t) => t,
        Outcome::Drawn(_) => panic!("the draw is random"),
    }
}

fn scaled(plan: &Plan, logits: &[f32]) -> Vec<f32> {
    match run(plan, logits) {
        Outcome::Token(_) => panic!("the draw is greedy"),
        Outcome::Drawn(row) => row,
    }
}

#[test]
fn zero_temperature_is_greedy() {
    for temp in [0.0f32, -0.0] {
        let plan = sample(&[1, 4], single(temp), single(1.0), &HashSet::new()).unwrap();
        assert_eq!(token(&plan, &[0.5, -1.0, 2.0, 1.0]), 2);
    }
}

#[test]
fn a_positive_temperature_draws_at_random() {
    let plan = sample(&[1, 3], single(0.5), single(1.0), &HashSet::from([1])).unwrap();
    assert_eq!(scaled(&plan, &[1.0, -2.0, 0.25]), [2.0, -4.0, 0.5]);
}

#[test]
fn other_temperatures_are_refused() {
    for temp in [-1.0f32, f32::NAN, f32::INFINITY] {
        for (penalty, ids) in [(1.0, HashSet::new()), (1.3, HashSet::from([1u32]))] {
            let error = sample(&[1, 4], single(temp), single(penalty), &ids).unwrap_err();
            assert!(matches!(error, LmError::Temperature { value } if value == single(temp)));
            assert_eq!(
                error.message("-1", ""),
                "temperature must be 0.0 or a finite positive value, got -1"
            );
        }
    }
}

#[test]
fn repeated_tokens_are_discouraged() {
    let ids = HashSet::from([0u32, 3, 99]);
    let plan = sample(&[1, 5], single(1.0), single(2.0), &ids).unwrap();
    assert_eq!(
        scaled(&plan, &[4.0, 3.0, -1.0, -1.0, 0.0]),
        [2.0, 3.0, -1.0, -2.0, 0.0]
    );
    let greedy = sample(&[1, 5], single(0.0), single(2.0), &ids).unwrap();
    assert_eq!(token(&greedy, &[4.0, 3.0, -1.0, -1.0, 0.0]), 1);
}

#[test]
fn a_penalty_of_one_or_an_empty_history_changes_nothing() {
    let plain = sample(&[1, 3], single(1.0), single(1.0), &HashSet::new()).unwrap();
    let unit = sample(&[1, 3], single(1.0), single(1.0), &HashSet::from([1])).unwrap();
    let first = sample(&[1, 3], single(1.0), single(1.3), &HashSet::new()).unwrap();
    let shown = format!("{plain:?}");
    assert_eq!(format!("{unit:?}"), shown);
    assert_eq!(format!("{first:?}"), shown);
}
