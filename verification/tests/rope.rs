use mlx_lm::config::{RopeScaling, RopeScalingValue};
use mlx_lm::error::LmError;
use mlx_lm::models::rope::{
    build_rope, parse_scaling, unsupported_kind, validate_finite, validate_positive,
    yarn_correction_range, yarn_frequencies, yarn_mscale_is_one, Rope, Scaling, YarnParameters,
    DEFAULT_BETA_FAST, DEFAULT_BETA_SLOW, DEFAULT_MSCALE, DEFAULT_MSCALE_ALL_DIM,
};
use mlx_lm::plan::{Literal, Plan, Step};
use mlx_lm::single::Single;

fn single(x: f32) -> Single {
    Single { bits: x.to_bits() }
}

fn float(x: f32) -> RopeScalingValue {
    RopeScalingValue::Float(single(x))
}

fn text(s: &str) -> RopeScalingValue {
    RopeScalingValue::String(s.to_string())
}

fn table(pairs: Vec<(&str, RopeScalingValue)>) -> Option<RopeScaling> {
    Some(RopeScaling::from_pairs(
        pairs.into_iter().map(|(k, v)| (k.to_string(), v)).collect(),
    ))
}

fn message(result: Result<Scaling, LmError>) -> String {
    result.unwrap_err().message("", "")
}

fn yarn_parameters() -> YarnParameters {
    YarnParameters {
        factor: single(4.0),
        original_max_position_embeddings: single(32_768.0),
        beta_fast: Single {
            bits: DEFAULT_BETA_FAST,
        },
        beta_slow: Single {
            bits: DEFAULT_BETA_SLOW,
        },
        mscale: Single {
            bits: DEFAULT_MSCALE,
        },
        mscale_all_dim: Single {
            bits: DEFAULT_MSCALE_ALL_DIM,
        },
    }
}

fn value(x: Single) -> f32 {
    f32::from_bits(x.bits)
}

fn correction_dim(rotations: Single, dims: i32, base: f32, p: &YarnParameters) -> f32 {
    let context = value(p.original_max_position_embeddings);
    dims as f32 * (context / (value(rotations) * std::f32::consts::TAU)).ln() / (2.0 * base.ln())
}

fn get_mscale(scale: f32, mscale: f32) -> f32 {
    if yarn_mscale_is_one(single(scale)) {
        1.0
    } else {
        0.1 * mscale * scale.ln() + 1.0
    }
}

#[test]
fn yarn_matches_python_correction_range() {
    let p = yarn_parameters();
    let low = correction_dim(p.beta_fast, 128, 1_000_000.0, &p).floor() as i32;
    let high = correction_dim(p.beta_slow, 128, 1_000_000.0, &p).ceil() as i32;
    assert_eq!(yarn_correction_range(low, high, 128), (23, 40));
}

#[test]
fn yarn_matches_python_mscale() {
    let p = yarn_parameters();
    let mscale = get_mscale(value(p.factor), value(p.mscale))
        / get_mscale(value(p.factor), value(p.mscale_all_dim));
    let expected: f32 = 1.138_629_4;
    let tolerance = expected.abs().max(1.0) * 1.0e-6;
    assert!((mscale - expected).abs() <= tolerance);
}

#[test]
fn default_and_linear_keep_standard_rope_scaling() {
    assert!(matches!(
        parse_scaling(&None).expect("default scaling"),
        Scaling::Standard { divisor } if 1.0 / value(divisor) == 1.0
    ));

    let linear = table(vec![("rope_type", text("linear")), ("factor", float(4.0))]);
    assert!(matches!(
        parse_scaling(&linear).expect("linear scaling"),
        Scaling::Standard { divisor } if 1.0 / value(divisor) == 0.25
    ));
}

#[test]
fn yarn_uses_python_defaults_and_requires_context_values() {
    let config = table(vec![
        ("rope_type", text("yarn")),
        ("factor", float(4.0)),
        ("original_max_position_embeddings", float(32_768.0)),
    ]);
    let Scaling::Yarn(parameters) = parse_scaling(&config).expect("YaRN scaling") else {
        panic!("expected YaRN parameters");
    };
    assert_eq!(parameters.beta_fast.bits, DEFAULT_BETA_FAST);
    assert_eq!(parameters.beta_slow.bits, DEFAULT_BETA_SLOW);
    assert_eq!(parameters.mscale.bits, DEFAULT_MSCALE);
    assert_eq!(parameters.mscale_all_dim.bits, DEFAULT_MSCALE_ALL_DIM);

    let missing_original = table(vec![("rope_type", text("yarn")), ("factor", float(4.0))]);
    assert!(parse_scaling(&missing_original).is_err());
}

#[test]
fn the_defaults_are_the_bit_patterns_of_their_values() {
    assert_eq!(DEFAULT_BETA_FAST, 32.0f32.to_bits());
    assert_eq!(DEFAULT_BETA_SLOW, 1.0f32.to_bits());
    assert_eq!(DEFAULT_MSCALE, 1.0f32.to_bits());
    assert_eq!(DEFAULT_MSCALE_ALL_DIM, 0.0f32.to_bits());
}

#[test]
fn the_kind_stands_under_type_before_rope_type() {
    let both = table(vec![
        ("rope_type", text("yarn")),
        ("type", text("linear")),
        ("factor", float(2.0)),
    ]);
    assert_eq!(
        parse_scaling(&both).unwrap(),
        Scaling::Standard {
            divisor: single(2.0)
        }
    );
    let number = table(vec![("type", float(1.0)), ("rope_type", text("yarn"))]);
    assert_eq!(
        parse_scaling(&number).unwrap(),
        Scaling::Standard {
            divisor: single(1.0)
        }
    );
    let unnamed = table(vec![("factor", float(8.0))]);
    assert_eq!(
        parse_scaling(&unnamed).unwrap(),
        Scaling::Standard {
            divisor: single(1.0)
        }
    );
}

#[test]
fn refusals_name_the_setting() {
    let odd = table(vec![("type", text("su\"n"))]);
    assert_eq!(
        message(parse_scaling(&odd)),
        "unsupported rope_type \"su\\\"n\" (only default, linear, and yarn are supported)"
    );
    assert_eq!(
        unsupported_kind("\"x\"").message("", ""),
        "unsupported rope_type \"x\" (only default, linear, and yarn are supported)"
    );
    let worded = table(vec![("type", text("linear")), ("factor", text("four"))]);
    assert_eq!(
        message(parse_scaling(&worded)),
        "rope_scaling.factor must be numeric"
    );
    let lacking = table(vec![("type", text("yarn"))]);
    assert_eq!(
        message(parse_scaling(&lacking)),
        "rope_scaling.factor is required for rope_type=\"yarn\""
    );
    let negative = table(vec![("type", text("linear")), ("factor", float(-2.0))]);
    let error = parse_scaling(&negative).unwrap_err();
    assert_eq!(
        error.message("-2", ""),
        "rope_scaling.factor must be finite and positive, got -2"
    );
    let endless = table(vec![
        ("type", text("yarn")),
        ("factor", float(4.0)),
        ("original_max_position_embeddings", float(32_768.0)),
        ("mscale", float(f32::INFINITY)),
    ]);
    let error = parse_scaling(&endless).unwrap_err();
    assert_eq!(
        error.message("inf", ""),
        "rope_scaling.mscale must be finite, got inf"
    );
}

#[test]
fn of_two_pairs_with_one_name_the_later_counts() {
    let twice = table(vec![
        ("type", text("linear")),
        ("factor", float(2.0)),
        ("factor", float(8.0)),
    ]);
    assert_eq!(
        parse_scaling(&twice).unwrap(),
        Scaling::Standard {
            divisor: single(8.0)
        }
    );
}

#[test]
fn numbers_are_classified_as_floats_are() {
    let samples = [
        0.0f32,
        -0.0,
        1.0,
        -1.0,
        0.5,
        2.0,
        f32::MIN_POSITIVE,
        1.0e-45,
        f32::MAX,
        f32::INFINITY,
        f32::NEG_INFINITY,
        f32::NAN,
        -f32::NAN,
        1.000_000_1,
        0.999_999_9,
    ];
    for x in samples {
        let s = single(x);
        assert_eq!(s.is_finite(), x.is_finite(), "{x}");
        assert_eq!(s.is_positive(), x > 0.0, "{x}");
        assert_eq!(s.is_zero(), x == 0.0, "{x}");
        assert_eq!(s.is_one(), x == 1.0, "{x}");
        assert_eq!(s.is_at_most_one(), x <= 1.0, "{x}");
        assert_eq!(
            validate_positive("n", s).is_ok(),
            x.is_finite() && x > 0.0,
            "{x}"
        );
        assert_eq!(validate_finite("n", s).is_ok(), x.is_finite(), "{x}");
    }
}

#[test]
fn build_rope_checks_dimensions_and_base() {
    let rope = build_rope(128, single(1_000_000.0), &None).unwrap();
    assert_eq!(
        rope,
        Rope {
            dims: 128,
            base: single(1_000_000.0),
            scaling: Scaling::Standard {
                divisor: single(1.0)
            },
        }
    );
    let error = build_rope(0, single(1.0), &None).unwrap_err();
    assert!(matches!(error, LmError::HeadDim { dim: 0 }));
    assert_eq!(
        error.message("0", ""),
        "head_dim must be finite and positive, got 0"
    );
    let error = build_rope(7, single(1.0), &None).unwrap_err();
    assert_eq!(
        error.message("", ""),
        "head_dim must be even for RoPE, got 7"
    );
    let error = build_rope(8, single(f32::NAN), &None).unwrap_err();
    assert_eq!(
        error.message("NaN", ""),
        "rope_theta must be finite and positive, got NaN"
    );
}

#[test]
fn the_standard_rope_is_applied_at_the_offset() {
    let rope = build_rope(8, single(10_000.0), &None).unwrap();
    let plan = rope.forward(&[1, 2, 3, 8], 5, single(2.0)).unwrap();
    assert!(matches!(
        plan.steps[..],
        [
            Step::Input,
            Step::Rope {
                x: 0,
                dims: 8,
                base,
                divisor,
                offset: 5
            }
        ] if base == single(10_000.0) && divisor == single(1.0)
    ));
}

#[test]
fn yarn_scales_the_rotated_part() {
    let rope = Rope {
        dims: 8,
        base: single(10_000.0),
        scaling: Scaling::Yarn(yarn_parameters()),
    };
    let by = single(1.5);

    let whole = rope.forward(&[1, 8], 46, single(1.0)).unwrap();
    assert!(matches!(
        whole.steps[..],
        [
            Step::Input,
            Step::RopeAlong {
                x: 0,
                dims: 8,
                offset: 46
            }
        ]
    ));

    let scaled = rope.forward(&[1, 8], 46, by).unwrap();
    assert!(matches!(
        scaled.steps[..],
        [Step::Input, Step::Scale { x: 0, by: s }, Step::RopeAlong { x: 1, .. }] if s == by
    ));

    let leading = rope.forward(&[1, 12], 46, by).unwrap();
    assert!(matches!(
        leading.steps[..],
        [
            Step::Input,
            Step::Range {
                x: 0,
                start: 0,
                end: 8
            },
            Step::Scale { x: 1, by: s },
            Step::Range {
                x: 0,
                start: 8,
                end: 12
            },
            Step::Concat { x: 2, y: 3 },
            Step::RopeAlong {
                x: 4,
                dims: 8,
                offset: 46
            },
        ] if s == by
    ));

    let error = rope.forward(&[], 0, single(1.0)).unwrap_err();
    assert_eq!(
        error.message("", ""),
        "YaRN input must have at least one dimension"
    );
    let error = rope.forward(&[2, 6], 0, single(1.0)).unwrap_err();
    assert_eq!(
        error.message("", ""),
        "YaRN rotary dimensions 8 exceed input dimension 6"
    );
}

/// Runs a program of arithmetic on rows of numbers.
fn evaluate(plan: &Plan) -> Vec<f32> {
    let mut results: Vec<Vec<f32>> = Vec::new();
    let at = |v: &Vec<f32>, i: usize| if v.len() == 1 { v[0] } else { v[i] };
    for step in &plan.steps {
        let both = |x: &usize, y: &usize, f: fn(f32, f32) -> f32| -> Vec<f32> {
            let (x, y) = (&results[*x], &results[*y]);
            let n = x.len().max(y.len());
            (0..n).map(|i| f(at(x, i), at(y, i))).collect()
        };
        let next = match step {
            Step::Scalar { value } => vec![match *value {
                Literal::Single(s) => f32::from_bits(s.bits),
                Literal::Integer(i) => i as f32,
                Literal::Span { low, high, widened } => {
                    let top = if widened {
                        high as f32 + 0.001
                    } else {
                        high as f32
                    };
                    top - low as f32
                }
            }],
            Step::Arange { start, stop, step } => (*start..*stop)
                .step_by(*step as usize)
                .map(|i| i as f32)
                .collect(),
            Step::Add { x, y } => both(x, y, |a, b| a + b),
            Step::Subtract { x, y } => both(x, y, |a, b| a - b),
            Step::Multiply { x, y } => both(x, y, |a, b| a * b),
            Step::Divide { x, y } => both(x, y, |a, b| a / b),
            Step::Power { x, y } => both(x, y, |a, b| a.powf(b)),
            Step::ClipUnit { x } => results[*x].iter().map(|a| a.clamp(0.0, 1.0)).collect(),
            other => panic!("unexpected step {other:?}"),
        };
        results.push(next);
    }
    results.pop().expect("the program has a result")
}

#[test]
fn yarn_frequencies_agree_with_known_values() {
    let p = yarn_parameters();
    let low = correction_dim(p.beta_fast, 128, 1_000_000.0, &p).floor() as i32;
    let high = correction_dim(p.beta_slow, 128, 1_000_000.0, &p).ceil() as i32;
    let range = yarn_correction_range(low, high, 128);
    let plan = yarn_frequencies(128, single(1_000_000.0), p.factor, range);
    let actual = evaluate(&plan);
    let expected: [u32; 64] = [
        0x3f800000, 0x3f9ed70c, 0x3fc51c50, 0x3ff49a1b, 0x4017c496, 0x403c55a5, 0x4069b621,
        0x409102bc, 0x40b3f300, 0x40df4e48, 0x410a8de7, 0x412beff0, 0x41555d09, 0x418462a8,
        0x41a44832, 0x41cbdd1f, 0x41fcfb72, 0x421cf7b5, 0x4242c979, 0x4271b7f4, 0x4295fa95,
        0x42ba1d4b, 0x42e6f4d6, 0x430f4d1f, 0x433a090f, 0x43720768, 0x439dcea7, 0x43ce51dc,
        0x440742da, 0x4431ebf3, 0x446ae1fb, 0x449bac8f, 0x44cf512c, 0x450aca02, 0x453afdb9,
        0x457dcc68, 0x45adc3b3, 0x45f082e9, 0x4628b1d0, 0x4670bd8c, 0x46afbb4e, 0x46da1273,
        0x47074e93, 0x4727e851, 0x47505cdc, 0x47814858, 0x47a06e81, 0x47c715f0, 0x47f70d8e,
        0x481949e6, 0x483e38c1, 0x486c0da4, 0x489276b6, 0x48b5c09b, 0x48e18b1a, 0x490bf150,
        0x492da8fc, 0x4957805b, 0x4985b63f, 0x49a5ed9b, 0x49cde812, 0x49ff8464, 0x4a1e8a5b,
        0x4a44bd24,
    ];
    assert_eq!(actual.len(), expected.len());
    for (a, e) in actual.iter().zip(expected) {
        // Powers differ in the last bits from one implementation to another.
        assert!(a.to_bits().abs_diff(e) <= 8, "{a} is not {}", f32::from_bits(e));
    }
}

#[test]
fn a_ramp_without_width_is_given_a_small_one() {
    let widened = |range| {
        yarn_frequencies(8, single(10_000.0), single(2.0), range)
            .steps
            .iter()
            .find_map(|s| match s {
                Step::Scalar {
                    value: Literal::Span { low, high, widened },
                } => Some((*low, *high, *widened)),
                _ => None,
            })
    };
    assert_eq!(widened((2, 2)), Some((2, 2, true)));
    assert_eq!(widened((2, 3)), Some((2, 3, false)));
    let step = evaluate(&yarn_frequencies(8, single(10_000.0), single(2.0), (2, 2)));
    assert_eq!(step.len(), 4);
    assert!((step[1] - 10.0).abs() < 1.0e-3);
    assert!((step[3] - 2000.0).abs() < 1.0e-1);
}

#[test]
fn the_correction_range_stays_within_the_dimensions() {
    assert_eq!(yarn_correction_range(-3, 900, 128), (0, 127));
    assert_eq!(yarn_correction_range(5, 5, 128), (5, 5));
}
