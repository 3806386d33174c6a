use mlx_lm::cache::{Dtype, KvCache, Layout, Tensor};
use mlx_lm::config::Qwen3Config;
use mlx_lm::error::LmError;
use mlx_lm::generate::{Generator, Prefill, PrefillAction, CLEAR_CACHE_EVERY};
use mlx_lm::models::qwen3::Model;
use mlx_lm::plan::{Plan, Step};
use mlx_lm::single::Single;

fn single(x: f32) -> Single {
    Single { bits: x.to_bits() }
}

fn start(prompt: &[u32], max_tokens: usize, step: usize) -> Prefill<'_, u64> {
    let started = Generator::new_with_cache(
        prompt,
        vec![KvCache::new()],
        max_tokens,
        single(0.0),
        single(1.3),
        vec![9],
        step,
    );
    match started {
        Ok(p) => p,
        Err(e) => panic!("{}", e.message("", "")),
    }
}

/// Lets every cache grow, as a model pass over `n` tokens does.
fn grow(cache: &mut Vec<KvCache<u64>>, n: usize) {
    for c in cache.iter_mut() {
        *c = KvCache::from_parts(None, None, c.offset() + n as i32);
    }
}

/// The chunks of a prompt, and what is asked for after them.
fn chunks(prompt: &[u32], max_tokens: usize, step: usize) -> (Vec<Vec<u32>>, PrefillAction) {
    let mut prefill = start(prompt, max_tokens, step);
    let mut fed = Vec::new();
    loop {
        match prefill.action() {
            PrefillAction::Feed { start, end } => {
                fed.push(prefill.prompt_ids()[start..end].to_vec());
                grow(prefill.cache_mut(), end - start);
                prefill.chunk_done();
            }
            other => return (fed, other),
        }
    }
}

fn ready(max_tokens: usize) -> Generator<u64> {
    let mut prefill = start(&[5], max_tokens, 8);
    let pending = match prefill.action() {
        PrefillAction::Seed { .. } => {
            grow(prefill.cache_mut(), 1);
            Some(100)
        }
        _ => None,
    };
    prefill.finish(pending)
}

#[test]
fn an_empty_prompt_is_refused() {
    let refused: Result<Prefill<'_, u64>, LmError> = Generator::new_with_cache(
        &[],
        Vec::new(),
        1,
        single(0.0),
        single(1.0),
        Vec::new(),
        4,
    );
    match refused {
        Err(e) => assert_eq!(e.message("", ""), "empty prompt"),
        Ok(_) => panic!("an empty prompt was accepted"),
    }
}

#[test]
fn the_prompt_is_read_in_chunks_up_to_its_last_token() {
    let (fed, then) = chunks(&[1, 2, 3, 4, 5, 6], 3, 2);
    assert_eq!(fed, vec![vec![1, 2], vec![3, 4], vec![5]]);
    assert_eq!(then, PrefillAction::Seed { token: 6 });

    let (fed, then) = chunks(&[1, 2, 3], 3, usize::MAX);
    assert_eq!(fed, vec![vec![1, 2]]);
    assert_eq!(then, PrefillAction::Seed { token: 3 });

    let (fed, then) = chunks(&[1], 3, 2);
    assert!(fed.is_empty());
    assert_eq!(then, PrefillAction::Seed { token: 1 });
}

#[test]
fn without_wanted_tokens_nothing_is_seeded() {
    let (fed, then) = chunks(&[1, 2, 3], 0, 2);
    assert_eq!(fed, vec![vec![1, 2]]);
    assert_eq!(then, PrefillAction::Ready);
    let mut generator = ready(0);
    assert!(generator.next().is_none());
}

#[test]
fn active_slices_come_by_layer_keys_first() {
    let tensor = |data: u64| {
        Some(Tensor {
            layout: Layout {
                shape: vec![1, 1, 256, 2],
                dtype: Dtype::Bfloat16,
            },
            data,
        })
    };
    let cache = vec![
        KvCache::from_parts(tensor(1), tensor(2), 4),
        KvCache::new(),
        KvCache::from_parts(tensor(3), tensor(4), 7),
    ];
    let started =
        Generator::new_with_cache(&[1, 2], cache, 1, single(0.0), single(1.0), Vec::new(), 4);
    let Ok(prefill) = started else {
        panic!("the prompt was refused");
    };
    let slices: Vec<(u64, i32)> = prefill
        .active_slices()
        .iter()
        .map(|s| (s.of.data, s.end))
        .collect();
    assert_eq!(slices, [(1, 4), (2, 4), (3, 7), (4, 7)]);
}

#[test]
fn tokens_come_one_after_another_up_to_the_limit() {
    let mut generator = ready(3);
    let mut tokens = Vec::new();
    let mut handle = 100;
    while let Some(current) = generator.next() {
        assert_eq!(current, handle);
        handle += 1;
        grow(generator.cache_mut(), 1);
        let produced = generator.complete(handle, current as u32);
        assert!(!produced.clear_cache);
        tokens.push(produced.token.unwrap());
    }
    assert_eq!(tokens, [100, 101, 102]);
    let cache = generator.into_cache();
    assert_eq!(cache.len(), 1);
    assert_eq!(cache[0].offset(), 4);
}

#[test]
fn an_end_of_sequence_token_is_counted_but_not_handed_out() {
    let mut generator = ready(3);
    assert_eq!(generator.next(), Some(100));
    grow(generator.cache_mut(), 1);
    let produced = generator.complete(101, 9);
    assert_eq!(produced.token, None);
    for handle in [101, 102] {
        assert_eq!(generator.next(), Some(handle));
        grow(generator.cache_mut(), 1);
        assert_eq!(generator.complete(handle + 1, 1).token, Some(1));
    }
    assert_eq!(generator.next(), None);
    assert_eq!(generator.into_cache()[0].offset(), 4);
}

#[test]
fn a_failed_step_ends_the_generation() {
    let mut generator = ready(3);
    assert_eq!(generator.next(), Some(100));
    assert_eq!(generator.next(), None);
}

#[test]
fn the_memory_cache_is_released_every_so_many_steps() {
    let mut generator = ready(1000);
    let mut released = Vec::new();
    for step in 1..=600usize {
        assert!(generator.next().is_some());
        grow(generator.cache_mut(), 1);
        if generator.complete(0, 1).clear_cache {
            released.push(step);
        }
    }
    assert_eq!(released, [CLEAR_CACHE_EVERY, 2 * CLEAR_CACHE_EVERY]);
}

/// The factors by which a program penalises tokens.
fn factors(plan: &Plan) -> Option<Vec<Single>> {
    plan.steps.iter().find_map(|s| match s {
        Step::Constant { values, .. } => Some(values.clone()),
        _ => None,
    })
}

#[test]
fn the_current_token_is_penalised_from_the_step_after_next() {
    let mut prefill = start(&[5], 3, 8);
    grow(prefill.cache_mut(), 1);
    let seed = prefill.decode(&[1, 1, 4]).unwrap();
    assert!(matches!(
        seed.steps[..],
        [
            Step::Input,
            Step::LastPosition { x: 0 },
            Step::ArgMax { x: 1 }
        ]
    ));

    let mut generator = prefill.finish(Some(0));
    generator.next();
    let first = generator.decode(&[1, 1, 4]).unwrap();
    assert!(factors(&first).is_none());
    grow(generator.cache_mut(), 1);
    generator.complete(1, 2);

    generator.next();
    let second = generator.decode(&[1, 3, 4]).unwrap();
    assert!(matches!(second.steps[1], Step::LastPosition { x: 0 }));
    assert!(matches!(second.steps.last(), Some(Step::ArgMax { .. })));
    assert_eq!(
        factors(&second).unwrap(),
        [single(1.0), single(1.0), single(1.3), single(1.0)]
    );
}

#[test]
fn a_bad_temperature_is_refused_when_a_token_is_drawn() {
    let started = Generator::new_with_cache(
        &[1],
        vec![KvCache::<u64>::new()],
        1,
        single(f32::NAN),
        single(1.0),
        Vec::new(),
        4,
    );
    let Ok(prefill) = started else {
        panic!("the prompt was refused");
    };
    let refused = prefill.decode(&[1, 1, 4]);
    assert!(matches!(refused, Err(LmError::Temperature { .. })));
}

#[test]
fn a_new_generation_has_an_empty_cache_for_each_layer() {
    let cfg = Qwen3Config {
        vocab_size: 16,
        hidden_size: 8,
        intermediate_size: 32,
        num_hidden_layers: 3,
        num_attention_heads: 2,
        num_key_value_heads: 1,
        head_dim: 4,
        rms_norm_eps: single(1.0e-6),
        rope_theta: single(10_000.0),
        rope_scaling: None,
        tie_word_embeddings: true,
        quantization: None,
    };
    let Ok(model) = Model::new(cfg) else {
        panic!("the configuration was refused");
    };
    let started: Result<Prefill<'_, u64>, LmError> =
        Generator::new(&model, &[1, 2], 1, single(0.0), single(1.0), vec![], 4);
    let Ok(prefill) = started else {
        panic!("the prompt was refused");
    };
    let mut prefill = prefill;
    assert_eq!(prefill.cache_mut().len(), 3);
    assert!(prefill.cache_mut().iter().all(|c| c.offset() == 0));
}

#[test]
fn every_token_is_in_the_cache_whatever_the_chunks() {
    let prompt = [1, 2, 3, 4, 5];
    for step in [1, 2, 4, 100] {
        for max_tokens in 0..4 {
            let started = Generator::new_with_cache(
                &prompt,
                vec![KvCache::from_parts(None, None, 7), KvCache::new()],
                max_tokens,
                single(0.0),
                single(1.0),
                vec![],
                step,
            );
            let Ok(mut prefill) = started else {
                panic!("the prompt was refused");
            };
            let pending = loop {
                match prefill.action() {
                    PrefillAction::Feed { start, end } => {
                        grow(prefill.cache_mut(), end - start);
                        prefill.chunk_done();
                    }
                    PrefillAction::Seed { .. } => {
                        grow(prefill.cache_mut(), 1);
                        break Some(0);
                    }
                    PrefillAction::Ready => break None,
                }
            };
            let mut generator = prefill.finish(pending);
            let mut yielded = 0;
            while generator.next().is_some() {
                grow(generator.cache_mut(), 1);
                assert!(generator.complete(0, 3).token.is_some());
                yielded += 1;
            }
            assert_eq!(yielded, max_tokens);
            let read = if max_tokens == 0 { 4 } else { 5 + max_tokens };
            let offsets: Vec<i32> = generator.into_cache().iter().map(|c| c.offset()).collect();
            assert_eq!(offsets, [7 + read as i32, read as i32]);
        }
    }
}
