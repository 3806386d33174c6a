use mlx_lm::cache::{
    Dtype, Extension, KvCache, Layout, Slice, Tensor, UpdateAction, UpdateEvent, STEP,
};

/// A device array of one head and one dimension: a number for each position.
type Rows = Vec<i64>;

fn layout(positions: usize) -> Layout {
    Layout {
        shape: vec![1, 1, positions as i32, 1],
        dtype: Dtype::Float32,
    }
}

fn tensor(rows: Rows) -> Tensor<Rows> {
    Tensor {
        layout: layout(rows.len()),
        data: rows,
    }
}

fn grown(buffer: Option<&Tensor<Rows>>, how: Extension, pad: &Layout) -> Tensor<Rows> {
    let mut rows = match (buffer, how) {
        (None, Extension::Fresh) => Vec::new(),
        (Some(t), Extension::Whole) => t.data.clone(),
        (Some(t), Extension::Head(n)) => t.data[..n as usize].to_vec(),
        _ => panic!("extension does not fit the buffer"),
    };
    rows.extend(vec![0; pad.shape[2] as usize]);
    tensor(rows)
}

fn written(buffer: Option<&Tensor<Rows>>, start: i32, end: i32, new: &[i64]) -> Tensor<Rows> {
    let mut rows = buffer.unwrap().data.clone();
    rows[start as usize..end as usize].copy_from_slice(new);
    tensor(rows)
}

/// Performs an update on the simulated device.
fn update(cache: &mut KvCache<Rows>, k: &[i64], v: &[i64]) -> (Rows, Rows) {
    let (lk, lv) = (layout(k.len()), layout(v.len()));
    let mut event = UpdateEvent::Begin;
    loop {
        event = match cache.update_and_fetch(&lk, &lv, event) {
            UpdateAction::Grow(plan) => UpdateEvent::Grown {
                keys: grown(cache.keys(), plan.keys, &plan.pad_k),
                values: grown(cache.values(), plan.values, &plan.pad_v),
            },
            UpdateAction::WriteKeys { start, end } => UpdateEvent::KeysWritten {
                keys: written(cache.keys(), start, end, k),
            },
            UpdateAction::WriteValues { start, end } => UpdateEvent::ValuesWritten {
                values: written(cache.values(), start, end, v),
            },
            UpdateAction::Fetch { end } => {
                let n = end as usize;
                return (
                    cache.keys().unwrap().data[..n].to_vec(),
                    cache.values().unwrap().data[..n].to_vec(),
                );
            }
            UpdateAction::Stop => panic!("the device does not fail"),
        };
    }
}

fn part(slice: &Slice<'_, Rows>) -> Rows {
    slice.of.data[..slice.end as usize].to_vec()
}

#[test]
fn a_new_cache_is_empty() {
    let cache: KvCache<Rows> = KvCache::new();
    assert_eq!(cache.offset(), 0);
    assert!(cache.active().is_none());
    let other: KvCache<Rows> = KvCache::default();
    assert!(other.keys().is_none() && other.values().is_none());
}

#[test]
fn the_first_update_allocates_one_block() {
    let mut cache = KvCache::new();
    let (k, v) = update(&mut cache, &[1, 2, 3], &[4, 5, 6]);
    assert_eq!(k, [1, 2, 3]);
    assert_eq!(v, [4, 5, 6]);
    assert_eq!(cache.offset(), 3);
    assert_eq!(cache.keys().unwrap().data.len(), STEP as usize);
    assert_eq!(cache.values().unwrap().layout.shape, [1, 1, STEP, 1]);
}

#[test]
fn updates_append_whether_the_buffers_grow_or_not() {
    let mut cache = KvCache::new();
    let mut expected = Vec::new();
    for step in 0..7i64 {
        let new: Vec<i64> = (0..100).map(|i| 1000 * step + i).collect();
        let neg: Vec<i64> = new.iter().map(|x| -x).collect();
        expected.extend(new.iter().copied());
        let (k, v) = update(&mut cache, &new, &neg);
        assert_eq!(k, expected);
        assert_eq!(v, expected.iter().map(|x| -x).collect::<Vec<_>>());
        assert_eq!(cache.offset() as usize, expected.len());
        assert_eq!(cache.keys().unwrap().data.len() % STEP as usize, 0);
        assert_eq!(cache.values().unwrap().data.len() % STEP as usize, 0);
        let (ak, av) = cache.active().unwrap();
        assert_eq!(part(&ak), k);
        assert_eq!(part(&av), v);
    }
}

#[test]
fn growth_inside_a_block_drops_the_unused_tail() {
    let mut cache = KvCache::new();
    update(&mut cache, &[7; 100], &[7; 100]);
    let (lk, lv) = (layout(200), layout(200));
    match cache.update_and_fetch(&lk, &lv, UpdateEvent::Begin) {
        UpdateAction::Grow(plan) => {
            assert_eq!(plan.keys, Extension::Head(100));
            assert_eq!(plan.values, Extension::Head(100));
            assert_eq!(plan.pad_k.shape, [1, 1, 412, 1]);
            assert_eq!(plan.pad_v.shape, [1, 1, 412, 1]);
            assert_eq!(plan.pad_k.dtype, Dtype::Float32);
        }
        other => panic!("unexpected action {other:?}"),
    }
    update(&mut cache, &[8; 200], &[8; 200]);
    assert_eq!(cache.keys().unwrap().data.len(), 512);
}

#[test]
fn growth_at_the_end_of_a_block_keeps_the_whole_buffer() {
    let mut cache = KvCache::new();
    update(&mut cache, &[1; 256], &[1; 256]);
    match cache.update_and_fetch(&layout(1), &layout(1), UpdateEvent::Begin) {
        UpdateAction::Grow(plan) => {
            assert_eq!(plan.keys, Extension::Whole);
            assert_eq!(plan.pad_v.shape, [1, 1, 256, 1]);
        }
        other => panic!("unexpected action {other:?}"),
    }
}

#[test]
fn an_abandoned_update_keeps_what_is_active() {
    let mut cache = KvCache::new();
    update(&mut cache, &[1, 2], &[3, 4]);
    let (lk, lv) = (layout(1), layout(1));
    match cache.update_and_fetch(&lk, &lv, UpdateEvent::Begin) {
        UpdateAction::WriteKeys { start, end } => {
            assert_eq!((start, end), (2, 3));
            let keys = written(cache.keys(), start, end, &[9]);
            let action = cache.update_and_fetch(&lk, &lv, UpdateEvent::KeysWritten { keys });
            assert!(matches!(
                action,
                UpdateAction::WriteValues { start: 2, end: 3 }
            ));
        }
        other => panic!("unexpected action {other:?}"),
    }
    let action = cache.update_and_fetch(&lk, &lv, UpdateEvent::Failed);
    assert!(matches!(action, UpdateAction::Stop));
    assert_eq!(cache.offset(), 2);
    let (k, v) = cache.active().unwrap();
    assert_eq!(part(&k), [1, 2]);
    assert_eq!(part(&v), [3, 4]);
}

#[test]
fn trim_drops_at_most_what_is_there() {
    let mut cache = KvCache::new();
    update(&mut cache, &[1, 2, 3], &[4, 5, 6]);
    assert_eq!(cache.trim(1), 1);
    assert_eq!(cache.offset(), 2);
    assert_eq!(part(&cache.active().unwrap().0), [1, 2]);
    let (k, v) = update(&mut cache, &[8], &[9]);
    assert_eq!(k, [1, 2, 8]);
    assert_eq!(v, [4, 5, 9]);
    assert_eq!(cache.trim(10), 3);
    assert_eq!(cache.offset(), 0);
}

#[test]
fn a_clone_is_independent() {
    let mut cache = KvCache::new();
    update(&mut cache, &[1, 2], &[3, 4]);
    let copy = cache.clone();
    update(&mut cache, &[5], &[6]);
    assert_eq!(copy.offset(), 2);
    assert_eq!(part(&copy.active().unwrap().1), [3, 4]);
}

#[test]
fn buffers_stay_whole_blocks_for_any_sizes() {
    for (first, second) in [(10, 300), (1, 1), (255, 2), (256, 1), (257, 600), (512, 256)] {
        let mut cache = KvCache::new();
        update(&mut cache, &vec![1; first], &vec![2; first]);
        update(&mut cache, &vec![3; second], &vec![4; second]);
        let length = cache.keys().unwrap().data.len();
        assert_eq!(length, cache.values().unwrap().data.len());
        assert_eq!(length % STEP as usize, 0);
        assert!(length >= first + second);
    }
}

#[test]
fn a_cut_cache_grows_to_whole_blocks_again() {
    let mut cache = KvCache::new();
    update(&mut cache, &[1; 300], &[2; 300]);
    cache.trim(290);
    let (k, _) = update(&mut cache, &[3; 600], &[4; 600]);
    assert_eq!(k.len(), 610);
    assert_eq!(cache.keys().unwrap().data.len(), 768);
}
