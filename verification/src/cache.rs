//! Per-layer key/value cache.
//!
//! A layer keeps one key buffer and one value buffer, laid out as
//! `[B, H, S, D]`. `offset` counts the positions of the sequence axis that hold
//! tokens; the buffers themselves are longer, because they grow in blocks of
//! `STEP` positions so that most writes stay inside what is already allocated.

use vstd::prelude::*;

verus! {

/// Block size of the key/value buffers, in positions of the sequence axis.
pub const STEP: i32 = 256;

/// Element type of a device array.
#[derive(Clone, Copy, Debug, PartialEq, Eq, Structural)]
pub enum Dtype {
    Bool,
    Uint8,
    Uint16,
    Uint32,
    Uint64,
    Int8,
    Int16,
    Int32,
    Int64,
    Float16,
    Float32,
    Float64,
    Bfloat16,
    Complex64,
}

/// Shape and element type of a device array.
#[derive(Debug)]
pub struct Layout {
    pub shape: Vec<i32>,
    pub dtype: Dtype,
}

/// A device array: its layout, and the handle `data` by which the device
/// library knows it. The cache reads the layout and carries the handle.
#[derive(Debug)]
pub struct Tensor<A> {
    pub layout: Layout,
    pub data: A,
}

/// The first `end` positions of the sequence axis of a device array.
#[derive(Debug)]
pub struct Slice<'a, A> {
    pub of: &'a Tensor<A>,
    pub end: i32,
}

/// Key/value cache of one layer.
#[derive(Debug)]
pub struct KvCache<A> {
    keys: Option<Tensor<A>>,
    values: Option<Tensor<A>>,
    offset: i32,
}

/// What a cache holds: its buffers, and the number of positions that are active.
pub struct CacheState<A> {
    pub keys: Option<Tensor<A>>,
    pub values: Option<Tensor<A>>,
    pub offset: i32,
}

impl<A> View for KvCache<A> {
    type V = CacheState<A>;

    closed spec fn view(&self) -> CacheState<A> {
        CacheState { keys: self.keys, values: self.values, offset: self.offset }
    }
}

/// How a buffer is extended by a block of fresh positions.
#[derive(Clone, Copy, Debug, PartialEq, Eq, Structural)]
pub enum Extension {
    /// There is no buffer yet: the fresh block becomes the buffer.
    Fresh,
    /// The whole buffer, then the fresh block.
    Whole,
    /// The first positions of the buffer, as many as given, then the fresh block.
    Head(i32),
}

/// The allocations that a growing cache asks for.
#[derive(Debug)]
pub struct GrowPlan {
    /// Layout of the zeroed block for the keys.
    pub pad_k: Layout,
    /// Layout of the zeroed block for the values.
    pub pad_v: Layout,
    pub keys: Extension,
    pub values: Extension,
}

/// What the device has done since the previous step of an update.
#[derive(Debug)]
pub enum UpdateEvent<A> {
    /// The update starts.
    Begin,
    /// Both buffers were extended as asked.
    Grown { keys: Tensor<A>, values: Tensor<A> },
    /// The new keys were written into the key buffer.
    KeysWritten { keys: Tensor<A> },
    /// The new values were written into the value buffer.
    ValuesWritten { values: Tensor<A> },
    /// The device reported a failure.
    Failed,
}

/// What the device is asked to do next.
#[derive(Debug)]
pub enum UpdateAction {
    /// Allocate the blocks and extend both buffers.
    Grow(GrowPlan),
    /// Write the new keys at positions `start..end` of the key buffer.
    WriteKeys { start: i32, end: i32 },
    /// Write the new values at positions `start..end` of the value buffer.
    WriteValues { start: i32, end: i32 },
    /// The update is committed: hand out positions `0..end` of both buffers.
    Fetch { end: i32 },
    /// The update is abandoned.
    Stop,
}

/// Layout in mathematical terms.
pub struct LayoutView {
    pub shape: Seq<i32>,
    pub dtype: Dtype,
}

/// Action in mathematical terms.
pub enum Request {
    Grow { pad_k: LayoutView, pad_v: LayoutView, keys: Extension, values: Extension },
    WriteKeys { start: int, end: int },
    WriteValues { start: int, end: int },
    Fetch { end: int },
    Stop,
}

impl View for Layout {
    type V = LayoutView;

    open spec fn view(&self) -> LayoutView {
        LayoutView { shape: self.shape@, dtype: self.dtype }
    }
}

impl View for UpdateAction {
    type V = Request;

    open spec fn view(&self) -> Request {
        match *self {
            UpdateAction::Grow(plan) => Request::Grow {
                pad_k: plan.pad_k@,
                pad_v: plan.pad_v@,
                keys: plan.keys,
                values: plan.values,
            },
            UpdateAction::WriteKeys { start, end } => Request::WriteKeys {
                start: start as int,
                end: end as int,
            },
            UpdateAction::WriteValues { start, end } => Request::WriteValues {
                start: start as int,
                end: end as int,
            },
            UpdateAction::Fetch { end } => Request::Fetch { end: end as int },
            UpdateAction::Stop => Request::Stop,
        }
    }
}

/// Position of the sequence axis: the last but one.
pub open spec fn sequence_axis(shape: Seq<i32>) -> int {
    shape.len() - 2
}

/// How many positions a block of keys with this shape adds.
pub open spec fn new_positions(shape: Seq<i32>) -> int {
    shape[sequence_axis(shape)] as int
}

/// `n` rounded up to a whole number of blocks.
pub open spec fn round_up(n: int) -> int {
    ((n + STEP - 1) / STEP as int) * STEP
}

/// What is counted in whole blocks when `n` positions come behind `prev`: all of
/// them where those end inside a block, whose unused tail is dropped; else only
/// the new ones.
pub open spec fn unpadded(prev: int, n: int) -> int {
    if prev % (STEP as int) != 0 {
        prev + n
    } else {
        n
    }
}

/// Length of the block that is added for `n` positions behind `prev`, so that the
/// buffer ends with a whole block again.
pub open spec fn block(prev: int, n: int) -> int {
    if prev % (STEP as int) != 0 {
        round_up(prev + n) - prev
    } else {
        round_up(n)
    }
}

/// The layout with the length of axis `axis` replaced by `n`.
pub open spec fn resized(layout: LayoutView, axis: int, n: int) -> LayoutView {
    LayoutView { shape: layout.shape.update(axis, n as i32), dtype: layout.dtype }
}

/// How an existing buffer enters the extended one. An unused tail past the
/// active positions is dropped where they end inside a block.
pub open spec fn extension<A>(existing: Option<Tensor<A>>, prev: int) -> Extension {
    match existing {
        None => Extension::Fresh,
        Some(_) => if prev % (STEP as int) != 0 {
            Extension::Head(prev as i32)
        } else {
            Extension::Whole
        },
    }
}

/// The positions of a buffer that is read by `rows`; none without a buffer.
pub open spec fn held<A, R>(buffer: Option<Tensor<A>>, rows: spec_fn(A) -> Seq<R>) -> Seq<R> {
    match buffer {
        Some(t) => rows(t.data),
        None => Seq::empty(),
    }
}

/// What `held` becomes when it is extended by the block `pad`.
pub open spec fn extended<R>(held: Seq<R>, how: Extension, pad: Seq<R>) -> Seq<R> {
    match how {
        Extension::Fresh => pad,
        Extension::Whole => held + pad,
        Extension::Head(n) => held.take(n as int) + pad,
    }
}

/// What `held` becomes when `block` is written over positions `start..end`.
pub open spec fn overwritten<R>(held: Seq<R>, start: int, end: int, block: Seq<R>) -> Seq<R> {
    held.take(start) + block + held.skip(end)
}

/// The device extended `before` into `after` by a block of `n` positions.
pub open spec fn extends<R>(before: Seq<R>, how: Extension, n: int, after: Seq<R>) -> bool {
    exists|pad: Seq<R>| pad.len() == n && after == #[trigger] extended(before, how, pad)
}

/// `event` reports exactly what `request` asked of the device for cache `c`,
/// where `new_k` and `new_v` are the positions to append. Buffers are read by
/// `rows`, and their reported length along `axis` is their true one.
pub open spec fn performed<A, R>(
    c: CacheState<A>,
    request: Request,
    event: UpdateEvent<A>,
    axis: int,
    rows: spec_fn(A) -> Seq<R>,
    new_k: Seq<R>,
    new_v: Seq<R>,
) -> bool {
    match (request, event) {
        (
            Request::Grow { pad_k, pad_v, keys, values },
            UpdateEvent::Grown { keys: k, values: v },
        ) => {
            &&& extends(held(c.keys, rows), keys, pad_k.shape[axis] as int, rows(k.data))
            &&& extends(held(c.values, rows), values, pad_v.shape[axis] as int, rows(v.data))
            &&& measured(k, axis, rows)
        },
        (Request::WriteKeys { start, end }, UpdateEvent::KeysWritten { keys: k }) => {
            &&& rows(k.data) == overwritten(held(c.keys, rows), start, end, new_k)
            &&& measured(k, axis, rows)
        },
        (Request::WriteValues { start, end }, UpdateEvent::ValuesWritten { values: v }) => {
            rows(v.data) == overwritten(held(c.values, rows), start, end, new_v)
        },
        _ => false,
    }
}

/// The reported length of `t` along `axis` is the number of its positions.
pub open spec fn measured<A, R>(t: Tensor<A>, axis: int, rows: spec_fn(A) -> Seq<R>) -> bool {
    &&& 0 <= axis < t.layout@.shape.len()
    &&& t.layout@.shape[axis] == rows(t.data).len()
}

/// `b` is a clone of `a`.
pub open spec fn tensor_cloned<A: Clone>(a: Option<Tensor<A>>, b: Option<Tensor<A>>) -> bool {
    match (a, b) {
        (None, None) => true,
        (Some(x), Some(y)) => x.layout@ == y.layout@ && cloned(x.data, y.data),
        _ => false,
    }
}

impl Clone for Layout {
    fn clone(&self) -> (r: Self)
        ensures
            r@ == self@,
    {
        let shape = self.shape.clone();
        assert(shape@ =~= self.shape@);
        Layout { shape, dtype: self.dtype }
    }
}

impl<A: Clone> Clone for Tensor<A> {
    fn clone(&self) -> (r: Self)
        ensures
            r.layout@ == self.layout@,
            cloned(self.data, r.data),
    {
        Tensor { layout: self.layout.clone(), data: self.data.clone() }
    }
}

impl<A: Clone> Clone for KvCache<A> {
    fn clone(&self) -> (r: Self)
        ensures
            tensor_cloned(self@.keys, r@.keys),
            tensor_cloned(self@.values, r@.values),
            r@.offset == self@.offset,
    {
        let keys = match &self.keys {
            Some(t) => Some(t.clone()),
            None => None,
        };
        let values = match &self.values {
            Some(t) => Some(t.clone()),
            None => None,
        };
        KvCache { keys, values, offset: self.offset }
    }
}

impl<A> Default for KvCache<A> {
    fn default() -> (r: Self)
        ensures
            r@ == CacheState::<A>::empty(),
    {
        KvCache { keys: None, values: None, offset: 0 }
    }
}

impl<A> CacheState<A> {
    /// Nothing: no buffers, no positions.
    pub open spec fn empty() -> Self {
        CacheState { keys: None, values: None, offset: 0 }
    }

    /// The cache without its last `count` positions, or without any.
    pub open spec fn trimmed(self, count: int) -> Self {
        CacheState {
            offset: if count <= self.offset {
                (self.offset - count) as i32
            } else {
                0
            },
            ..self
        }
    }

    /// Length of the key buffer along axis `axis`; nothing is zero long.
    pub open spec fn capacity(self, axis: int) -> int {
        match self.keys {
            Some(t) => t.layout@.shape[axis] as int,
            None => 0,
        }
    }

    /// Whether the buffers are too short for the positions that `k` adds.
    pub open spec fn must_grow(self, k: LayoutView) -> bool {
        self.offset + new_positions(k.shape) > self.capacity(sequence_axis(k.shape))
    }

    /// What an update with keys `k` and values `v` needs: a sequence axis, a
    /// position count that fits, and, at its start, both buffers or neither, and
    /// a length that fits where they grow.
    pub open spec fn updatable(self, k: LayoutView, v: LayoutView, event: UpdateEvent<A>) -> bool {
        &&& k.shape.len() >= 2
        &&& 0 <= self.offset
        &&& 0 <= new_positions(k.shape)
        &&& self.offset + new_positions(k.shape) <= i32::MAX
        &&& event is Begin ==> {
            &&& self.keys is Some <==> self.values is Some
            &&& self.keys matches Some(t) ==> t.layout@.shape.len() > sequence_axis(k.shape)
            &&& self.keys is None ==> self.must_grow(k)
            &&& self.must_grow(k) ==> {
                &&& v.shape.len() > sequence_axis(k.shape)
                &&& round_up(unpadded(self.offset as int, new_positions(k.shape))) <= i32::MAX
            }
        }
    }

    /// The cache after `event`. The offset moves only once both writes are done.
    pub open spec fn after(self, k: LayoutView, event: UpdateEvent<A>) -> Self {
        match event {
            UpdateEvent::Begin => self,
            UpdateEvent::Grown { keys, values } => CacheState {
                keys: Some(keys),
                values: Some(values),
                ..self
            },
            UpdateEvent::KeysWritten { keys } => CacheState { keys: Some(keys), ..self },
            UpdateEvent::ValuesWritten { values } => CacheState {
                values: Some(values),
                offset: (self.offset + new_positions(k.shape)) as i32,
                ..self
            },
            UpdateEvent::Failed => self,
        }
    }

    /// What the device is to do after `event`.
    pub open spec fn request(self, k: LayoutView, v: LayoutView, event: UpdateEvent<A>) -> Request {
        let start = self.offset as int;
        let end = self.offset + new_positions(k.shape);
        match event {
            UpdateEvent::Begin => if self.must_grow(k) {
                self.growth(k, v)
            } else {
                Request::WriteKeys { start, end }
            },
            UpdateEvent::Grown { .. } => Request::WriteKeys { start, end },
            UpdateEvent::KeysWritten { .. } => Request::WriteValues { start, end },
            UpdateEvent::ValuesWritten { .. } => Request::Fetch { end },
            UpdateEvent::Failed => Request::Stop,
        }
    }

    /// The growth that makes room for `k` and `v`: a block behind what the
    /// buffers keep.
    pub open spec fn growth(self, k: LayoutView, v: LayoutView) -> Request {
        let axis = sequence_axis(k.shape);
        let extra = block(self.offset as int, new_positions(k.shape));
        Request::Grow {
            pad_k: resized(k, axis, extra),
            pad_v: resized(v, axis, extra),
            keys: extension(self.keys, self.offset as int),
            values: extension(self.values, self.offset as int),
        }
    }

    /// Both buffers or neither, equally long, a whole number of blocks, and long
    /// enough for the offset.
    pub open spec fn consistent<R>(self, axis: int, rows: spec_fn(A) -> Seq<R>) -> bool {
        &&& self.keys is Some <==> self.values is Some
        &&& self.keys matches Some(t) ==> measured(t, axis, rows)
        &&& held(self.keys, rows).len() == held(self.values, rows).len()
        &&& held(self.keys, rows).len() % (STEP as nat) == 0
        &&& 0 <= self.offset <= held(self.keys, rows).len()
    }

    /// The keys that are active, as read by `rows`.
    pub open spec fn active_keys<R>(self, rows: spec_fn(A) -> Seq<R>) -> Seq<R> {
        held(self.keys, rows).take(self.offset as int)
    }

    /// The values that are active, as read by `rows`.
    pub open spec fn active_values<R>(self, rows: spec_fn(A) -> Seq<R>) -> Seq<R> {
        held(self.values, rows).take(self.offset as int)
    }
}

impl<A> KvCache<A> {
    /// An empty cache.
    pub fn new() -> (r: Self)
        ensures
            r@ == CacheState::<A>::empty(),
    {
        Self::default()
    }

    /// A cache with the given buffers, of which `offset` positions are active.
    pub fn from_parts(keys: Option<Tensor<A>>, values: Option<Tensor<A>>, offset: i32) -> (r: Self)
        ensures
            r@ == (CacheState { keys, values, offset }),
    {
        KvCache { keys, values, offset }
    }

    /// Number of positions that hold tokens.
    pub fn offset(&self) -> (r: i32)
        ensures
            r == self@.offset,
    {
        self.offset
    }

    /// The key buffer, with its padding.
    pub fn keys(&self) -> (r: Option<&Tensor<A>>)
        ensures
            match r {
                Some(t) => self@.keys == Some(*t),
                None => self@.keys is None,
            },
    {
        self.keys.as_ref()
    }

    /// The value buffer, with its padding.
    pub fn values(&self) -> (r: Option<&Tensor<A>>)
        ensures
            match r {
                Some(t) => self@.values == Some(*t),
                None => self@.values is None,
            },
    {
        self.values.as_ref()
    }

    /// Drops the last `count` positions, or all of them if there are fewer,
    /// and says how many were dropped. The buffers keep their length.
    pub fn trim(&mut self, count: usize) -> (trimmed: usize)
        requires
            old(self)@.offset >= 0,
        ensures
            trimmed == old(self)@.offset - old(self)@.trimmed(count as int).offset,
            final(self)@ == old(self)@.trimmed(count as int),
    {
        let held: usize = self.offset as usize;
        let trimmed: usize = if count < held { count } else { held };
        self.offset = self.offset - trimmed as i32;
        trimmed
    }

    /// The active part of both buffers, without the padding past `offset`;
    /// `None` before the first update.
    pub fn active(&self) -> (r: Option<(Slice<'_, A>, Slice<'_, A>)>)
        ensures
            r == (match (self@.keys, self@.values) {
                (Some(k), Some(v)) => Some(
                    (
                        (Slice { of: &k, end: self@.offset }),
                        (Slice { of: &v, end: self@.offset }),
                    ),
                ),
                _ => None,
            }),
    {
        match (&self.keys, &self.values) {
            (Some(k), Some(v)) => Some(
                (Slice { of: k, end: self.offset }, Slice { of: v, end: self.offset }),
            ),
            _ => None,
        }
    }

    /// One step of appending the keys `k` and values `v`. Called first with
    /// `Begin`, then with what came of each action, until `Fetch` or `Stop`.
    pub fn update_and_fetch(&mut self, k: &Layout, v: &Layout, event: UpdateEvent<A>) -> (action:
        UpdateAction)
        requires
            old(self)@.updatable(k@, v@, event),
        ensures
            final(self)@ == old(self)@.after(k@, event),
            action@ == old(self)@.request(k@, v@, event),
    {
        let s_axis: usize = k.shape.len() - 2;
        let n_new: i32 = k.shape[s_axis];
        let prev: i32 = self.offset;
        let new_offset: i32 = prev + n_new;
        match event {
            UpdateEvent::Begin => {
                let cur_cap: i32 = match &self.keys {
                    Some(t) => t.layout.shape[s_axis],
                    None => 0,
                };
                if new_offset > cur_cap {
                    UpdateAction::Grow(self.grow(k, v, prev))
                } else {
                    UpdateAction::WriteKeys { start: prev, end: new_offset }
                }
            },
            UpdateEvent::Grown { keys, values } => {
                self.keys = Some(keys);
                self.values = Some(values);
                UpdateAction::WriteKeys { start: prev, end: new_offset }
            },
            UpdateEvent::KeysWritten { keys } => {
                self.keys = Some(keys);
                UpdateAction::WriteValues { start: prev, end: new_offset }
            },
            UpdateEvent::ValuesWritten { values } => {
                self.values = Some(values);
                self.offset = new_offset;
                UpdateAction::Fetch { end: new_offset }
            },
            UpdateEvent::Failed => UpdateAction::Stop,
        }
    }

    /// The blocks to allocate, and how the buffers are extended by them. The
    /// cache itself changes only when both extended buffers exist.
    fn grow(&self, k: &Layout, v: &Layout, prev: i32) -> (plan: GrowPlan)
        requires
            self@.updatable(k@, v@, UpdateEvent::Begin),
            self@.must_grow(k@),
            prev == self@.offset,
        ensures
            UpdateAction::Grow(plan)@ == self@.growth(k@, v@),
    {
        let s_axis: usize = k.shape.len() - 2;
        let n_new: i32 = k.shape[s_axis];
        let trim_tail = prev % STEP != 0;
        let extra: i32 = if trim_tail {
            ((prev + n_new + (STEP - 1)) / STEP) * STEP - prev
        } else {
            ((n_new + (STEP - 1)) / STEP) * STEP
        };
        let mut pad_k = k.clone();
        pad_k.shape.set(s_axis, extra);
        let mut pad_v = v.clone();
        pad_v.shape.set(s_axis, extra);
        GrowPlan {
            pad_k,
            pad_v,
            keys: extend(&self.keys, prev, trim_tail),
            values: extend(&self.values, prev, trim_tail),
        }
    }
}

/// How `existing` enters the extended buffer: only its first `prev` positions
/// where the tail is to go.
fn extend<A>(existing: &Option<Tensor<A>>, prev: i32, trim_tail: bool) -> (r: Extension)
    requires
        prev >= 0,
        trim_tail == (prev % STEP != 0),
    ensures
        r == extension(*existing, prev as int),
{
    match existing {
        None => Extension::Fresh,
        Some(_) => if trim_tail {
            Extension::Head(prev)
        } else {
            Extension::Whole
        },
    }
}

/// The device did what an update of `c` asked for: it grew the buffers where
/// that was asked, and wrote the new keys, which gave the key buffer `keys`.
pub open spec fn keys_written<A, R>(
    c: CacheState<A>,
    k: LayoutView,
    v: LayoutView,
    grown: Option<(Tensor<A>, Tensor<A>)>,
    keys: Tensor<A>,
    rows: spec_fn(A) -> Seq<R>,
    new_k: Seq<R>,
    new_v: Seq<R>,
) -> bool {
    let axis = sequence_axis(k.shape);
    let begin = UpdateEvent::Begin;
    &&& c.updatable(k, v, begin)
    &&& c.consistent(axis, rows)
    &&& new_k.len() == new_positions(k.shape)
    &&& new_v.len() == new_positions(k.shape)
    &&& grown is Some <==> c.must_grow(k)
    &&& match grown {
        Some(g) => {
            let grew = UpdateEvent::Grown { keys: g.0, values: g.1 };
            let wrote = UpdateEvent::KeysWritten { keys };
            &&& performed(c, c.request(k, v, begin), grew, axis, rows, new_k, new_v)
            &&& performed(
                c.after(k, grew),
                c.request(k, v, grew),
                wrote,
                axis,
                rows,
                new_k,
                new_v,
            )
        },
        None => performed(
            c,
            c.request(k, v, begin),
            UpdateEvent::KeysWritten { keys },
            axis,
            rows,
            new_k,
            new_v,
        ),
    }
}

/// Until the second write is done, an update leaves the offset and every active
/// key and value as they were, and both buffers consistent: abandoning it after
/// the growth or after the first write loses nothing.
pub proof fn law_unfinished_update_keeps_active<A, R>(
    c: CacheState<A>,
    k: LayoutView,
    v: LayoutView,
    grown: Option<(Tensor<A>, Tensor<A>)>,
    keys: Tensor<A>,
    rows: spec_fn(A) -> Seq<R>,
    new_k: Seq<R>,
    new_v: Seq<R>,
)
    requires
        keys_written(c, k, v, grown, keys, rows, new_k, new_v),
    ensures
        ({
            let axis = sequence_axis(k.shape);
            let ready = readied(c, k, grown);
            let mid = ready.after(k, UpdateEvent::KeysWritten { keys });
            &&& ready.offset == c.offset
            &&& ready.active_keys(rows) == c.active_keys(rows)
            &&& ready.active_values(rows) == c.active_values(rows)
            &&& ready.consistent(axis, rows)
            &&& mid.offset == c.offset
            &&& mid.active_keys(rows) == c.active_keys(rows)
            &&& mid.active_values(rows) == c.active_values(rows)
            &&& mid.consistent(axis, rows)
        }),
{
    let ready = readied(c, k, grown);
    let mid = ready.after(k, UpdateEvent::KeysWritten { keys });
    if let Some(g) = grown {
        lemma_growth(c, k, v, g.0, g.1, rows, new_k, new_v);
    }
    assert(mid.active_keys(rows) =~= ready.active_keys(rows));
}

/// What a read gives back of a write: after a finished update, the active keys
/// and values are the former ones followed by the appended ones, whether the
/// buffers had to grow or not, and the cache can take the next update.
pub proof fn law_update_appends<A, R>(
    c: CacheState<A>,
    k: LayoutView,
    v: LayoutView,
    grown: Option<(Tensor<A>, Tensor<A>)>,
    keys: Tensor<A>,
    values: Tensor<A>,
    rows: spec_fn(A) -> Seq<R>,
    new_k: Seq<R>,
    new_v: Seq<R>,
)
    requires
        keys_written(c, k, v, grown, keys, rows, new_k, new_v),
        ({
            let ready = readied(c, k, grown);
            let wrote = UpdateEvent::KeysWritten { keys };
            performed(
                ready.after(k, wrote),
                ready.request(k, v, wrote),
                UpdateEvent::ValuesWritten { values },
                sequence_axis(k.shape),
                rows,
                new_k,
                new_v,
            )
        }),
    ensures
        ({
            let done = readied(c, k, grown).after(k, UpdateEvent::KeysWritten { keys }).after(
                k,
                UpdateEvent::ValuesWritten { values },
            );
            &&& done.offset == c.offset + new_positions(k.shape)
            &&& done.active_keys(rows) == c.active_keys(rows) + new_k
            &&& done.active_values(rows) == c.active_values(rows) + new_v
            &&& done.consistent(sequence_axis(k.shape), rows)
        }),
{
    let ready = readied(c, k, grown);
    let mid = ready.after(k, UpdateEvent::KeysWritten { keys });
    let done = mid.after(k, UpdateEvent::ValuesWritten { values });
    law_unfinished_update_keeps_active(c, k, v, grown, keys, rows, new_k, new_v);
    if let Some(g) = grown {
        lemma_growth(c, k, v, g.0, g.1, rows, new_k, new_v);
    }
    assert(done.active_keys(rows) =~= ready.active_keys(rows) + new_k);
    assert(done.active_values(rows) =~= ready.active_values(rows) + new_v);
}

/// Growth leaves room for what is to come, and a whole number of blocks: where
/// the active positions end inside a block, as few as hold all positions; else as
/// few more than there were as hold the new ones.
pub proof fn law_growth_gives_whole_blocks<A, R>(
    c: CacheState<A>,
    k: LayoutView,
    v: LayoutView,
    keys: Tensor<A>,
    values: Tensor<A>,
    rows: spec_fn(A) -> Seq<R>,
)
    requires
        c.updatable(k, v, UpdateEvent::Begin),
        c.must_grow(k),
        c.consistent(sequence_axis(k.shape), rows),
        performed(
            c,
            c.request(k, v, UpdateEvent::Begin),
            UpdateEvent::Grown { keys, values },
            sequence_axis(k.shape),
            rows,
            Seq::<R>::empty(),
            Seq::<R>::empty(),
        ),
    ensures
        ({
            let length = rows(keys.data).len();
            let n = new_positions(k.shape);
            &&& length == rows(values.data).len()
            &&& length % (STEP as nat) == 0
            &&& length >= c.offset + n
            &&& c.offset % STEP != 0 ==> length == round_up(c.offset + n)
            &&& c.offset % STEP == 0 ==> length == held(c.keys, rows).len() + round_up(n)
        }),
{
    lemma_growth(c, k, v, keys, values, rows, Seq::<R>::empty(), Seq::<R>::empty());
}

/// The zeroed blocks that a growth asks for are laid out as what is to be written:
/// block and keys, block and values have the same element type, as many axes, and
/// the same length along every axis but the last but one. Along that one both
/// blocks are equally long.
pub proof fn law_growth_blocks_are_laid_out_as_what_comes<A>(
    c: CacheState<A>,
    k: LayoutView,
    v: LayoutView,
)
    requires
        c.updatable(k, v, UpdateEvent::Begin),
        c.request(k, v, UpdateEvent::Begin) is Grow,
    ensures
        match c.request(k, v, UpdateEvent::Begin) {
            Request::Grow { pad_k, pad_v, .. } => {
                let axis = k.shape.len() - 2;
                &&& pad_k.dtype == k.dtype
                &&& pad_v.dtype == v.dtype
                &&& pad_k.shape.len() == k.shape.len()
                &&& pad_v.shape.len() == v.shape.len()
                &&& forall|i: int|
                    0 <= i < k.shape.len() && i != axis ==> #[trigger] pad_k.shape[i] == k.shape[i]
                &&& forall|i: int|
                    0 <= i < v.shape.len() && i != axis ==> #[trigger] pad_v.shape[i] == v.shape[i]
                &&& pad_k.shape[axis] == pad_v.shape[axis]
            },
            _ => false,
        },
{
}

/// A growth is asked for exactly where the key buffer is too short along the last
/// axis but one for what is active and what comes. A cache without buffers then
/// gets fresh ones. Else both buffers are kept whole where what is active ends with
/// a whole number of 256 positions, and cut to what is active where it does not.
/// What is kept and the block are together long enough for what comes, by less than
/// 256 positions where a buffer is cut or fresh; where it is kept whole, the block
/// alone is.
pub proof fn law_growth_is_asked_for_where_needed<A>(c: CacheState<A>, k: LayoutView, v: LayoutView)
    requires
        c.updatable(k, v, UpdateEvent::Begin),
    ensures
        ({
            let axis = k.shape.len() - 2;
            let n = k.shape[axis];
            let length = match c.keys {
                Some(t) => t.layout.shape@[axis] as int,
                None => 0,
            };
            match c.request(k, v, UpdateEvent::Begin) {
                Request::Grow { pad_k, keys, values, .. } => {
                    let extra = pad_k.shape[axis];
                    &&& c.offset + n > length
                    &&& c.keys is None <==> keys is Fresh
                    &&& c.values is None <==> values is Fresh
                    &&& c.keys is Some ==> (keys is Whole <==> c.offset % 256 == 0)
                    &&& c.values is Some ==> (values is Whole <==> c.offset % 256 == 0)
                    &&& keys matches Extension::Head(kept) ==> kept == c.offset
                    &&& values matches Extension::Head(kept) ==> kept == c.offset
                    &&& c.offset % 256 != 0 ==> {
                        &&& (c.offset + extra) % 256 == 0
                        &&& c.offset + n <= c.offset + extra < c.offset + n + 256
                    }
                    &&& c.offset % 256 == 0 ==> extra % 256 == 0 && n <= extra < n + 256
                },
                Request::WriteKeys { start, end } => {
                    &&& c.offset + n <= length
                    &&& start == c.offset
                    &&& end == c.offset + n
                },
                _ => false,
            }
        }),
{
}

/// The new keys go behind what is active, then the new values to the same
/// positions; then all positions up to the last new one are handed out. A failure
/// ends the update.
pub proof fn law_writes_go_behind_what_is_active<A>(
    c: CacheState<A>,
    k: LayoutView,
    v: LayoutView,
    keys: Tensor<A>,
    values: Tensor<A>,
)
    requires
        k.shape.len() >= 2,
    ensures
        ({
            let start = c.offset as int;
            let end = c.offset + k.shape[k.shape.len() - 2];
            &&& c.request(k, v, UpdateEvent::Grown { keys, values }) == Request::WriteKeys {
                start,
                end,
            }
            &&& c.request(k, v, UpdateEvent::KeysWritten { keys }) == Request::WriteValues {
                start,
                end,
            }
            &&& c.request(k, v, UpdateEvent::ValuesWritten { values }) == Request::Fetch { end }
            &&& c.request(k, v, UpdateEvent::Failed) == Request::Stop
        }),
{
}

/// Each event changes just what it reports; the offset moves, by the number of the
/// new positions, with the last write alone.
pub proof fn law_offset_moves_with_the_last_write<A>(
    c: CacheState<A>,
    k: LayoutView,
    keys: Tensor<A>,
    values: Tensor<A>,
)
    requires
        k.shape.len() >= 2,
        0 <= c.offset,
        0 <= k.shape[k.shape.len() - 2] <= i32::MAX - c.offset,
    ensures
        c.after(k, UpdateEvent::Begin) == c,
        c.after(k, UpdateEvent::Failed) == c,
        ({
            let grown = c.after(k, UpdateEvent::Grown { keys, values });
            let half = c.after(k, UpdateEvent::KeysWritten { keys });
            let done = c.after(k, UpdateEvent::ValuesWritten { values });
            &&& grown.keys == Some(keys) && grown.values == Some(values)
            &&& grown.offset == c.offset
            &&& half.keys == Some(keys) && half.values == c.values && half.offset == c.offset
            &&& done.keys == c.keys && done.values == Some(values)
            &&& done.offset == c.offset + k.shape[k.shape.len() - 2]
        }),
{
}

/// A new cache has no buffers and no positions. Trimming takes away as many
/// positions as asked for, or all where there are fewer, and touches no buffer; to
/// trim twice is to trim by the sum.
pub proof fn law_trims_add_up<A>(c: CacheState<A>, a: int, b: int)
    requires
        0 <= c.offset,
        0 <= a,
        0 <= b,
    ensures
        CacheState::<A>::empty().keys is None,
        CacheState::<A>::empty().values is None,
        CacheState::<A>::empty().offset == 0,
        c.trimmed(0) == c,
        c.trimmed(a).keys == c.keys,
        c.trimmed(a).values == c.values,
        a <= c.offset ==> c.trimmed(a).offset == c.offset - a,
        a >= c.offset ==> c.trimmed(a).offset == 0,
        c.trimmed(a).trimmed(b) == c.trimmed(a + b),
{
}

/// A clone of a buffer has its layout, and a clone of its data; a clone of no
/// buffer is none.
pub proof fn law_cloned_buffer_is_like_the_buffer<A: Clone>(
    a: Option<Tensor<A>>,
    b: Option<Tensor<A>>,
)
    requires
        tensor_cloned(a, b),
    ensures
        a is Some <==> b is Some,
        a is Some ==> {
            &&& a->0.layout.shape@ == b->0.layout.shape@
            &&& a->0.layout.dtype == b->0.layout.dtype
            &&& cloned(a->0.data, b->0.data)
        },
{
}

/// `n` rounded up is the least whole number of blocks that is no less.
pub proof fn law_round_up_is_least(n: int)
    requires
        n >= 0,
    ensures
        round_up(n) % (STEP as int) == 0,
        n <= round_up(n) < n + STEP,
{
}

/// Trimming hides the last positions and keeps the others as they are.
pub proof fn law_trim_keeps_prefix<A, R>(
    c: CacheState<A>,
    count: int,
    axis: int,
    rows: spec_fn(A) -> Seq<R>,
)
    requires
        c.consistent(axis, rows),
        0 <= count,
    ensures
        c.trimmed(count).consistent(axis, rows),
        c.trimmed(count).active_keys(rows) == c.active_keys(rows).take(
            c.trimmed(count).offset as int,
        ),
        c.trimmed(count).active_values(rows) == c.active_values(rows).take(
            c.trimmed(count).offset as int,
        ),
        c.active_keys(rows).len() - c.trimmed(count).active_keys(rows).len() == (if count
            <= c.offset {
            count
        } else {
            c.offset as int
        }),
{
    let t = c.trimmed(count);
    assert(t.active_keys(rows) =~= c.active_keys(rows).take(t.offset as int));
    assert(t.active_values(rows) =~= c.active_values(rows).take(t.offset as int));
}

/// The cache once there is room: as it was, or with the grown buffers.
pub open spec fn readied<A>(
    c: CacheState<A>,
    k: LayoutView,
    grown: Option<(Tensor<A>, Tensor<A>)>,
) -> CacheState<A> {
    match grown {
        Some(g) => c.after(k, UpdateEvent::Grown { keys: g.0, values: g.1 }),
        None => c,
    }
}

/// Growth keeps what is active, and leaves room for what is to come.
proof fn lemma_growth<A, R>(
    c: CacheState<A>,
    k: LayoutView,
    v: LayoutView,
    keys: Tensor<A>,
    values: Tensor<A>,
    rows: spec_fn(A) -> Seq<R>,
    new_k: Seq<R>,
    new_v: Seq<R>,
)
    requires
        c.updatable(k, v, UpdateEvent::Begin),
        c.must_grow(k),
        c.consistent(sequence_axis(k.shape), rows),
        performed(
            c,
            c.request(k, v, UpdateEvent::Begin),
            UpdateEvent::Grown { keys, values },
            sequence_axis(k.shape),
            rows,
            new_k,
            new_v,
        ),
    ensures
        c.offset + new_positions(k.shape) <= rows(keys.data).len(),
        rows(keys.data).len() == rows(values.data).len(),
        rows(keys.data).take(c.offset as int) == c.active_keys(rows),
        rows(values.data).take(c.offset as int) == c.active_values(rows),
        rows(keys.data).len() % (STEP as nat) == 0,
        c.offset % STEP != 0 ==> rows(keys.data).len() == round_up(
            c.offset + new_positions(k.shape),
        ),
        c.offset % STEP == 0 ==> rows(keys.data).len() == held(c.keys, rows).len() + round_up(
            new_positions(k.shape),
        ),
{
    let extra = block(c.offset as int, new_positions(k.shape));
    assert(extra as i32 == extra);
    assert(extra >= new_positions(k.shape));
    let ek = extension(c.keys, c.offset as int);
    let ev = extension(c.values, c.offset as int);
    let pad_k = choose|pad: Seq<R>|
        pad.len() == extra && rows(keys.data) == #[trigger] extended(held(c.keys, rows), ek, pad);
    let pad_v = choose|pad: Seq<R>|
        pad.len() == extra && rows(values.data) == #[trigger] extended(
            held(c.values, rows),
            ev,
            pad,
        );
    assert(rows(keys.data) == extended(held(c.keys, rows), ek, pad_k));
    assert(rows(values.data) == extended(held(c.values, rows), ev, pad_v));
    assert(rows(keys.data).take(c.offset as int) =~= c.active_keys(rows));
    assert(rows(values.data).take(c.offset as int) =~= c.active_values(rows));
}

} // verus!
