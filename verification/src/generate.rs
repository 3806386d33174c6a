//! Token generation.
//!
//! A `Prefill` runs the model over all but the last prompt token, in chunks, and
//! seeds the first decode step with the last one. The `Generator` that comes out
//! of it then decodes one token after another, always one step ahead: the step
//! after the current one is scheduled before the current token is handed out.

use crate::cache::{CacheState, KvCache, Slice, Tensor};
use crate::error::{Fault, LmError};
use crate::meaning::Reading;
use crate::models::qwen3::Model;
use crate::plan::{realises, Plan, Step, Term};
use crate::sample::{
    law_token_is_chosen_from_penalised_logits, sample_from, sampled,
};
use crate::single::Single;
use std::collections::HashSet;
use vstd::prelude::*;

verus! {

broadcast use vstd::std_specs::hash::group_hash_axioms;

/// Number of decode steps after which the device's memory cache is released.
pub const CLEAR_CACHE_EVERY: usize = 256;

/// A generation that is still reading its prompt.
pub struct Prefill<'a, A> {
    prompt_ids: &'a [u32],
    cache: Vec<KvCache<A>>,
    max_tokens: usize,
    temp: Single,
    rep_penalty: Single,
    eos_ids: Vec<u32>,
    /// Most tokens in one chunk.
    step: usize,
    /// Number of prompt tokens that the model has read.
    consumed: usize,
    /// The offsets of the initial caches.
    start: Ghost<Seq<int>>,
}

/// The state of a generation that is still reading its prompt.
pub struct PrefillState<A> {
    pub prompt: Seq<u32>,
    pub cache: Seq<KvCache<A>>,
    pub max_tokens: nat,
    pub temp: Single,
    pub rep_penalty: Single,
    pub eos_ids: Seq<u32>,
    pub step: nat,
    pub consumed: nat,
    pub start: Seq<int>,
}

impl<'a, A> View for Prefill<'a, A> {
    type V = PrefillState<A>;

    closed spec fn view(&self) -> PrefillState<A> {
        PrefillState {
            prompt: self.prompt_ids@,
            cache: self.cache@,
            max_tokens: self.max_tokens as nat,
            temp: self.temp,
            rep_penalty: self.rep_penalty,
            eos_ids: self.eos_ids@,
            step: self.step as nat,
            consumed: self.consumed as nat,
            start: self.start@,
        }
    }
}

/// What is to be done next with the prompt.
#[derive(Clone, Copy, Debug, PartialEq, Eq, Structural)]
pub enum PrefillAction {
    /// Run the model over the tokens `start..end` of the prompt, evaluate the
    /// active slices of every layer, and release the device's memory cache.
    Feed { start: usize, end: usize },
    /// Run one decode step on the last prompt token, and schedule it.
    Seed { token: u32 },
    /// Nothing is left to do.
    Ready,
}

/// A running generation.
pub struct Generator<A> {
    cache: Vec<KvCache<A>>,
    temp: Single,
    rep_penalty: Single,
    generated_ids: HashSet<u32>,
    eos_ids: Vec<u32>,
    max_tokens: usize,
    produced: usize,
    /// The token whose computation is scheduled. Holding it as a device array
    /// lets the next step be built while the device still computes this one.
    pending: Option<A>,
    prompt: Ghost<Seq<u32>>,
    history: Ghost<Seq<u32>>,
    start: Ghost<Seq<int>>,
}

/// The state of a running generation: what it goes by, the prompt, the tokens
/// that were generated so far, in order, and the offsets of the initial caches.
pub struct GeneratorState<A> {
    pub cache: Seq<KvCache<A>>,
    pub temp: Single,
    pub rep_penalty: Single,
    pub generated: Set<u32>,
    pub eos_ids: Seq<u32>,
    pub max_tokens: nat,
    pub produced: nat,
    pub pending: Option<A>,
    pub prompt: Seq<u32>,
    pub history: Seq<u32>,
    pub start: Seq<int>,
}

impl<A> View for Generator<A> {
    type V = GeneratorState<A>;

    closed spec fn view(&self) -> GeneratorState<A> {
        GeneratorState {
            cache: self.cache@,
            temp: self.temp,
            rep_penalty: self.rep_penalty,
            generated: self.generated_ids@,
            eos_ids: self.eos_ids@,
            max_tokens: self.max_tokens as nat,
            produced: self.produced as nat,
            pending: self.pending,
            prompt: self.prompt@,
            history: self.history@,
            start: self.start@,
        }
    }
}

/// What is done with a token once it is known.
#[derive(Clone, Copy, Debug, PartialEq, Eq, Structural)]
pub struct Produced {
    /// The token to hand out; `None` at an end-of-sequence token.
    pub token: Option<u32>,
    /// Whether the device's memory cache is to be released.
    pub clear_cache: bool,
}

/// Index of the last prompt token, up to which the prompt is read in chunks.
pub open spec fn split(prompt: Seq<u32>) -> int {
    prompt.len() - 1
}

/// End of the chunk that starts at `consumed`.
pub open spec fn chunk_end(prompt: Seq<u32>, step: int, consumed: int) -> int {
    if consumed + step <= split(prompt) {
        consumed + step
    } else {
        split(prompt)
    }
}

/// The chunks in which the prompt is read from `consumed` on.
pub open spec fn chunks(prompt: Seq<u32>, step: int, consumed: int) -> Seq<Seq<u32>>
    decreases split(prompt) - consumed,
{
    if 0 <= consumed < split(prompt) && step > 0 {
        let end = chunk_end(prompt, step, consumed);
        seq![prompt.subrange(consumed, end)] + chunks(prompt, step, end)
    } else {
        Seq::empty()
    }
}

/// The active slices of one layer: of its keys, then of its values.
pub open spec fn layer_slices<A>(c: KvCache<A>) -> Seq<(Tensor<A>, i32)> {
    match (c@.keys, c@.values) {
        (Some(k), Some(v)) => seq![(k, c@.offset), (v, c@.offset)],
        _ => Seq::empty(),
    }
}

/// The active slices of all layers, in order.
pub open spec fn slices_of<A>(cache: Seq<KvCache<A>>) -> Seq<(Tensor<A>, i32)>
    decreases cache.len(),
{
    if cache.len() == 0 {
        Seq::empty()
    } else {
        slices_of(cache.drop_last()) + layer_slices(cache.last())
    }
}

/// The offsets of caches.
pub open spec fn offsets<A>(cache: Seq<KvCache<A>>) -> Seq<int> {
    cache.map_values(|c: KvCache<A>| c@.offset as int)
}

/// The cache of every layer has grown by `n` positions since its offset was that
/// of `start`.
pub open spec fn grown<A>(cache: Seq<KvCache<A>>, start: Seq<int>, n: int) -> bool {
    &&& cache.len() == start.len()
    &&& forall|i: int| 0 <= i < cache.len() ==> (#[trigger] cache[i])@.offset == start[i] + n
}

impl<A> PrefillState<A> {
    /// There is a prompt, chunks are not empty, no more than all but the last
    /// token was read in chunks, and every cache has grown by what was read and
    /// by `more` positions.
    pub open spec fn ahead(self, more: int) -> bool {
        &&& 0 < self.prompt.len() <= usize::MAX
        &&& 0 < self.step
        &&& self.consumed <= split(self.prompt)
        &&& grown(self.cache, self.start, self.consumed + more)
    }

    /// What holds between two actions.
    pub open spec fn wf(self) -> bool {
        self.ahead(0)
    }

    /// What is to be done next.
    pub open spec fn next_action(self) -> PrefillAction {
        if self.consumed < split(self.prompt) {
            PrefillAction::Feed {
                start: self.consumed as usize,
                end: chunk_end(self.prompt, self.step as int, self.consumed as int) as usize,
            }
        } else if self.max_tokens > 0 {
            PrefillAction::Seed { token: self.prompt.last() }
        } else {
            PrefillAction::Ready
        }
    }

    /// How many tokens the model reads in the next action.
    pub open spec fn next_count(self) -> int {
        match self.next_action() {
            PrefillAction::Feed { start, end } => end - start,
            PrefillAction::Seed { .. } => 1,
            PrefillAction::Ready => 0,
        }
    }

    /// The generation that begins when the prompt is read.
    pub open spec fn finished(self, pending: Option<A>) -> GeneratorState<A> {
        GeneratorState {
            cache: self.cache,
            temp: self.temp,
            rep_penalty: self.rep_penalty,
            generated: Set::empty(),
            eos_ids: self.eos_ids,
            max_tokens: self.max_tokens,
            produced: 0,
            pending,
            prompt: self.prompt,
            history: Seq::empty(),
            start: self.start,
        }
    }
}

impl<'a, A> Prefill<'a, A> {
    /// What is to be done next: the next chunk of the prompt, or, once only its
    /// last token is left, the first decode step, unless no token is wanted.
    pub fn action(&self) -> (r: PrefillAction)
        requires
            self@.wf(),
        ensures
            r == self@.next_action(),
    {
        let split: usize = self.prompt_ids.len() - 1;
        if self.consumed < split {
            PrefillAction::Feed { start: self.consumed, end: self.end() }
        } else if self.max_tokens > 0 {
            PrefillAction::Seed { token: self.prompt_ids[split] }
        } else {
            PrefillAction::Ready
        }
    }

    /// End of the next chunk.
    fn end(&self) -> (r: usize)
        requires
            0 < self@.prompt.len(),
            self@.consumed <= split(self@.prompt),
        ensures
            r == chunk_end(self@.prompt, self@.step as int, self@.consumed as int),
    {
        let split: usize = self.prompt_ids.len() - 1;
        if self.step <= split - self.consumed {
            self.consumed + self.step
        } else {
            split
        }
    }

    /// The prompt.
    pub fn prompt_ids(&self) -> (r: &'a [u32])
        ensures
            r@ == self@.prompt,
    {
        self.prompt_ids
    }

    /// The caches, for the model to append to.
    pub fn cache_mut(&mut self) -> (r: &mut Vec<KvCache<A>>)
        ensures
            r@ == old(self)@.cache,
            final(self)@ == (PrefillState { cache: final(r)@, ..old(self)@ }),
    {
        &mut self.cache
    }

    /// The model has read the chunk that was asked for, and appended it to the
    /// caches.
    pub fn chunk_done(&mut self)
        requires
            old(self)@.next_action() is Feed,
            old(self)@.ahead(old(self)@.next_count()),
        ensures
            final(self)@ == (PrefillState {
                consumed: old(self)@.next_action()->end as nat,
                ..old(self)@
            }),
            final(self)@.wf(),
    {
        let end: usize = self.end();
        self.consumed = end;
    }

    /// The active slices of every layer, which are evaluated after each chunk.
    pub fn active_slices(&self) -> (r: Vec<Slice<'_, A>>)
        ensures
            r@.map_values(|s: Slice<A>| (*s.of, s.end)) == slices_of(self@.cache),
    {
        let mut slices: Vec<Slice<'_, A>> = Vec::new();
        let ghost pair = |s: Slice<A>| (*s.of, s.end);
        for i in 0..self.cache.len()
            invariant
                pair == (|s: Slice<A>| (*s.of, s.end)),
                slices@.map_values(pair) =~= slices_of(self.cache@.take(i as int)),
        {
            proof {
                let upto = self.cache@.take(i + 1);
                assert(upto.drop_last() =~= self.cache@.take(i as int));
                assert(upto.last() == self.cache@[i as int]);
            }
            if let Some((k, v)) = self.cache[i].active() {
                slices.push(k);
                slices.push(v);
            }
        }
        assert(self.cache@.take(self.cache@.len() as int) =~= self.cache@);
        slices
    }

    /// The program of the first decode step: nothing was generated, so nothing is
    /// penalised.
    pub fn decode(&self, logits: &[i32]) -> (r: Result<Plan, LmError>)
        requires
            logits@.len() == 3,
            logits@[2] >= 0,
        ensures
            realises(decoded(logits@, self@.temp, self@.rep_penalty, Set::empty()), r),
    {
        step_decode(logits, self.temp, self.rep_penalty, &HashSet::new())
    }

    /// The generation, once its prompt is read. `pending` is the scheduled first
    /// token, for which the model has read the last prompt token and appended it
    /// to the caches; there is none where none is wanted.
    pub fn finish(self, pending: Option<A>) -> (r: Generator<A>)
        requires
            !(self@.next_action() is Feed),
            pending is Some <==> self@.next_action() is Seed,
            self@.ahead(self@.next_count()),
        ensures
            r@ == self@.finished(pending),
            r@.wf(),
    {
        let ghost prompt = self.prompt_ids@;
        proof {
            assert(Seq::<u32>::empty().to_set() =~= Set::empty());
            assert(prompt + Seq::<u32>::empty() =~= prompt);
        }
        Generator {
            cache: self.cache,
            temp: self.temp,
            rep_penalty: self.rep_penalty,
            generated_ids: HashSet::new(),
            eos_ids: self.eos_ids,
            max_tokens: self.max_tokens,
            produced: 0,
            pending,
            prompt: Ghost(prompt),
            history: Ghost(Seq::empty()),
            start: self.start,
        }
    }
}

/// What a decode step makes of logits of shape `[B, L, V]`: it chooses a token
/// from those of the last position.
pub open spec fn decoded(
    logits: Seq<i32>,
    temp: Single,
    rep_penalty: Single,
    generated: Set<u32>,
) -> Result<Term, Fault> {
    sampled(
        Term::Input.last_position(),
        seq![logits[0], logits[2]],
        temp,
        rep_penalty,
        generated,
    )
}

/// The program of one decode step, for logits of shape `[B, L, V]`.
fn step_decode(
    logits: &[i32],
    temp: Single,
    rep_penalty: Single,
    generated_ids: &HashSet<u32>,
) -> (r: Result<Plan, LmError>)
    requires
        logits@.len() == 3,
        logits@[2] >= 0,
    ensures
        realises(decoded(logits@, temp, rep_penalty, generated_ids@), r),
{
    let mut plan = Plan::new();
    let last: usize = plan.push(Step::LastPosition { x: 0 });
    let shape: Vec<i32> = vec![logits[0], logits[2]];
    assert(shape@ =~= seq![logits@[0], logits@[2]]);
    match sample_from(&mut plan, last, shape.as_slice(), temp, rep_penalty, generated_ids) {
        Ok(_) => Ok(plan),
        Err(e) => Err(e),
    }
}

impl<A> GeneratorState<A> {
    /// The tokens that the model has read on top of the initial caches: where
    /// tokens are wanted, the prompt and every generated token; else all but the
    /// last prompt token.
    pub open spec fn fed(self) -> Seq<u32> {
        if self.max_tokens > 0 {
            self.prompt + self.history
        } else {
            self.prompt.drop_last()
        }
    }

    /// The set of generated ids and their number are those of the history, which
    /// is no longer than wanted.
    pub open spec fn counted(self) -> bool {
        &&& self.generated == self.history.to_set()
        &&& self.produced == self.history.len()
        &&& self.produced <= self.max_tokens
        &&& self.prompt.len() > 0
    }

    /// What holds between two steps: the ids are counted, and, unless a step is
    /// under way or has failed, every cache has grown by the tokens that were
    /// read.
    pub open spec fn wf(self) -> bool {
        &&& self.counted()
        &&& self.pending is Some || self.max_tokens == 0 ==> grown(
            self.cache,
            self.start,
            self.fed().len() as int,
        )
    }

    /// A step is done up to its lookahead: the scheduled token was taken and read
    /// by the model, which has grown every cache by one.
    pub open spec fn one_ahead(self) -> bool {
        &&& self.counted()
        &&& self.pending is None
        &&& self.produced < self.max_tokens
        &&& grown(self.cache, self.start, self.fed().len() as int + 1)
    }

    /// The state after a step whose token turned out to be `token`, with the
    /// lookahead step `pending` scheduled.
    pub open spec fn completed(self, pending: A, token: u32) -> Self {
        GeneratorState {
            pending: Some(pending),
            generated: self.generated.insert(token),
            produced: self.produced + 1,
            history: self.history.push(token),
            ..self
        }
    }

    /// The state after a whole step, in which the model has turned the caches
    /// into `cache`.
    pub open spec fn stepped(self, cache: Seq<KvCache<A>>, pending: A, token: u32) -> Self {
        GeneratorState { pending: None, cache, ..self }.completed(pending, token)
    }
}

impl<A> Generator<A> {
    /// Starts a generation with empty caches.
    pub fn new<'a>(
        model: &Model,
        prompt_ids: &'a [u32],
        max_tokens: usize,
        temp: Single,
        rep_penalty: Single,
        eos_ids: Vec<u32>,
        prefill_step_size: usize,
    ) -> (r: Result<Prefill<'a, A>, LmError>)
        requires
            prefill_step_size > 0,
        ensures
            match r {
                Ok(p) => {
                    &&& prompt_ids@.len() > 0
                    &&& p@.wf()
                    &&& p@.cache.len() == model.model.layers@.len()
                    &&& forall|i: int|
                        0 <= i < p@.cache.len() ==> (#[trigger] p@.cache[i])@ == CacheState::<
                            A,
                        >::empty()
                    &&& p@ == (PrefillState {
                        prompt: prompt_ids@,
                        cache: p@.cache,
                        max_tokens: max_tokens as nat,
                        temp,
                        rep_penalty,
                        eos_ids: eos_ids@,
                        step: prefill_step_size as nat,
                        consumed: 0,
                        start: offsets(p@.cache),
                    })
                },
                Err(e) => prompt_ids@.len() == 0 && e@ == Fault::Config("empty prompt"@),
            },
    {
        let cache = model.make_cache();
        Self::new_with_cache(
            prompt_ids,
            cache,
            max_tokens,
            temp,
            rep_penalty,
            eos_ids,
            prefill_step_size,
        )
    }

    /// Starts a generation that continues `cache`. The prompt is read in chunks
    /// of at most `prefill_step_size` tokens.
    pub fn new_with_cache<'a>(
        prompt_ids: &'a [u32],
        cache: Vec<KvCache<A>>,
        max_tokens: usize,
        temp: Single,
        rep_penalty: Single,
        eos_ids: Vec<u32>,
        prefill_step_size: usize,
    ) -> (r: Result<Prefill<'a, A>, LmError>)
        requires
            prefill_step_size > 0,
        ensures
            match r {
                Ok(p) => {
                    &&& prompt_ids@.len() > 0
                    &&& p@.wf()
                    &&& p@ == (PrefillState {
                        prompt: prompt_ids@,
                        cache: cache@,
                        max_tokens: max_tokens as nat,
                        temp,
                        rep_penalty,
                        eos_ids: eos_ids@,
                        step: prefill_step_size as nat,
                        consumed: 0,
                        start: offsets(cache@),
                    })
                },
                Err(e) => prompt_ids@.len() == 0 && e@ == Fault::Config("empty prompt"@),
            },
    {
        if prompt_ids.len() == 0 {
            return Err(LmError::Config("empty prompt".to_owned()));
        }
        let start = Ghost(offsets(cache@));
        Ok(
            Prefill {
                prompt_ids,
                cache,
                max_tokens,
                temp,
                rep_penalty,
                eos_ids,
                step: prefill_step_size,
                consumed: 0,
                start,
            },
        )
    }

    /// Takes the scheduled token for the next decode step; `None` at the end, or
    /// after a step that failed. The model is run on that token, then the program
    /// that `decode` gives; then `complete` tells what to hand out.
    pub fn next(&mut self) -> (r: Option<A>)
        requires
            old(self)@.wf(),
        ensures
            r == (if old(self)@.produced >= old(self)@.max_tokens {
                None
            } else {
                old(self)@.pending
            }),
            final(self)@ == (if old(self)@.produced >= old(self)@.max_tokens {
                old(self)@
            } else {
                GeneratorState { pending: None, ..old(self)@ }
            }),
            final(self)@.wf(),
    {
        if self.produced >= self.max_tokens {
            return None;
        }
        self.pending.take()
    }

    /// The caches, for the model to append to.
    pub fn cache_mut(&mut self) -> (r: &mut Vec<KvCache<A>>)
        ensures
            r@ == old(self)@.cache,
            final(self)@ == (GeneratorState { cache: final(r)@, ..old(self)@ }),
    {
        &mut self.cache
    }

    /// The program of the lookahead step. The token that is being completed is not
    /// yet among those that are penalised.
    pub fn decode(&self, logits: &[i32]) -> (r: Result<Plan, LmError>)
        requires
            logits@.len() == 3,
            logits@[2] >= 0,
        ensures
            realises(decoded(logits@, self@.temp, self@.rep_penalty, self@.generated), r),
    {
        step_decode(logits, self.temp, self.rep_penalty, &self.generated_ids)
    }

    /// The lookahead step `pending` is scheduled, and the value of the token that
    /// `next` gave is known.
    pub fn complete(&mut self, pending: A, token: u32) -> (r: Produced)
        requires
            old(self)@.one_ahead(),
        ensures
            final(self)@ == old(self)@.completed(pending, token),
            final(self)@.wf(),
            r == (Produced {
                token: if old(self)@.eos_ids.contains(token) {
                    None
                } else {
                    Some(token)
                },
                clear_cache: (old(self)@.produced + 1) % (CLEAR_CACHE_EVERY as nat) == 0,
            }),
    {
        proof {
            lemma_completed_is_wf(self@, pending, token);
        }
        self.pending = Some(pending);
        self.generated_ids.insert(token);
        self.produced = self.produced + 1;
        self.history = Ghost(self.history@.push(token));
        let clear_cache = self.produced % CLEAR_CACHE_EVERY == 0;
        let token = if is_among(token, &self.eos_ids) {
            None
        } else {
            Some(token)
        };
        Produced { token, clear_cache }
    }

    /// The caches of all layers.
    pub fn into_cache(self) -> (r: Vec<KvCache<A>>)
        ensures
            r@ == self@.cache,
    {
        self.cache
    }
}

/// A completed step leaves the generation well-formed.
proof fn lemma_completed_is_wf<A>(g: GeneratorState<A>, pending: A, token: u32)
    requires
        g.one_ahead(),
    ensures
        g.completed(pending, token).wf(),
{
    let h = g.history;
    assert(h.push(token).to_set() =~= h.to_set().insert(token)) by {
        assert forall|x: u32| h.to_set().insert(token).contains(x) implies h.push(
            token,
        ).to_set().contains(x) by {
            if x == token {
                assert(h.push(token)[h.len() as int] == x);
            } else {
                let k = choose|k: int| 0 <= k < h.len() && h[k] == x;
                assert(h.push(token)[k] == x);
            }
        }
    }
}

/// Whether `ids` holds `token`.
fn is_among(token: u32, ids: &Vec<u32>) -> (r: bool)
    ensures
        r == ids@.contains(token),
{
    for i in 0..ids.len()
        invariant
            forall|k: int| 0 <= k < i ==> ids@[k] != token,
    {
        if ids[i] == token {
            return true;
        }
    }
    false
}

/// The chunks are, in order, all of the prompt but its last token; none is
/// empty, and none is longer than a step.
pub proof fn law_chunks_cover_prompt(prompt: Seq<u32>, step: int, consumed: int)
    requires
        step > 0,
        0 <= consumed <= split(prompt),
    ensures
        chunks(prompt, step, consumed).flatten() == prompt.subrange(consumed, split(prompt)),
        forall|i: int|
            0 <= i < chunks(prompt, step, consumed).len() ==> 0 < (#[trigger] chunks(
                prompt,
                step,
                consumed,
            )[i]).len() <= step,
    decreases split(prompt) - consumed,
{
    let all = chunks(prompt, step, consumed);
    if consumed < split(prompt) {
        let end = chunk_end(prompt, step, consumed);
        let rest = chunks(prompt, step, end);
        law_chunks_cover_prompt(prompt, step, end);
        assert(all.drop_first() =~= rest);
        assert(all.first() + rest.flatten() =~= prompt.subrange(consumed, split(prompt)));
        assert forall|i: int| 0 <= i < all.len() implies 0 < (#[trigger] all[i]).len() <= step by {
            if i > 0 {
                assert(all[i] == rest[i - 1]);
            }
        }
    } else {
        assert(all.flatten() =~= prompt.subrange(consumed, split(prompt)));
    }
}

/// A chunk that is asked for is the first of those that are left, and the others
/// are left once it is read.
pub proof fn law_prefill_reads_chunks<A>(p: PrefillState<A>)
    requires
        p.wf(),
    ensures
        match p.next_action() {
            PrefillAction::Feed { start, end } => chunks(
                p.prompt,
                p.step as int,
                start as int,
            ) == seq![p.prompt.subrange(start as int, end as int)] + chunks(
                p.prompt,
                p.step as int,
                end as int,
            ) && start == p.consumed,
            _ => chunks(p.prompt, p.step as int, p.consumed as int).len() == 0,
        },
{
}

/// Growth adds up: caches that have grown by `n` and then by `more` have grown by
/// both together.
pub proof fn law_growth_adds_up<A>(
    cache: Seq<KvCache<A>>,
    after: Seq<KvCache<A>>,
    start: Seq<int>,
    n: int,
    more: int,
)
    requires
        grown(cache, start, n),
        grown(after, offsets(cache), more),
    ensures
        grown(after, start, n + more),
{
    assert forall|i: int| 0 <= i < after.len() implies (#[trigger] after[i])@.offset == start[i] + (
    n + more) by {
        assert(cache[i]@.offset == start[i] + n);
        assert(offsets(cache)[i] == cache[i]@.offset);
    }
}

/// A pass of the model over the tokens of the next action, which grows every
/// cache by their number, is all that it takes to go on reading the prompt.
pub proof fn law_pass_completes_action<A>(p: PrefillState<A>, after: Seq<KvCache<A>>)
    requires
        p.wf(),
        grown(after, offsets(p.cache), p.next_count()),
    ensures
        (PrefillState { cache: after, ..p }).ahead(p.next_count()),
{
    law_growth_adds_up(p.cache, after, p.start, p.consumed as int, p.next_count());
}

/// A pass of the model over the scheduled token, which grows every cache by one,
/// is all that it takes to complete a step.
pub proof fn law_pass_completes_step<A>(g: GeneratorState<A>, after: Seq<KvCache<A>>)
    requires
        g.wf(),
        g.pending is Some,
        g.produced < g.max_tokens,
        grown(after, offsets(g.cache), 1),
    ensures
        (GeneratorState { pending: None, cache: after, ..g }).one_ahead(),
{
    law_growth_adds_up(g.cache, after, g.start, g.fed().len() as int, 1);
}

/// When the prompt is read, every cache has grown by its length, or by one less
/// where no token is wanted, whatever the size of the chunks was.
pub proof fn law_prompt_is_in_the_cache<A>(p: PrefillState<A>, pending: Option<A>)
    requires
        !(p.next_action() is Feed),
        p.ahead(p.next_count()),
    ensures
        grown(
            p.finished(pending).cache,
            p.start,
            if p.max_tokens > 0 {
                p.prompt.len() as int
            } else {
                p.prompt.len() - 1
            },
        ),
{
}

/// What happened in one step: the caches as the model left them, the lookahead
/// step that was scheduled, and the token.
pub struct StepTaken<A> {
    pub cache: Seq<KvCache<A>>,
    pub pending: A,
    pub token: u32,
}

/// The state after some steps.
pub open spec fn ran<A>(g: GeneratorState<A>, steps: Seq<StepTaken<A>>) -> GeneratorState<A>
    decreases steps.len(),
{
    if steps.len() == 0 {
        g
    } else {
        let s = steps.last();
        ran(g, steps.drop_last()).stepped(s.cache, s.pending, s.token)
    }
}

/// Each step was begun before the limit, and in each the model grew every cache
/// by the one token that it read.
pub open spec fn steps_succeed<A>(g: GeneratorState<A>, steps: Seq<StepTaken<A>>) -> bool {
    forall|i: int|
        0 <= i < steps.len() ==> {
            let before = ran(g, #[trigger] steps.take(i));
            &&& before.produced < before.max_tokens
            &&& grown(steps[i].cache, g.start, before.fed().len() as int + 1)
        }
}

/// A generation that has taken any number of steps without a failure, up to the
/// limit, has in every cache the prompt and every generated token, the last one
/// included: each has grown by that many positions. This is what `into_cache`
/// then gives.
pub proof fn law_cache_holds_every_token<A>(g: GeneratorState<A>, steps: Seq<StepTaken<A>>)
    requires
        g.wf(),
        g.pending is Some,
        g.max_tokens > 0,
        g.history.len() == 0,
        steps_succeed(g, steps),
    ensures
        ({
            let end = ran(g, steps);
            &&& end.wf()
            &&& end.pending is Some
            &&& end.history == steps.map_values(|s: StepTaken<A>| s.token)
            &&& end.produced == steps.len() <= g.max_tokens
            &&& end.prompt == g.prompt
            &&& end.start == g.start
            &&& end.max_tokens == g.max_tokens
            &&& grown(end.cache, g.start, g.prompt.len() as int + steps.len())
        }),
    decreases steps.len(),
{
    if steps.len() == 0 {
        assert(steps.map_values(|s: StepTaken<A>| s.token) =~= g.history);
    } else {
        let front = steps.drop_last();
        let s = steps.last();
        assert forall|i: int| 0 <= i < front.len() implies {
            let before = ran(g, #[trigger] front.take(i));
            &&& before.produced < before.max_tokens
            &&& grown(front[i].cache, g.start, before.fed().len() as int + 1)
        } by {
            assert(front.take(i) =~= steps.take(i));
        }
        law_cache_holds_every_token(g, front);
        let before = ran(g, front);
        assert(steps.take(steps.len() - 1) =~= front);
        let under_way = GeneratorState { pending: None, cache: s.cache, ..before };
        lemma_completed_is_wf(under_way, s.pending, s.token);
        assert(steps.map_values(|s: StepTaken<A>| s.token) =~= front.map_values(
            |s: StepTaken<A>| s.token,
        ).push(s.token));
    }
}

/// A step whose token ends the sequence hands nothing out, but counts, and its
/// token too is in every cache.
pub proof fn law_end_token_is_in_the_cache<A>(
    g: GeneratorState<A>,
    cache: Seq<KvCache<A>>,
    pending: A,
    token: u32,
)
    requires
        g.wf(),
        g.pending is Some,
        g.produced < g.max_tokens,
        g.eos_ids.contains(token),
        grown(cache, g.start, g.fed().len() as int + 1),
    ensures
        ({
            let after = g.stepped(cache, pending, token);
            &&& after.wf()
            &&& after.produced == g.produced + 1
            &&& after.cache.len() == g.cache.len()
            &&& forall|i: int|
                0 <= i < g.cache.len() ==> (#[trigger] after.cache[i])@.offset == g.cache[i]@.offset
                    + 1
        }),
{
    lemma_completed_is_wf(GeneratorState { pending: None, cache, ..g }, pending, token);
}

/// As long as more than the last token of the prompt is unread, the next chunk is
/// read: it begins with the first unread token and has as many tokens as a chunk
/// may have, or all that are left before the last one of the prompt. Then the first
/// step is taken on the last token, or nothing more where no token is wanted. All
/// the while every cache has grown by what was read.
pub proof fn law_prompt_is_read_step_by_step<A>(p: PrefillState<A>)
    requires
        p.wf(),
    ensures
        ({
            let last = p.prompt.len() - 1;
            match p.next_action() {
                PrefillAction::Feed { start, end } => {
                    &&& start == p.consumed
                    &&& start < end <= last
                    &&& end - start <= p.step
                    &&& end < last ==> end - start == p.step
                    &&& p.next_count() == end - start
                },
                PrefillAction::Seed { token } => {
                    &&& p.consumed == last
                    &&& p.max_tokens > 0
                    &&& token == p.prompt[last]
                    &&& p.next_count() == 1
                },
                PrefillAction::Ready => {
                    &&& p.consumed == last
                    &&& p.max_tokens == 0
                    &&& p.next_count() == 0
                },
            }
        }),
        p.cache.len() == p.start.len(),
        forall|i: int|
            0 <= i < p.cache.len() ==> (#[trigger] p.cache[i])@.offset == p.start[i] + p.consumed,
{
}

/// A generation begins with the caches and the settings that it was asked for, the
/// scheduled token, and nothing generated.
pub proof fn law_generation_begins_as_asked<A>(p: PrefillState<A>, pending: Option<A>)
    ensures
        ({
            let g = p.finished(pending);
            &&& g.cache == p.cache && g.prompt == p.prompt && g.start == p.start
            &&& g.temp == p.temp && g.rep_penalty == p.rep_penalty
            &&& g.eos_ids == p.eos_ids && g.max_tokens == p.max_tokens
            &&& g.pending == pending
            &&& g.produced == 0
            &&& g.history.len() == 0
            &&& forall|id: u32| !g.generated.contains(id)
        }),
{
}

/// A step adds its token to what was generated, counts it, and schedules the next
/// one; the settings stay.
pub proof fn law_step_adds_its_token<A>(
    g: GeneratorState<A>,
    cache: Seq<KvCache<A>>,
    pending: A,
    token: u32,
)
    ensures
        ({
            let after = g.stepped(cache, pending, token);
            &&& after.cache == cache && after.pending == Some(pending)
            &&& after.produced == g.produced + 1
            &&& after.history.len() == g.history.len() + 1
            &&& after.history.take(g.history.len() as int) == g.history
            &&& after.history[g.history.len() as int] == token
            &&& forall|id: u32|
                after.generated.contains(id) <==> g.generated.contains(id) || id == token
            &&& after.prompt == g.prompt && after.start == g.start
            &&& after.temp == g.temp && after.rep_penalty == g.rep_penalty
            &&& after.eos_ids == g.eos_ids && after.max_tokens == g.max_tokens
        }),
        ({
            let half = GeneratorState { pending: None, cache, ..g };
            half.completed(pending, token) == g.stepped(cache, pending, token)
        }),
{
    let after = g.stepped(cache, pending, token);
    assert(after.history.take(g.history.len() as int) =~= g.history);
}

/// After any number of steps the tokens that count as generated are those of the
/// steps, whether they were handed out or ended the sequence, and the settings are
/// those of the beginning.
pub proof fn law_generated_are_the_tokens_of_the_steps<A>(
    g: GeneratorState<A>,
    steps: Seq<StepTaken<A>>,
    id: u32,
)
    requires
        g.history.len() == 0,
        g.generated == Set::<u32>::empty(),
    ensures
        ({
            let end = ran(g, steps);
            &&& end.generated.contains(id) <==> exists|i: int|
                0 <= i < steps.len() && (#[trigger] steps[i]).token == id
            &&& end.temp == g.temp && end.rep_penalty == g.rep_penalty
            &&& end.eos_ids == g.eos_ids && end.max_tokens == g.max_tokens
        }),
    decreases steps.len(),
{
    if steps.len() > 0 {
        let front = steps.drop_last();
        law_generated_are_the_tokens_of_the_steps(g, front, id);
        let n = front.len() as int;
        if ran(g, front).generated.contains(id) {
            let i = choose|i: int| 0 <= i < front.len() && (#[trigger] front[i]).token == id;
            assert(steps[i].token == id);
        }
        if exists|i: int| 0 <= i < steps.len() && (#[trigger] steps[i]).token == id {
            let i = choose|i: int| 0 <= i < steps.len() && (#[trigger] steps[i]).token == id;
            if i < n {
                assert(front[i].token == id);
            }
        }
        assert(steps[n] == steps.last());
    }
}

/// A decode step chooses from the logits of the last position: of logits of shape
/// `[B, L, V]`, those of position `L - 1`, with what was generated before penalised
/// and the temperature applied as in any choice of a token.
pub proof fn law_decode_chooses_from_the_last_position<T>(
    m: Reading<T>,
    logits: Seq<i32>,
    temp: Single,
    rep_penalty: Single,
    generated: Set<u32>,
    row: int,
    id: int,
)
    requires
        logits.len() == 3,
        m.rows == logits[1],
        0 <= id < logits[2],
        decoded(logits, temp, rep_penalty, generated) is Ok,
        forall|y: T| #[trigger]
            (m.numbers.times)(y, (m.numbers.single)(Single { bits: 0x3f80_0000 })) == y,
        forall|y: T| #[trigger]
            (m.numbers.over)(y, (m.numbers.single)(Single { bits: 0x3f80_0000 })) == y,
    ensures
        ({
            let n = m.numbers;
            let logit = (m.input)(logits[1] - 1, id);
            let penalty = (n.single)(rep_penalty);
            let counted = if generated.contains(id as u32) {
                if (n.less)(logit, (n.single)(Single { bits: 0 })) {
                    (n.times)(logit, penalty)
                } else {
                    (n.over)(logit, penalty)
                }
            } else {
                logit
            };
            match decoded(logits, temp, rep_penalty, generated)->Ok_0 {
                Term::ArgMax { x } => {
                    &&& temp.bits == 0 || temp.bits == 0x8000_0000
                    &&& m.entry(*x, row, id) == counted
                },
                Term::Categorical { x } => {
                    &&& temp.bits != 0 && temp.bits != 0x8000_0000
                    &&& m.entry(*x, row, id) == (n.over)(counted, (n.single)(temp))
                },
                _ => false,
            }
        }),
{
    let last = Term::Input.last_position();
    assert(m.entry(Term::Input, m.rows - 1, id) == (m.input)(logits[1] - 1, id));
    assert(m.entry(last, row, id) == (m.input)(logits[1] - 1, id));
    law_token_is_chosen_from_penalised_logits(
        m,
        last,
        seq![logits[0], logits[2]],
        temp,
        rep_penalty,
        generated,
        row,
        id,
    );
}

/// The slices that are evaluated after a chunk are, layer by layer, the active keys
/// and then the active values; a layer without both buffers has none.
pub proof fn law_active_slices_come_by_layer<A>(
    a: Seq<KvCache<A>>,
    b: Seq<KvCache<A>>,
    c: KvCache<A>,
)
    ensures
        slices_of(Seq::<KvCache<A>>::empty()).len() == 0,
        match (c@.keys, c@.values) {
            (Some(k), Some(v)) => slices_of(seq![c]) == seq![(k, c@.offset), (v, c@.offset)],
            _ => slices_of(seq![c]).len() == 0,
        },
        slices_of(a + b) == slices_of(a) + slices_of(b),
    decreases b.len(),
{
    reveal_with_fuel(slices_of, 2);
    assert(seq![c].drop_last() =~= Seq::<KvCache<A>>::empty());
    assert(seq![c].last() == c);
    assert(slices_of(seq![c]) =~= layer_slices(c));
    if b.len() == 0 {
        assert(a + b =~= a);
        assert(slices_of(a) + slices_of(b) =~= slices_of(a));
    } else {
        law_active_slices_come_by_layer(a, b.drop_last(), c);
        assert((a + b).drop_last() =~= a + b.drop_last());
        assert((a + b).last() == b.last());
        assert(slices_of(a + b) =~= slices_of(a) + slices_of(b));
    }
}

/// Growth is of every layer: each cache holds that many positions more than at the
/// start. The device's memory cache is released every 256 steps.
pub proof fn law_growth_is_of_every_layer<A>(cache: Seq<KvCache<A>>, start: Seq<KvCache<A>>, n: int)
    ensures
        grown(cache, offsets(start), n) <==> cache.len() == start.len() && forall|i: int|
            0 <= i < cache.len() ==> (#[trigger] cache[i])@.offset == start[i]@.offset + n,
        CLEAR_CACHE_EVERY == 256,
{
    if cache.len() == start.len() && forall|i: int|
        0 <= i < cache.len() ==> (#[trigger] cache[i])@.offset == start[i]@.offset + n {
        assert forall|i: int| 0 <= i < cache.len() implies (#[trigger] cache[i])@.offset == offsets(
            start,
        )[i] + n by {}
    }
    if grown(cache, offsets(start), n) {
        assert forall|i: int| 0 <= i < cache.len() implies (#[trigger] cache[i])@.offset
            == start[i]@.offset + n by {
            assert(offsets(start)[i] == start[i]@.offset);
        }
    }
}

/// What a prefill asks for next, as `action` tells it: the next chunk, from the first
/// unread token and as long as may be, as long as more than the last token is
/// unread; then the first step on the last token, if a token is wanted.
pub proof fn law_action_reads_on<A>(p: Prefill<'_, A>, r: PrefillAction)
    requires
        p@.wf(),
        call_ensures(Prefill::<A>::action, (&p,), r),
    ensures
        match r {
            PrefillAction::Feed { start, end } => {
                &&& start == p@.consumed
                &&& start < end < p@.prompt.len()
                &&& end - start <= p@.step
                &&& end < p@.prompt.len() - 1 ==> end - start == p@.step
            },
            PrefillAction::Seed { token } => {
                &&& p@.consumed == p@.prompt.len() - 1
                &&& p@.max_tokens > 0
                &&& token == p@.prompt[p@.prompt.len() - 1]
            },
            PrefillAction::Ready => {
                p@.consumed == p@.prompt.len() - 1 && p@.max_tokens == 0
            },
        },
{
    law_prompt_is_read_step_by_step(p@);
}

} // verus!
