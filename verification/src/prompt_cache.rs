//! Reuse of key/value caches between prompts.
//!
//! Each entry remembers the caches that resulted from feeding a token sequence.
//! A new prompt is served from the entry that spares the most work: the rest of
//! the prompt is what still has to be fed.

use crate::cache::{tensor_cloned, CacheState, KvCache};
use std::collections::VecDeque;
use vstd::prelude::*;

verus! {

/// The caches of all layers after feeding `tokens`.
#[derive(Debug)]
pub struct PromptCacheEntry<A> {
    pub tokens: Vec<u32>,
    pub cache: Vec<KvCache<A>>,
}

/// Entries in the order in which they came, at most `max_size` of them.
#[derive(Debug)]
pub struct PromptCache<A> {
    entries: VecDeque<PromptCacheEntry<A>>,
    max_size: usize,
}

/// What a prompt cache holds: its entries, in order, and the most that it keeps.
pub struct PromptCacheState<A> {
    pub entries: Seq<PromptCacheEntry<A>>,
    pub max_size: int,
}

impl<A> View for PromptCache<A> {
    type V = PromptCacheState<A>;

    closed spec fn view(&self) -> PromptCacheState<A> {
        PromptCacheState { entries: self.entries@, max_size: self.max_size as int }
    }
}

/// Length of the longest prefix that two sequences share.
pub open spec fn shared_prefix(left: Seq<u32>, right: Seq<u32>) -> nat
    decreases left.len(),
{
    if left.len() == 0 || right.len() == 0 || left[0] != right[0] {
        0
    } else {
        1 + shared_prefix(left.drop_first(), right.drop_first())
    }
}

/// Two sequences agree on their shared prefix and not one element further.
pub proof fn lemma_shared_prefix(left: Seq<u32>, right: Seq<u32>)
    ensures
        shared_prefix(left, right) <= left.len(),
        shared_prefix(left, right) <= right.len(),
        forall|i: int|
            0 <= i < shared_prefix(left, right) ==> #[trigger] left[i] == #[trigger] right[i],
        shared_prefix(left, right) < left.len() && shared_prefix(left, right) < right.len()
            ==> left[shared_prefix(left, right) as int] != right[shared_prefix(left, right) as int],
    decreases left.len(),
{
    if left.len() == 0 || right.len() == 0 || left[0] != right[0] {
    } else {
        lemma_shared_prefix(left.drop_first(), right.drop_first());
        let n = shared_prefix(left.drop_first(), right.drop_first());
        assert forall|i: int| 0 <= i < shared_prefix(left, right) implies #[trigger] left[i]
            == #[trigger] right[i] by {
            if i > 0 {
                assert(left.drop_first()[i - 1] == right.drop_first()[i - 1]);
            }
        }
        if n + 1 < left.len() && n + 1 < right.len() {
            assert(left.drop_first()[n as int] == left[n as int + 1]);
            assert(right.drop_first()[n as int] == right[n as int + 1]);
        }
    }
}

/// A common prefix of the given length, ended by a difference or by the end of
/// a sequence, is the shared prefix.
proof fn lemma_shared_prefix_is(left: Seq<u32>, right: Seq<u32>, n: int)
    requires
        0 <= n <= left.len(),
        n <= right.len(),
        forall|i: int| 0 <= i < n ==> #[trigger] left[i] == #[trigger] right[i],
        n == left.len() || n == right.len() || left[n] != right[n],
    ensures
        shared_prefix(left, right) == n,
{
    lemma_shared_prefix(left, right);
    let m = shared_prefix(left, right);
    if m < n {
        assert(left[m as int] == right[m as int]);
    } else if n < m {
        assert(left[n] == right[n]);
    }
}

/// The shared prefix reaches to the end of `left` exactly if `left` is a prefix
/// of `right`.
proof fn lemma_shared_prefix_whole(left: Seq<u32>, right: Seq<u32>)
    ensures
        left.is_prefix_of(right) <==> shared_prefix(right, left) == left.len(),
{
    lemma_shared_prefix(right, left);
    if left.is_prefix_of(right) {
        assert forall|i: int| 0 <= i < left.len() implies #[trigger] right[i]
            == #[trigger] left[i] by {
            assert(right.subrange(0, left.len() as int)[i] == right[i]);
        }
        lemma_shared_prefix_is(right, left, left.len() as int);
    }
    if shared_prefix(right, left) == left.len() {
        assert(left =~= right.subrange(0, left.len() as int));
    }
}

/// Number of leading elements in which both slices agree.
pub fn common_prefix_len(left: &[u32], right: &[u32]) -> (r: usize)
    ensures
        r == shared_prefix(left@, right@),
{
    let mut n: usize = 0;
    while n < left.len() && n < right.len() && left[n] == right[n]
        invariant
            n <= left@.len(),
            n <= right@.len(),
            forall|i: int| 0 <= i < n ==> #[trigger] left@[i] == #[trigger] right@[i],
        decreases left@.len() - n,
    {
        n = n + 1;
    }
    proof {
        lemma_shared_prefix_is(left@, right@, n as int);
    }
    n
}

/// Whether `tokens` begins with `prefix`.
fn starts_with(tokens: &[u32], prefix: &[u32]) -> (r: bool)
    ensures
        r == prefix@.is_prefix_of(tokens@),
{
    proof {
        lemma_shared_prefix_whole(prefix@, tokens@);
    }
    common_prefix_len(tokens, prefix) == prefix.len()
}

/// Entry `i` is the first whose tokens are `t`.
pub open spec fn is_exact<A>(es: Seq<PromptCacheEntry<A>>, t: Seq<u32>, i: int) -> bool {
    &&& 0 <= i < es.len()
    &&& es[i].tokens@ == t
    &&& forall|j: int| 0 <= j < i ==> (#[trigger] es[j]).tokens@ != t
}

/// Entry `i`, longer than one token, is a prefix of `t`.
pub open spec fn is_prefix_entry<A>(es: Seq<PromptCacheEntry<A>>, t: Seq<u32>, i: int) -> bool {
    &&& 0 <= i < es.len()
    &&& es[i].tokens@.len() > 1
    &&& es[i].tokens@.is_prefix_of(t)
}

/// Among the first `n` entries, `i` is the longest that is a prefix of `t`; the
/// latest of them where several are equally long.
pub open spec fn is_shorter<A>(es: Seq<PromptCacheEntry<A>>, t: Seq<u32>, n: int, i: int) -> bool {
    &&& i < n
    &&& is_prefix_entry(es, t, i)
    &&& forall|j: int|
        j < n && #[trigger] is_prefix_entry(es, t, j) ==> {
            &&& es[j].tokens@.len() <= es[i].tokens@.len()
            &&& i < j ==> es[j].tokens@.len() < es[i].tokens@.len()
        }
}

/// Entry `i` serves `t` at least as well as entry `j`: it shares more tokens
/// with `t`, or as many and is shorter, or is as long and came first.
pub open spec fn serves_better<A>(
    es: Seq<PromptCacheEntry<A>>,
    t: Seq<u32>,
    i: int,
    j: int,
) -> bool {
    let a = shared_prefix(t, es[i].tokens@);
    let b = shared_prefix(t, es[j].tokens@);
    ||| b < a
    ||| b == a && es[i].tokens@.len() < es[j].tokens@.len()
    ||| b == a && es[i].tokens@.len() == es[j].tokens@.len() && i <= j
}

/// Among the first `n` entries, `i` shares the most tokens with `t`, and shares
/// some.
pub open spec fn is_closest<A>(es: Seq<PromptCacheEntry<A>>, t: Seq<u32>, n: int, i: int) -> bool {
    &&& 0 <= i < n
    &&& shared_prefix(t, es[i].tokens@) > 0
    &&& forall|j: int| 0 <= j < n ==> #[trigger] serves_better(es, t, i, j)
}

/// The entry that is exactly `t`, if there is one.
pub open spec fn exact<A>(es: Seq<PromptCacheEntry<A>>, t: Seq<u32>) -> Option<int> {
    if exists|i: int| is_exact(es, t, i) {
        Some(choose|i: int| is_exact(es, t, i))
    } else {
        None
    }
}

/// The longest entry that is a prefix of `t`, if there is one.
pub open spec fn shorter<A>(es: Seq<PromptCacheEntry<A>>, t: Seq<u32>, n: int) -> Option<int> {
    if exists|i: int| is_shorter(es, t, n, i) {
        Some(choose|i: int| is_shorter(es, t, n, i))
    } else {
        None
    }
}

/// The entry that shares the most tokens with `t`, if any shares some.
pub open spec fn closest<A>(es: Seq<PromptCacheEntry<A>>, t: Seq<u32>, n: int) -> Option<int> {
    if exists|i: int| is_closest(es, t, n, i) {
        Some(choose|i: int| is_closest(es, t, n, i))
    } else {
        None
    }
}

/// Where the caches for a prompt come from.
pub enum Source {
    /// The entry has the very tokens of the prompt.
    Exact(int),
    /// The entry, cut back to its first `kept` tokens.
    Cut { entry: int, kept: int },
    /// The entry as it is: its tokens are a prefix of the prompt.
    Prefix(int),
    /// No entry helps.
    Nothing,
}

/// The source that serves prompt `t` best. An entry that shares more with the
/// prompt than every prefix entry does is cut back, to one token less than the
/// prompt at most: there is always a token left to feed.
pub open spec fn source<A>(es: Seq<PromptCacheEntry<A>>, t: Seq<u32>) -> Source {
    let n = es.len() as int;
    let prefix_len = match shorter(es, t, n) {
        Some(i) => es[i].tokens@.len(),
        None => 0,
    };
    if exact(es, t) is Some {
        Source::Exact(exact(es, t)->0)
    } else if t.len() == 0 {
        Source::Nothing
    } else if closest(es, t, n) is Some && shared_prefix(t, es[closest(es, t, n)->0].tokens@)
        > prefix_len {
        let entry = closest(es, t, n)->0;
        let common = shared_prefix(t, es[entry].tokens@) as int;
        Source::Cut { entry, kept: if common < t.len() { common } else { t.len() - 1 } }
    } else if shorter(es, t, n) is Some {
        Source::Prefix(shorter(es, t, n)->0)
    } else {
        Source::Nothing
    }
}

/// `b` is a clone of the layers `a`, each without its last `trim` positions.
pub open spec fn layers_cloned<A: Clone>(
    a: Seq<KvCache<A>>,
    b: Seq<KvCache<A>>,
    trim: int,
) -> bool {
    &&& a.len() == b.len()
    &&& forall|i: int|
        0 <= i < a.len() ==> {
            let from = #[trigger] a[i]@.trimmed(trim);
            &&& b[i]@.offset == from.offset
            &&& tensor_cloned(from.keys, b[i]@.keys)
            &&& tensor_cloned(from.values, b[i]@.values)
        }
}

/// A fetch for prompt `t` may give these caches, or none, and this rest of the
/// prompt.
pub open spec fn fetched<A: Clone>(
    es: Seq<PromptCacheEntry<A>>,
    t: Seq<u32>,
    layers: Option<Seq<KvCache<A>>>,
    rest: Seq<u32>,
) -> bool {
    match (source(es, t), layers) {
        (Source::Exact(i), Some(b)) => {
            layers_cloned(es[i].cache@, b, 0) && rest == Seq::<u32>::empty()
        },
        (Source::Cut { entry, kept }, Some(b)) => {
            &&& layers_cloned(es[entry].cache@, b, es[entry].tokens@.len() - kept)
            &&& rest == t.skip(kept)
        },
        (Source::Prefix(i), Some(b)) => {
            &&& layers_cloned(es[i].cache@, b, 0)
            &&& rest == t.skip(es[i].tokens@.len() as int)
        },
        (Source::Nothing, None) => rest == t,
        _ => false,
    }
}

/// Tells the entries whose tokens are not a prefix of `t`.
pub open spec fn not_prefix_of<A>(t: Seq<u32>) -> spec_fn(PromptCacheEntry<A>) -> bool {
    |e: PromptCacheEntry<A>| !e.tokens@.is_prefix_of(t)
}

/// The entries after `entry` came: without the ones it supersedes, and only the
/// latest `max_size`.
pub open spec fn inserted<A>(
    es: Seq<PromptCacheEntry<A>>,
    entry: PromptCacheEntry<A>,
    max_size: int,
) -> Seq<PromptCacheEntry<A>> {
    let all = es.filter(not_prefix_of(entry.tokens@)).push(entry);
    if all.len() <= max_size {
        all
    } else {
        all.skip(all.len() - max_size)
    }
}

/// No offset is negative.
pub open spec fn offsets_valid<A>(layers: Seq<KvCache<A>>) -> bool {
    forall|i: int| 0 <= i < layers.len() ==> (#[trigger] layers[i])@.offset >= 0
}

/// Clones of the layers, each without its last `trim` positions.
fn copy_layers<A: Clone>(layers: &Vec<KvCache<A>>, trim: usize) -> (r: Vec<KvCache<A>>)
    requires
        offsets_valid(layers@),
    ensures
        layers_cloned(layers@, r@, trim as int),
{
    let mut out: Vec<KvCache<A>> = Vec::new();
    let mut i: usize = 0;
    while i < layers.len()
        invariant
            i <= layers@.len(),
            out@.len() == i,
            offsets_valid(layers@),
            layers_cloned(layers@.take(i as int), out@, trim as int),
        decreases layers@.len() - i,
    {
        let mut layer = layers[i].clone();
        layer.trim(trim);
        let ghost before = out@;
        out.push(layer);
        assert forall|j: int| 0 <= j < i + 1 implies {
            let from = #[trigger] layers@.take(i + 1)[j]@.trimmed(trim as int);
            &&& out@[j]@.offset == from.offset
            &&& tensor_cloned(from.keys, out@[j]@.keys)
            &&& tensor_cloned(from.values, out@[j]@.values)
        } by {
            if j < i {
                assert(layers@.take(i as int)[j]@.trimmed(trim as int) == layers@.take(
                    i + 1,
                )[j]@.trimmed(trim as int));
                assert(out@[j] == before[j]);
            }
        }
        i = i + 1;
    }
    assert(layers@.take(i as int) =~= layers@);
    out
}

impl<A> PromptCacheState<A> {
    /// What every operation keeps: a bound on the entries, no entry that is a
    /// prefix of a later one, and valid offsets.
    pub open spec fn wf(self) -> bool {
        &&& 0 < self.max_size
        &&& self.entries.len() <= self.max_size
        &&& forall|i: int, j: int|
            0 <= i < j < self.entries.len() ==> {
                !(#[trigger] self.entries[i]).tokens@.is_prefix_of(
                    (#[trigger] self.entries[j]).tokens@,
                )
            }
        &&& forall|i: int|
            0 <= i < self.entries.len() ==> offsets_valid((#[trigger] self.entries[i]).cache@)
    }

    /// The cache once `entry` has come.
    pub open spec fn insert(self, entry: PromptCacheEntry<A>) -> Self {
        PromptCacheState { entries: inserted(self.entries, entry, self.max_size), ..self }
    }
}

impl<A> PromptCache<A> {
    /// An empty cache for at most `max_size` prompts.
    pub fn new(max_size: usize) -> (r: Self)
        requires
            max_size > 0,
        ensures
            r@ == (PromptCacheState::<A> { entries: Seq::empty(), max_size: max_size as int }),
            r@.wf(),
    {
        PromptCache { entries: VecDeque::new(), max_size }
    }

    /// Number of entries.
    pub fn len(&self) -> (r: usize)
        ensures
            r == self@.entries.len(),
    {
        self.entries.len()
    }

    /// Remembers `cache` for `tokens`. Entries whose tokens are a prefix of
    /// `tokens`, or equal to them, are superseded; beyond `max_size` the oldest
    /// entries go.
    pub fn insert(&mut self, tokens: Vec<u32>, cache: Vec<KvCache<A>>)
        requires
            old(self)@.wf(),
            offsets_valid(cache@),
        ensures
            final(self)@.wf(),
            final(self)@ == old(self)@.insert((PromptCacheEntry { tokens, cache })),
    {
        let ghost es = self@.entries;
        let ghost keeps = not_prefix_of::<A>(tokens@);
        let n: usize = self.entries.len();
        let mut i: usize = 0;
        assert(self@.entries =~= es.skip(0) + es.take(0).filter(keeps));
        while i < n
            invariant
                i <= n,
                n == es.len(),
                self.max_size == old(self).max_size,
                keeps == not_prefix_of::<A>(tokens@),
                self@.entries == es.skip(i as int) + es.take(i as int).filter(keeps),
            decreases n - i,
        {
            let entry = self.entries.pop_front();
            assert(es.take(i + 1).drop_last() =~= es.take(i as int));
            assert(es.take(i + 1).last() == es[i as int]);
            proof {
                reveal_with_fuel(Seq::filter, 2);
            }
            if let Some(entry) = entry {
                assert(entry == es[i as int]);
                let superseded = starts_with(tokens.as_slice(), entry.tokens.as_slice());
                if !superseded {
                    self.entries.push_back(entry);
                }
            }
            assert(self@.entries =~= es.skip(i + 1) + es.take(i + 1).filter(keeps));
            i = i + 1;
        }
        let ghost kept = es.filter(keeps);
        assert(es.take(n as int) =~= es);
        assert(self@.entries =~= kept);
        let ghost entry = PromptCacheEntry { tokens, cache };
        self.entries.push_back(PromptCacheEntry { tokens, cache });
        let ghost all = kept.push(entry);
        assert(self@.entries == all);
        assert(all =~= all.skip(0));
        let ghost mut dropped: int = 0;
        while self.entries.len() > self.max_size
            invariant
                self.max_size == old(self).max_size,
                self.max_size > 0,
                0 <= dropped <= all.len(),
                self@.entries == all.skip(dropped),
                dropped > 0 ==> self@.entries.len() >= self.max_size,
            decreases self@.entries.len(),
        {
            let _oldest = self.entries.pop_front();
            proof {
                dropped = dropped + 1;
                assert(self@.entries =~= all.skip(dropped));
            }
        }
        proof {
            lemma_insert_keeps_order(es, entry, old(self)@.max_size);
        }
    }

    fn find_exact(&self, tokens: &[u32]) -> (r: Option<usize>)
        ensures
            match r {
                Some(i) => is_exact(self@.entries, tokens@, i as int),
                None => forall|i: int| !is_exact(self@.entries, tokens@, i),
            },
    {
        let mut i: usize = 0;
        while i < self.entries.len()
            invariant
                i <= self@.entries.len(),
                forall|j: int| 0 <= j < i ==> (#[trigger] self@.entries[j]).tokens@ != tokens@,
            decreases self@.entries.len() - i,
        {
            let entry = &self.entries[i];
            let same = entry.tokens.len() == tokens.len() && starts_with(
                tokens,
                entry.tokens.as_slice(),
            );
            assert(same == (entry.tokens@ == tokens@)) by {
                if same {
                    assert(entry.tokens@ =~= tokens@.subrange(0, entry.tokens@.len() as int));
                    assert(entry.tokens@ =~= tokens@);
                }
                if entry.tokens@ == tokens@ {
                    assert(entry.tokens@ =~= tokens@.subrange(0, entry.tokens@.len() as int));
                }
            }
            if same {
                return Some(i);
            }
            i = i + 1;
        }
        None
    }

    fn find_shorter(&self, tokens: &[u32]) -> (r: Option<usize>)
        ensures
            match r {
                Some(i) => is_shorter(
                    self@.entries,
                    tokens@,
                    self@.entries.len() as int,
                    i as int,
                ),
                None => forall|i: int| !is_prefix_entry(self@.entries, tokens@, i),
            },
    {
        let mut best: Option<usize> = None;
        let mut i: usize = 0;
        while i < self.entries.len()
            invariant
                i <= self@.entries.len(),
                match best {
                    Some(b) => is_shorter(self@.entries, tokens@, i as int, b as int),
                    None => forall|j: int|
                        j < i ==> !(#[trigger] is_prefix_entry(self@.entries, tokens@, j)),
                },
            decreases self@.entries.len() - i,
        {
            let entry = &self.entries[i];
            let fits = entry.tokens.len() > 1 && starts_with(tokens, entry.tokens.as_slice());
            assert(fits == is_prefix_entry(self@.entries, tokens@, i as int));
            if fits {
                best = match best {
                    Some(b) => if self.entries[b].tokens.len() <= entry.tokens.len() {
                        Some(i)
                    } else {
                        Some(b)
                    },
                    None => Some(i),
                };
            }
            i = i + 1;
        }
        best
    }

    fn find_closest(&self, tokens: &[u32]) -> (r: Option<(usize, usize)>)
        ensures
            match r {
                Some((i, common)) => {
                    &&& is_closest(
                        self@.entries,
                        tokens@,
                        self@.entries.len() as int,
                        i as int,
                    )
                    &&& common == shared_prefix(tokens@, self@.entries[i as int].tokens@)
                },
                None => forall|i: int|
                    0 <= i < self@.entries.len() ==> shared_prefix(
                        tokens@,
                        (#[trigger] self@.entries[i]).tokens@,
                    ) == 0,
            },
    {
        let mut common: usize = 0;
        let mut longer: Option<usize> = None;
        let mut i: usize = 0;
        while i < self.entries.len()
            invariant
                i <= self@.entries.len(),
                match longer {
                    Some(b) => {
                        &&& is_closest(self@.entries, tokens@, i as int, b as int)
                        &&& common == shared_prefix(tokens@, self@.entries[b as int].tokens@)
                    },
                    None => common == 0 && forall|j: int|
                        0 <= j < i ==> shared_prefix(
                            tokens@,
                            (#[trigger] self@.entries[j]).tokens@,
                        ) == 0,
                },
            decreases self@.entries.len() - i,
        {
            let entry = &self.entries[i];
            let prefix: usize = common_prefix_len(tokens, entry.tokens.as_slice());
            let ghost before = longer;
            if prefix != 0 {
                let prefer = prefix > common || (prefix == common && match longer {
                    Some(b) => entry.tokens.len() < self.entries[b].tokens.len(),
                    None => true,
                });
                if prefer {
                    common = prefix;
                    longer = Some(i);
                }
            }
            proof {
                if let Some(b) = longer {
                    assert forall|j: int| 0 <= j < i + 1 implies #[trigger] serves_better(
                        self@.entries,
                        tokens@,
                        b as int,
                        j,
                    ) by {
                        if let Some(a) = before {
                            assert(j < i ==> serves_better(self@.entries, tokens@, a as int, j));
                        } else {
                            assert(j < i ==> shared_prefix(tokens@, self@.entries[j].tokens@) == 0);
                        }
                    }
                }
            }
            i = i + 1;
        }
        match longer {
            Some(b) => Some((b, common)),
            None => None,
        }
    }
}

impl<A: Clone> PromptCache<A> {
    /// The caches from which prompt `tokens` can go on, if an entry helps, and
    /// the tokens that still have to be fed.
    pub fn fetch_nearest(&self, tokens: &[u32]) -> (r: (Option<Vec<KvCache<A>>>, Vec<u32>))
        requires
            self@.wf(),
        ensures
            match source(self@.entries, tokens@) {
                Source::Exact(i) => {
                    &&& r.0 matches Some(layers) && layers_cloned(
                        self@.entries[i].cache@,
                        layers@,
                        0,
                    )
                    &&& r.1@ == Seq::<u32>::empty()
                },
                Source::Cut { entry, kept } => {
                    &&& r.0 matches Some(layers) && layers_cloned(
                        self@.entries[entry].cache@,
                        layers@,
                        self@.entries[entry].tokens@.len() - kept,
                    )
                    &&& r.1@ == tokens@.skip(kept)
                },
                Source::Prefix(i) => {
                    &&& r.0 matches Some(layers) && layers_cloned(
                        self@.entries[i].cache@,
                        layers@,
                        0,
                    )
                    &&& r.1@ == tokens@.skip(self@.entries[i].tokens@.len() as int)
                },
                Source::Nothing => {
                    &&& r.0 is None
                    &&& r.1@ == tokens@
                },
            },
            fetched(
                self@.entries,
                tokens@,
                match r.0 {
                    Some(layers) => Some(layers@),
                    None => None,
                },
                r.1@,
            ),
    {
        let ghost es = self@.entries;
        let ghost t = tokens@;
        let ghost n = es.len() as int;
        if let Some(i) = self.find_exact(tokens) {
            proof {
                lemma_exact_unique(es, t, i as int);
            }
            return (Some(copy_layers(&self.entries[i].cache, 0)), Vec::new());
        }
        if tokens.len() == 0 {
            return (None, Vec::new());
        }
        let shorter_entry = self.find_shorter(tokens);
        let shorter_len: usize = match shorter_entry {
            Some(i) => self.entries[i].tokens.len(),
            None => 0,
        };
        proof {
            match shorter_entry {
                Some(i) => lemma_shorter_unique(es, t, n, i as int),
                None => assert(shorter(es, t, n) is None),
            }
        }
        let longer_entry = self.find_closest(tokens);
        proof {
            match longer_entry {
                Some((i, common)) => lemma_closest_unique(es, t, n, i as int),
                None => assert(closest(es, t, n) is None),
            }
        }
        if let Some((i, common)) = longer_entry {
            if common > shorter_len {
                let prefix: usize = if tokens.len() - 1 < common {
                    tokens.len() - 1
                } else {
                    common
                };
                let entry = &self.entries[i];
                proof {
                    lemma_shared_prefix(t, entry.tokens@);
                }
                let trim: usize = entry.tokens.len() - prefix;
                return (
                    Some(copy_layers(&entry.cache, trim)),
                    tail(tokens, prefix),
                );
            }
        }
        if let Some(i) = shorter_entry {
            let entry = &self.entries[i];
            return (Some(copy_layers(&entry.cache, 0)), tail(tokens, entry.tokens.len()));
        }
        assert(t.skip(0) =~= t);
        (None, tail(tokens, 0))
    }
}

/// The tokens from position `from` on.
fn tail(tokens: &[u32], from: usize) -> (r: Vec<u32>)
    requires
        from <= tokens@.len(),
    ensures
        r@ == tokens@.skip(from as int),
{
    vstd::slice::slice_to_vec(vstd::slice::slice_subrange(tokens, from, tokens.len()))
}

/// What is left by a filter was there before.
proof fn lemma_filter_source<E>(s: Seq<E>, pred: spec_fn(E) -> bool, i: int)
    requires
        0 <= i < s.filter(pred).len(),
    ensures
        exists|a: int| 0 <= a < s.len() && #[trigger] s[a] == s.filter(pred)[i],
    decreases s.len(),
{
    reveal(Seq::filter);
    if s.len() > 0 {
        let r = s.drop_last();
        if i < r.filter(pred).len() {
            lemma_filter_source(r, pred, i);
            let a = choose|a: int| 0 <= a < r.len() && #[trigger] r[a] == r.filter(pred)[i];
            assert(s[a] == s.filter(pred)[i]);
        } else {
            assert(s[s.len() - 1] == s.filter(pred)[i]);
        }
    }
}

/// Filtering keeps elements in order.
proof fn lemma_filter_order<E>(s: Seq<E>, pred: spec_fn(E) -> bool, i: int, j: int)
    requires
        0 <= i < j < s.filter(pred).len(),
    ensures
        exists|a: int, b: int|
            0 <= a < b < s.len() && #[trigger] s[a] == s.filter(pred)[i] && #[trigger] s[b]
                == s.filter(pred)[j],
    decreases s.len(),
{
    reveal(Seq::filter);
    if s.len() > 0 {
        let r = s.drop_last();
        if j < r.filter(pred).len() {
            lemma_filter_order(r, pred, i, j);
            let (a, b) = choose|a: int, b: int|
                0 <= a < b < r.len() && #[trigger] r[a] == r.filter(pred)[i] && #[trigger] r[b]
                    == r.filter(pred)[j];
            assert(s[a] == s.filter(pred)[i] && s[b] == s.filter(pred)[j]);
        } else {
            lemma_filter_source(r, pred, i);
            let a = choose|a: int| 0 <= a < r.len() && #[trigger] r[a] == r.filter(pred)[i];
            let b = s.len() - 1;
            assert(s[a] == s.filter(pred)[i] && s[b] == s.filter(pred)[j]);
        }
    }
}

/// Inserting keeps what `wf` says of the entries.
proof fn lemma_insert_keeps_order<A>(
    es: Seq<PromptCacheEntry<A>>,
    entry: PromptCacheEntry<A>,
    max_size: int,
)
    requires
        0 < max_size,
        offsets_valid(entry.cache@),
        forall|i: int, j: int|
            0 <= i < j < es.len() ==> !(#[trigger] es[i]).tokens@.is_prefix_of(
                (#[trigger] es[j]).tokens@,
            ),
        forall|i: int| 0 <= i < es.len() ==> offsets_valid((#[trigger] es[i]).cache@),
    ensures
        ({
            let r = inserted(es, entry, max_size);
            &&& 0 < r.len() <= max_size
            &&& r.last() == entry
            &&& forall|i: int, j: int|
                0 <= i < j < r.len() ==> !(#[trigger] r[i]).tokens@.is_prefix_of(
                    (#[trigger] r[j]).tokens@,
                )
            &&& forall|i: int| 0 <= i < r.len() ==> offsets_valid((#[trigger] r[i]).cache@)
        }),
{
    let pred = not_prefix_of::<A>(entry.tokens@);
    let kept = es.filter(pred);
    let all = kept.push(entry);
    assert forall|i: int, j: int| 0 <= i < j < all.len() implies !(
    #[trigger] all[i]).tokens@.is_prefix_of((#[trigger] all[j]).tokens@) by {
        if j < kept.len() {
            lemma_filter_order(es, pred, i, j);
        } else {
            es.lemma_filter_pred(pred, i);
        }
    }
    assert forall|i: int| 0 <= i < all.len() implies offsets_valid((#[trigger] all[i]).cache@) by {
        if i < kept.len() {
            lemma_filter_source(es, pred, i);
        }
    }
}

proof fn lemma_exact_unique<A>(es: Seq<PromptCacheEntry<A>>, t: Seq<u32>, i: int)
    requires
        is_exact(es, t, i),
    ensures
        exact(es, t) == Some(i),
{
    let j = choose|j: int| is_exact(es, t, j);
    assert(is_exact(es, t, j));
    if j < i {
        assert(es[j].tokens@ != t);
    }
    if i < j {
        assert(es[i].tokens@ != t);
    }
}

proof fn lemma_shorter_unique<A>(es: Seq<PromptCacheEntry<A>>, t: Seq<u32>, n: int, i: int)
    requires
        is_shorter(es, t, n, i),
    ensures
        shorter(es, t, n) == Some(i),
{
    let j = choose|j: int| is_shorter(es, t, n, j);
    assert(is_shorter(es, t, n, j));
    assert(is_prefix_entry(es, t, i) && is_prefix_entry(es, t, j));
}

proof fn lemma_closest_unique<A>(es: Seq<PromptCacheEntry<A>>, t: Seq<u32>, n: int, i: int)
    requires
        is_closest(es, t, n, i),
    ensures
        closest(es, t, n) == Some(i),
{
    let j = choose|j: int| is_closest(es, t, n, j);
    assert(is_closest(es, t, n, j));
    assert(serves_better(es, t, i, j) && serves_better(es, t, j, i));
}

/// If some of the first `n` entries share tokens with `t`, one shares the most.
proof fn lemma_closest_exists<A>(es: Seq<PromptCacheEntry<A>>, t: Seq<u32>, n: int, j: int)
    requires
        0 <= j < n <= es.len(),
        shared_prefix(t, es[j].tokens@) > 0,
    ensures
        exists|i: int| is_closest(es, t, n, i),
    decreases n,
{
    let last = n - 1;
    if exists|k: int| 0 <= k < last && shared_prefix(t, (#[trigger] es[k]).tokens@) > 0 {
        let k = choose|k: int| 0 <= k < last && shared_prefix(t, (#[trigger] es[k]).tokens@) > 0;
        lemma_closest_exists(es, t, last, k);
        let b = choose|b: int| is_closest(es, t, last, b);
        let i = if serves_better(es, t, b, last) {
            b
        } else {
            last
        };
        assert forall|m: int| 0 <= m < n implies #[trigger] serves_better(es, t, i, m) by {
            assert(m < last ==> serves_better(es, t, b, m));
        }
        assert(is_closest(es, t, n, i));
    } else {
        assert forall|m: int| 0 <= m < n implies #[trigger] serves_better(es, t, j, m) by {
            assert(m < last ==> shared_prefix(t, es[m].tokens@) == 0);
        }
        assert(is_closest(es, t, n, j));
    }
}

/// How many tokens of the prompt a source spares.
pub open spec fn spared<A>(es: Seq<PromptCacheEntry<A>>, t: Seq<u32>) -> int {
    match source(es, t) {
        Source::Exact(i) => t.len() as int,
        Source::Cut { entry, kept } => kept,
        Source::Prefix(i) => es[i].tokens@.len() as int,
        Source::Nothing => 0,
    }
}

/// Whatever is fetched continues the prompt: the chosen entry begins with the
/// spared tokens, what is to be fed is the rest of the prompt, and unless the
/// whole prompt was remembered at least one token is left to feed.
pub proof fn law_fetch_continues_prompt<A>(es: Seq<PromptCacheEntry<A>>, t: Seq<u32>)
    ensures
        0 <= spared(es, t) <= t.len(),
        t.len() > 0 && !(source(es, t) is Exact) ==> spared(es, t) < t.len(),
        match source(es, t) {
            Source::Exact(i) => 0 <= i < es.len() && es[i].tokens@ == t,
            Source::Cut { entry, kept } => {
                &&& 0 <= entry < es.len()
                &&& kept <= es[entry].tokens@.len()
                &&& es[entry].tokens@.take(kept) == t.take(kept)
            },
            Source::Prefix(i) => 0 <= i < es.len() && es[i].tokens@ == t.take(
                es[i].tokens@.len() as int,
            ),
            Source::Nothing => true,
        },
{
    let n = es.len() as int;
    match source(es, t) {
        Source::Exact(i) => {
            assert(is_exact(es, t, i));
        },
        Source::Cut { entry, kept } => {
            assert(is_closest(es, t, n, entry));
            lemma_shared_prefix(t, es[entry].tokens@);
            assert(es[entry].tokens@.take(kept) =~= t.take(kept));
        },
        Source::Prefix(i) => {
            assert(is_shorter(es, t, n, i));
            if es[i].tokens@.len() == t.len() {
                assert(es[i].tokens@ =~= t);
                lemma_exact_exists(es, t, i);
            }
        },
        Source::Nothing => {},
    }
}

/// If an entry is `t`, a first one is.
proof fn lemma_exact_exists<A>(es: Seq<PromptCacheEntry<A>>, t: Seq<u32>, i: int)
    requires
        0 <= i < es.len(),
        es[i].tokens@ == t,
    ensures
        exact(es, t) is Some,
    decreases i,
{
    if exists|j: int| 0 <= j < i && (#[trigger] es[j]).tokens@ == t {
        let j = choose|j: int| 0 <= j < i && (#[trigger] es[j]).tokens@ == t;
        lemma_exact_exists(es, t, j);
    } else {
        assert(is_exact(es, t, i));
    }
}

/// No entry could spare more: entry `j` agrees with the prompt on its shared
/// prefix only, and one token of the prompt must stay to be fed.
pub proof fn law_fetch_spares_most<A>(es: Seq<PromptCacheEntry<A>>, t: Seq<u32>, j: int)
    requires
        0 <= j < es.len(),
        !(source(es, t) is Exact),
        t.len() > 0,
    ensures
        spared(es, t) >= (if shared_prefix(t, es[j].tokens@) < t.len() {
            shared_prefix(t, es[j].tokens@) as int
        } else {
            t.len() - 1
        }),
{
    let n = es.len() as int;
    if shared_prefix(t, es[j].tokens@) > 0 {
        lemma_closest_exists(es, t, n, j);
        let c = closest(es, t, n)->0;
        assert(is_closest(es, t, n, c));
        assert(serves_better(es, t, c, j));
        if let Source::Prefix(i) = source(es, t) {
            assert(is_shorter(es, t, n, i));
        }
    }
}

/// What was inserted last is found again, whole, with nothing left to feed.
pub proof fn law_fetch_after_insert<A>(cache: PromptCacheState<A>, entry: PromptCacheEntry<A>)
    requires
        cache.wf(),
        offsets_valid(entry.cache@),
    ensures
        ({
            let es = cache.insert(entry).entries;
            &&& es.len() > 0
            &&& es.last() == entry
            &&& source(es, entry.tokens@) == Source::Exact(es.len() - 1)
        }),
{
    let es = cache.insert(entry).entries;
    lemma_insert_keeps_order(cache.entries, entry, cache.max_size);
    let last = es.len() - 1;
    let t = entry.tokens@;
    assert forall|j: int| 0 <= j < last implies (#[trigger] es[j]).tokens@ != t by {
        assert(!es[j].tokens@.is_prefix_of(es[last].tokens@));
        assert(t =~= t.subrange(0, t.len() as int));
    }
    assert(is_exact(es, t, last));
    lemma_exact_unique(es, t, last);
}

/// After an insert no other entry is a prefix of the one that came.
pub proof fn law_insert_supersedes_prefixes<A>(
    cache: PromptCacheState<A>,
    entry: PromptCacheEntry<A>,
    i: int,
)
    requires
        cache.wf(),
        offsets_valid(entry.cache@),
        0 <= i < cache.insert(entry).entries.len() - 1,
    ensures
        !cache.insert(entry).entries[i].tokens@.is_prefix_of(entry.tokens@),
{
    lemma_insert_keeps_order(cache.entries, entry, cache.max_size);
}

/// A layer that holds `surplus` positions more than its entry has tokens keeps
/// that surplus when the entry is cut back.
pub proof fn law_cut_keeps_surplus<A>(layer: CacheState<A>, tokens: int, kept: int, surplus: int)
    requires
        0 <= kept <= tokens,
        0 <= surplus,
        layer.offset == tokens + surplus,
    ensures
        layer.trimmed(tokens - kept).offset == kept + surplus,
{
}

/// Layers that were cloned and cut by `trim` are as many as there were, and every
/// single one of them is cut: it holds `trim` positions less than it held, or none
/// where it held fewer, and its buffers are clones of what they were.
pub proof fn law_every_layer_is_cut_alike<A: Clone>(
    a: Seq<KvCache<A>>,
    b: Seq<KvCache<A>>,
    trim: int,
)
    requires
        layers_cloned(a, b, trim),
        offsets_valid(a),
        0 <= trim,
    ensures
        b.len() == a.len(),
        forall|i: int|
            0 <= i < b.len() ==> {
                let (old, new) = (a[i]@, (#[trigger] b[i])@);
                &&& new.offset == (if old.offset > trim {
                    old.offset - trim
                } else {
                    0
                })
                &&& new.keys is Some <==> old.keys is Some
                &&& new.values is Some <==> old.values is Some
                &&& old.keys is Some ==> {
                    &&& new.keys->0.layout.shape@ == old.keys->0.layout.shape@
                    &&& new.keys->0.layout.dtype == old.keys->0.layout.dtype
                    &&& cloned(old.keys->0.data, new.keys->0.data)
                }
                &&& old.values is Some ==> {
                    &&& new.values->0.layout.shape@ == old.values->0.layout.shape@
                    &&& new.values->0.layout.dtype == old.values->0.layout.dtype
                    &&& cloned(old.values->0.data, new.values->0.data)
                }
            },
{
    assert forall|i: int| 0 <= i < b.len() implies {
        let (old, new) = (a[i]@, (#[trigger] b[i])@);
        &&& new.offset == (if old.offset > trim {
            old.offset - trim
        } else {
            0
        })
        &&& tensor_cloned(old.keys, new.keys)
        &&& tensor_cloned(old.values, new.values)
    } by {
        assert(a[i]@.trimmed(trim).offset == b[i]@.offset);
    }
}

/// Two token sequences agree on the prefix that they share, and it ends where one
/// of them ends or where they differ.
pub proof fn law_shared_prefix_is_the_longest(left: Seq<u32>, right: Seq<u32>)
    ensures
        ({
            let n = shared_prefix(left, right) as int;
            &&& n <= left.len()
            &&& n <= right.len()
            &&& left.take(n) == right.take(n)
            &&& n < left.len() && n < right.len() ==> left[n] != right[n]
        }),
{
    lemma_shared_prefix(left, right);
    let n = shared_prefix(left, right) as int;
    assert(left.take(n) =~= right.take(n));
}

/// What a fetch gives, with the rest of the prompt, is the whole prompt. The rest
/// is its end. If caches come with it, they are those of an entry that begins with
/// the tokens before the rest, and every layer of them is cut by the tokens that
/// the entry has beyond these: where the layers of the entry hold as many positions
/// as it has tokens, and `surplus` more, each layer that is given holds as many
/// positions as there are tokens before the rest, and `surplus` more.
pub proof fn law_fetched_layers_and_rest_make_the_prompt<A: Clone>(
    cache: PromptCacheState<A>,
    t: Seq<u32>,
    layers: Option<Seq<KvCache<A>>>,
    rest: Seq<u32>,
    surplus: int,
) -> (i: int)
    requires
        cache.wf(),
        fetched(cache.entries, t, layers, rest),
        0 <= surplus,
    ensures
        rest.len() <= t.len(),
        rest == t.skip(t.len() - rest.len()),
        layers is None ==> rest == t,
        layers matches Some(given) ==> {
            let kept = t.len() - rest.len();
            let e = cache.entries[i];
            &&& 0 <= i < cache.entries.len()
            &&& kept <= e.tokens@.len()
            &&& e.tokens@.take(kept) == t.take(kept)
            &&& given.len() == e.cache@.len()
            &&& forall|l: int|
                0 <= l < given.len() && e.cache@[l]@.offset == e.tokens@.len() + surplus
                    ==> (#[trigger] given[l])@.offset == kept + surplus
        },
{
    let es = cache.entries;
    law_fetch_continues_prompt(es, t);
    let (i, kept) = match source(es, t) {
        Source::Exact(i) => (i, t.len() as int),
        Source::Cut { entry, kept } => (entry, kept),
        Source::Prefix(i) => (i, es[i].tokens@.len() as int),
        Source::Nothing => (0, 0),
    };
    assert(rest =~= t.skip(kept));
    if let Some(given) = layers {
        assert(offsets_valid(es[i].cache@));
        law_every_layer_is_cut_alike(es[i].cache@, given, es[i].tokens@.len() - kept);
        assert(t.take(t.len() as int) =~= t);
    }
    i
}

/// A fetch spares as many tokens as any entry allows. Where an entry has just the
/// tokens of the prompt, nothing is left to feed. Else at least one token is left,
/// and no entry begins with more tokens of the prompt than are spared, unless with
/// all of it, when all but one are. Caches come exactly where an entry begins with
/// the first token of the prompt, or is the prompt.
pub proof fn law_fetch_spares_what_any_entry_allows<A: Clone>(
    cache: PromptCacheState<A>,
    t: Seq<u32>,
    layers: Option<Seq<KvCache<A>>>,
    rest: Seq<u32>,
    j: int,
    n: int,
)
    requires
        cache.wf(),
        fetched(cache.entries, t, layers, rest),
        0 <= j < cache.entries.len(),
    ensures
        cache.entries[j].tokens@ == t ==> rest.len() == 0 && layers is Some,
        rest.len() == 0 && t.len() > 0 ==> exists|k: int|
            0 <= k < cache.entries.len() && (#[trigger] cache.entries[k]).tokens@ == t,
        0 <= n < t.len() && n <= cache.entries[j].tokens@.len() && cache.entries[j].tokens@.take(n)
            == t.take(n) ==> rest.len() <= t.len() - n,
        t.len() > 0 && cache.entries[j].tokens@.len() > 0 && cache.entries[j].tokens@[0] == t[0]
            ==> layers is Some,
        layers is Some && t.len() > 0 ==> exists|k: int|
            0 <= k < cache.entries.len() && (#[trigger] cache.entries[k]).tokens@.len() > 0
                && cache.entries[k].tokens@[0] == t[0],
{
    let es = cache.entries;
    let all = es.len() as int;
    let e = es[j].tokens@;
    law_fetch_continues_prompt(es, t);
    if e == t {
        lemma_exact_exists(es, t, j);
        assert(is_exact(es, t, exact(es, t)->0));
    }
    lemma_shared_prefix(t, e);
    match source(es, t) {
        Source::Exact(i) => {
            assert(es[i].tokens@ == t);
        },
        Source::Cut { entry, kept } => {
            assert(is_closest(es, t, all, entry));
            lemma_shared_prefix(t, es[entry].tokens@);
            assert(es[entry].tokens@[0] == t[0]);
            law_fetch_spares_most(es, t, j);
        },
        Source::Prefix(i) => {
            assert(is_shorter(es, t, all, i));
            assert(is_prefix_entry(es, t, i));
            assert(es[i].tokens@[0] == t[0]);
            law_fetch_spares_most(es, t, j);
        },
        Source::Nothing => {
            if t.len() > 0 {
                law_fetch_spares_most(es, t, j);
                if shared_prefix(t, e) > 0 {
                    lemma_closest_exists(es, t, all, j);
                }
            }
        },
    }
    if 0 <= n < t.len() && n <= e.len() && e.take(n) == t.take(n) {
        assert forall|k: int| 0 <= k < n implies t[k] == e[k] by {
            assert(t.take(n)[k] == e.take(n)[k]);
        }
        let s = shared_prefix(t, e) as int;
        assert(s >= n) by {
            if s < n {
                assert(t[s] == e[s]);
            }
        }
    }
}

/// Of the entries that share the most tokens with the prompt, a fetch takes the
/// shortest, and of equally short ones the first.
pub proof fn law_fetch_takes_the_shortest_entry<A: Clone>(
    cache: PromptCacheState<A>,
    t: Seq<u32>,
    layers: Option<Seq<KvCache<A>>>,
    rest: Seq<u32>,
) -> (i: int)
    requires
        cache.wf(),
        fetched(cache.entries, t, layers, rest),
        layers is Some,
        rest.len() > 0,
    ensures
        0 <= i < cache.entries.len(),
        layers->0.len() == cache.entries[i].cache@.len(),
        forall|l: int|
            0 <= l < layers->0.len() ==> (#[trigger] layers->0[l])@.offset == (if cache.entries[
                i
            ].cache@[l]@.offset > cache.entries[i].tokens@.len() - (t.len() - rest.len()) {
                cache.entries[i].cache@[l]@.offset - (cache.entries[i].tokens@.len() - (t.len()
                    - rest.len()))
            } else {
                0
            }),
        forall|j: int|
            0 <= j < cache.entries.len() ==> {
                let best = shared_prefix(t, cache.entries[i].tokens@);
                let other = shared_prefix(t, (#[trigger] cache.entries[j]).tokens@);
                ||| other < best
                ||| other == best && cache.entries[i].tokens@.len() < cache.entries[j].tokens@.len()
                ||| other == best && cache.entries[i].tokens@.len()
                    == cache.entries[j].tokens@.len() && i <= j
            },
{
    let es = cache.entries;
    let all = es.len() as int;
    law_fetch_continues_prompt(es, t);
    let given = layers->0;
    match source(es, t) {
        Source::Cut { entry, kept } => {
            assert(is_closest(es, t, all, entry));
            assert(offsets_valid(es[entry].cache@));
            law_every_layer_is_cut_alike(es[entry].cache@, given, es[entry].tokens@.len() - kept);
            assert forall|j: int| 0 <= j < all implies {
                let best = shared_prefix(t, es[entry].tokens@);
                let other = shared_prefix(t, (#[trigger] es[j]).tokens@);
                ||| other < best
                ||| other == best && es[entry].tokens@.len() < es[j].tokens@.len()
                ||| other == best && es[entry].tokens@.len() == es[j].tokens@.len() && entry <= j
            } by {
                assert(serves_better(es, t, entry, j));
            }
            entry
        },
        Source::Prefix(i) => {
            assert(is_shorter(es, t, all, i));
            assert(offsets_valid(es[i].cache@));
            law_every_layer_is_cut_alike(es[i].cache@, given, 0);
            lemma_shared_prefix_whole(es[i].tokens@, t);
            assert(shared_prefix(t, es[i].tokens@) == es[i].tokens@.len());
            assert forall|j: int| 0 <= j < all implies {
                let best = shared_prefix(t, es[i].tokens@);
                let other = shared_prefix(t, (#[trigger] es[j]).tokens@);
                ||| other < best
                ||| other == best && es[i].tokens@.len() < es[j].tokens@.len()
                ||| other == best && es[i].tokens@.len() == es[j].tokens@.len() && i <= j
            } by {
                let best = shared_prefix(t, es[i].tokens@);
                let other = shared_prefix(t, es[j].tokens@);
                law_fetch_spares_most(es, t, j);
                lemma_shared_prefix(t, es[j].tokens@);
                if other == best && es[j].tokens@.len() == es[i].tokens@.len() && j < i {
                    assert(es[j].tokens@ =~= es[i].tokens@);
                    assert(es[j].tokens@ =~= es[i].tokens@.subrange(0, es[j].tokens@.len() as int));
                    assert(es[j].tokens@.is_prefix_of(es[i].tokens@));
                }
                if other > best {
                    lemma_closest_exists(es, t, all, j);
                    let c = closest(es, t, all)->0;
                    assert(is_closest(es, t, all, c));
                    assert(serves_better(es, t, c, j));
                    assert(shorter(es, t, all) == Some(i));
                }
            }
            i
        },
        _ => 0,
    }
}

/// `x` stands before `y` among the entries.
pub open spec fn in_this_order<A>(
    es: Seq<PromptCacheEntry<A>>,
    x: PromptCacheEntry<A>,
    y: PromptCacheEntry<A>,
) -> bool {
    exists|c: int, d: int|
        0 <= c < d < es.len() && #[trigger] es[c] == x && #[trigger] es[d] == y
}

/// An insert puts the new entry last and keeps within the limit. The other entries
/// were there before, in the same order, and none is a prefix of the new one. An
/// entry that was there and is no prefix of the new one stays, unless the limit is
/// reached, when only later ones stay.
pub proof fn law_insert_keeps_the_latest<A>(
    cache: PromptCacheState<A>,
    entry: PromptCacheEntry<A>,
    j: int,
)
    requires
        cache.wf(),
        offsets_valid(entry.cache@),
        0 <= j < cache.entries.len(),
    ensures
        ({
            let old = cache.entries;
            let new = cache.insert(entry).entries;
            let limit = cache.max_size;
            &&& cache.insert(entry).max_size == limit
            &&& 0 < new.len() <= limit
            &&& new[new.len() - 1] == entry
            &&& forall|a: int|
                0 <= a < new.len() - 1 ==> {
                    &&& old.contains(#[trigger] new[a])
                    &&& !new[a].tokens@.is_prefix_of(entry.tokens@)
                }
            &&& forall|a: int, b: int|
                0 <= a < b < new.len() - 1 ==> in_this_order(
                    old,
                    #[trigger] new[a],
                    #[trigger] new[b],
                )
            &&& !old[j].tokens@.is_prefix_of(entry.tokens@) ==> {
                ||| exists|a: int| 0 <= a < new.len() - 1 && #[trigger] new[a] == old[j]
                ||| new.len() == limit && forall|a: int|
                    0 <= a < new.len() - 1 ==> old.skip(j + 1).contains(#[trigger] new[a])
            }
        }),
{
    let old = cache.entries;
    let pred = not_prefix_of::<A>(entry.tokens@);
    let kept = old.filter(pred);
    let all = kept.push(entry);
    let new = cache.insert(entry).entries;
    let cut = if all.len() <= cache.max_size {
        0
    } else {
        all.len() - cache.max_size
    };
    lemma_insert_keeps_order(old, entry, cache.max_size);
    assert(new =~= all.skip(cut));
    assert forall|a: int| 0 <= a < new.len() - 1 implies {
        &&& old.contains(#[trigger] new[a])
        &&& !new[a].tokens@.is_prefix_of(entry.tokens@)
    } by {
        assert(new[a] == kept[a + cut]);
        lemma_filter_source(old, pred, a + cut);
        old.lemma_filter_pred(pred, a + cut);
    }
    assert forall|a: int, b: int| 0 <= a < b < new.len() - 1 implies in_this_order(
        old,
        #[trigger] new[a],
        #[trigger] new[b],
    ) by {
        lemma_filter_order(old, pred, a + cut, b + cut);
        let (c, d) = choose|c: int, d: int|
            0 <= c < d < old.len() && #[trigger] old[c] == kept[a + cut] && #[trigger] old[d]
                == kept[b + cut];
        assert(old[c] == new[a] && old[d] == new[b]);
    }
    if !old[j].tokens@.is_prefix_of(entry.tokens@) {
        let k = lemma_filter_place(old, pred, j);
        if k >= cut {
            assert(0 <= k - cut < new.len() - 1 && new[k - cut] == old[j]);
        } else {
            assert(new.len() == cache.max_size);
            assert forall|a: int| 0 <= a < new.len() - 1 implies old.skip(j + 1).contains(
                #[trigger] new[a],
            ) by {
                let d = lemma_filter_later(old, pred, j, k, a + cut);
                assert(old.skip(j + 1)[d - (j + 1)] == new[a]);
            }
        }
    }
}

/// What passes a filter is left by it, behind what passes before it.
proof fn lemma_filter_place<E>(s: Seq<E>, pred: spec_fn(E) -> bool, j: int) -> (k: int)
    requires
        0 <= j < s.len(),
        pred(s[j]),
    ensures
        0 <= k < s.filter(pred).len(),
        s.filter(pred)[k] == s[j],
        k == s.take(j).filter(pred).len(),
    decreases s.len(),
{
    reveal(Seq::filter);
    let r = s.drop_last();
    if j < r.len() {
        assert(r.take(j) =~= s.take(j));
        let k = lemma_filter_place(r, pred, j);
        assert(s.filter(pred)[k] == s[j]);
        k
    } else {
        assert(r =~= s.take(j));
        let k = r.filter(pred).len() as int;
        assert(s.filter(pred)[k] == s[j]);
        k
    }
}

/// What a filter leaves behind an element comes from behind it.
proof fn lemma_filter_later<E>(s: Seq<E>, pred: spec_fn(E) -> bool, j: int, k: int, m: int) -> (d:
    int)
    requires
        0 <= j < s.len(),
        pred(s[j]),
        k == s.take(j).filter(pred).len(),
        k < m < s.filter(pred).len(),
    ensures
        j < d < s.len(),
        s[d] == s.filter(pred)[m],
    decreases s.len(),
{
    reveal(Seq::filter);
    let r = s.drop_last();
    if m < r.filter(pred).len() {
        if j == r.len() {
            assert(r =~= s.take(j));
            j
        } else {
            assert(r.take(j) =~= s.take(j));
            lemma_filter_later(r, pred, j, k, m)
        }
    } else {
        if j == r.len() {
            assert(r =~= s.take(j));
        }
        s.len() - 1
    }
}

/// What `fetch_nearest` gives: an end of the prompt that is left to feed, and with it
/// either no caches, or those of an entry that begins with the tokens before that
/// end, each layer cut by just the tokens that the entry has beyond them. So where
/// the layers of the entry hold a position for each of its tokens, each layer that
/// is given holds one for each token before the rest.
pub proof fn law_fetch_nearest_goes_on_from_an_entry<A: Clone>(
    cache: PromptCache<A>,
    tokens: &[u32],
    r: (Option<Vec<KvCache<A>>>, Vec<u32>),
) -> (i: int)
    requires
        cache@.wf(),
        call_ensures(PromptCache::<A>::fetch_nearest, (&cache, tokens), r),
    ensures
        r.1@.len() <= tokens@.len(),
        r.1@ == tokens@.skip(tokens@.len() - r.1@.len()),
        r.0 is None ==> r.1@ == tokens@,
        r.0 matches Some(given) ==> {
            let kept = tokens@.len() - r.1@.len();
            let e = cache@.entries[i];
            &&& 0 <= i < cache@.entries.len()
            &&& kept <= e.tokens@.len()
            &&& e.tokens@.take(kept) == tokens@.take(kept)
            &&& given@.len() == e.cache@.len()
            &&& forall|l: int|
                0 <= l < given@.len() ==> {
                    let (old, new) = (e.cache@[l]@, (#[trigger] given@[l])@);
                    let cut = e.tokens@.len() - kept;
                    &&& new.offset == (if old.offset > cut {
                        old.offset - cut
                    } else {
                        0
                    })
                    &&& old.offset == e.tokens@.len() ==> new.offset + r.1@.len() == tokens@.len()
                    &&& new.keys is Some <==> old.keys is Some
                    &&& new.values is Some <==> old.values is Some
                    &&& old.keys is Some ==> cloned(old.keys->0.data, new.keys->0.data)
                    &&& old.values is Some ==> cloned(old.values->0.data, new.values->0.data)
                }
        },
{
    let es = cache@.entries;
    let t = tokens@;
    law_fetch_continues_prompt(es, t);
    let (i, kept) = match source(es, t) {
        Source::Exact(i) => (i, t.len() as int),
        Source::Cut { entry, kept } => (entry, kept),
        Source::Prefix(i) => (i, es[i].tokens@.len() as int),
        Source::Nothing => (0, 0),
    };
    assert(r.1@ =~= t.skip(kept));
    if let Some(given) = r.0 {
        assert(offsets_valid(es[i].cache@));
        law_every_layer_is_cut_alike(es[i].cache@, given@, es[i].tokens@.len() - kept);
        assert(t.take(t.len() as int) =~= t);
    }
    i
}

/// `fetch_nearest` leaves as little to feed as any entry allows: nothing where an
/// entry is the prompt, and else at least one token, but no more than follow the
/// longest beginning that an entry shares with the prompt.
pub proof fn law_fetch_nearest_spares_what_any_entry_allows<A: Clone>(
    cache: PromptCache<A>,
    tokens: &[u32],
    r: (Option<Vec<KvCache<A>>>, Vec<u32>),
    j: int,
    n: int,
)
    requires
        cache@.wf(),
        call_ensures(PromptCache::<A>::fetch_nearest, (&cache, tokens), r),
        0 <= j < cache@.entries.len(),
    ensures
        cache@.entries[j].tokens@ == tokens@ ==> r.1@.len() == 0 && r.0 is Some,
        r.1@.len() == 0 && tokens@.len() > 0 ==> exists|k: int|
            0 <= k < cache@.entries.len() && (#[trigger] cache@.entries[k]).tokens@ == tokens@,
        0 <= n < tokens@.len() && n <= cache@.entries[j].tokens@.len()
            && cache@.entries[j].tokens@.take(n) == tokens@.take(n) ==> r.1@.len() <= tokens@.len()
            - n,
        tokens@.len() > 0 && cache@.entries[j].tokens@.len() > 0 && cache@.entries[j].tokens@[0]
            == tokens@[0] ==> r.0 is Some,
{
    let layers = match r.0 {
        Some(layers) => Some(layers@),
        None => None,
    };
    law_fetch_spares_what_any_entry_allows(cache@, tokens@, layers, r.1@, j, n);
}

/// `common_prefix_len` counts the leading tokens that are equal, and stops at the
/// first that differ or at an end.
pub proof fn law_common_prefix_ends_at_a_difference(left: &[u32], right: &[u32], n: usize)
    requires
        call_ensures(common_prefix_len, (left, right), n),
    ensures
        n <= left@.len(),
        n <= right@.len(),
        forall|i: int| 0 <= i < n ==> #[trigger] left@[i] == right@[i],
        n < left@.len() && n < right@.len() ==> left@[n as int] != right@[n as int],
{
    lemma_shared_prefix(left@, right@);
}

} // verus!
