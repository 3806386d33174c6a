//! Model configuration.

use crate::single::Single;
use vstd::hash_map::StringHashMap;
use vstd::prelude::*;

verus! {

/// A value of the rope scaling table.
#[derive(Debug)]
pub enum RopeScalingValue {
    Float(Single),
    String(String),
}

/// The rope scaling table: values by name.
pub struct RopeScaling {
    table: StringHashMap<RopeScalingValue>,
}

impl View for RopeScaling {
    type V = Map<Seq<char>, RopeScalingValue>;

    closed spec fn view(&self) -> Map<Seq<char>, RopeScalingValue> {
        self.table@
    }
}

/// The table of some pairs; of two with one name the later counts.
pub open spec fn table_of(pairs: Seq<(String, RopeScalingValue)>) -> Map<
    Seq<char>,
    RopeScalingValue,
>
    decreases pairs.len(),
{
    if pairs.len() == 0 {
        Map::empty()
    } else {
        table_of(pairs.drop_last()).insert(pairs.last().0@, pairs.last().1)
    }
}

impl RopeScaling {
    /// The table of some pairs; of two with one name the later counts.
    pub fn from_pairs(pairs: Vec<(String, RopeScalingValue)>) -> (r: Self)
        ensures
            r@ == table_of(pairs@),
    {
        let ghost all = pairs@;
        let mut table: StringHashMap<RopeScalingValue> = StringHashMap::new();
        assert(all.take(0) =~= Seq::empty());
        for pair in it: pairs
            invariant
                it.seq() == all,
                table@ == table_of(all.take(it.index())),
        {
            let ghost i = it.index();
            assert(pair == all[i]);
            assert(all.take(i + 1).drop_last() =~= all.take(i));
            let (name, value) = pair;
            table.insert(name, value);
        }
        assert(all.take(all.len() as int) =~= all);
        RopeScaling { table }
    }

    /// The value under `name`.
    pub fn get(&self, name: &str) -> (r: Option<&RopeScalingValue>)
        ensures
            match r {
                Some(v) => self@.contains_key(name@) && *v == self@[name@],
                None => !self@.contains_key(name@),
            },
    {
        self.table.get(name)
    }
}

/// How weights are packed.
#[derive(Clone, Copy, Debug, PartialEq, Eq, Structural)]
pub struct Quantization {
    /// Number of weights that share a scale and a bias.
    pub group_size: i32,
    /// Number of bits of a weight.
    pub bits: i32,
}

/// Configuration of a Qwen3 model.
pub struct Qwen3Config {
    pub vocab_size: i32,
    pub hidden_size: i32,
    pub intermediate_size: i32,
    pub num_hidden_layers: i32,
    pub num_attention_heads: i32,
    pub num_key_value_heads: i32,
    pub head_dim: i32,
    pub rms_norm_eps: Single,
    pub rope_theta: Single,
    pub rope_scaling: Option<RopeScaling>,
    /// Whether the output layer is the transposed embedding.
    pub tie_word_embeddings: bool,
    pub quantization: Option<Quantization>,
}

impl Qwen3Config {
    /// How the weights are packed; `None` where they are not.
    pub fn quantization(&self) -> (r: Option<Quantization>)
        ensures
            r == self.quantization,
    {
        self.quantization
    }
}

/// A table holds under a name the value of the last pair with that name, and
/// nothing under other names.
pub proof fn law_last_pair_counts(pairs: Seq<(String, RopeScalingValue)>, name: Seq<char>)
    ensures
        table_of(pairs).contains_key(name) <==> exists|i: int|
            0 <= i < pairs.len() && (#[trigger] pairs[i]).0@ == name,
        forall|i: int|
            0 <= i < pairs.len() && (#[trigger] pairs[i]).0@ == name && (forall|j: int|
                i < j < pairs.len() ==> (#[trigger] pairs[j]).0@ != name) ==> table_of(pairs)[name]
                == pairs[i].1,
    decreases pairs.len(),
{
    if pairs.len() > 0 {
        let rest = pairs.drop_last();
        law_last_pair_counts(rest, name);
        let n = rest.len() as int;
        assert forall|i: int| 0 <= i < n implies rest[i] == pairs[i] by {}
        if table_of(rest).contains_key(name) {
            let i = choose|i: int| 0 <= i < rest.len() && (#[trigger] rest[i]).0@ == name;
            assert(pairs[i].0@ == name);
        }
        assert forall|i: int|
            0 <= i < pairs.len() && (#[trigger] pairs[i]).0@ == name && (forall|j: int|
                i < j < pairs.len() ==> (#[trigger] pairs[j]).0@ != name) implies table_of(
            pairs,
        )[name] == pairs[i].1 by {
            if i < n {
                assert(pairs[n].0@ != name);
                assert(rest[i].0@ == name);
                assert forall|j: int| i < j < rest.len() implies (
                #[trigger] rest[j]).0@ != name by {
                    assert(pairs[j].0@ != name);
                }
            }
        }
        if exists|i: int| 0 <= i < pairs.len() && (#[trigger] pairs[i]).0@ == name {
            let i = choose|i: int| 0 <= i < pairs.len() && (#[trigger] pairs[i]).0@ == name;
            if i < n {
                assert(rest[i].0@ == name);
            }
        }
        if pairs[n].0@ == name {
            assert(table_of(pairs).contains_key(name));
        }
    }
}

} // verus!
