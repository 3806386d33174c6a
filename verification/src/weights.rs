//! Matching of model parameters with the tensors of a checkpoint.

use crate::error::{Fault, LmError};
use crate::models::qwen3::Model;
use crate::text::{
    digits, joined, law_order_forgets_arrival, ordered, push_digits, sort_names, texts,
};
use vstd::hash_map::StringHashMap;
use vstd::prelude::*;
use vstd::string::{StrSliceExecFns, StringExecFns};

verus! {

/// Number of missing parameters that are named in a message.
pub const NAMED: usize = 5;

/// Which tensor each parameter takes, and whether all of them have one.
pub struct Loaded {
    /// For each parameter the number of its tensor, in the order of loading.
    pub tensors: Vec<Option<usize>>,
    pub outcome: Result<(), LmError>,
}

/// Whether `name` ends with `suffix`.
pub open spec fn ends_with(name: Seq<char>, suffix: Seq<char>) -> bool {
    &&& suffix.len() <= name.len()
    &&& name.skip(name.len() - suffix.len()) == suffix
}

/// The name in a checkpoint of the tensor for a parameter. The weight of a
/// packed layer stands under the layer's own name there.
pub open spec fn checkpoint_name_of(param: Seq<char>) -> Seq<char> {
    if ends_with(param, ".inner.weight"@) {
        param.take(param.len() - ".inner.weight"@.len()) + ".weight"@
    } else {
        param
    }
}

/// The tensors by name; of two with one name the later one counts.
pub open spec fn catalogue(tensors: Seq<Seq<char>>) -> Map<Seq<char>, int>
    decreases tensors.len(),
{
    if tensors.len() == 0 {
        Map::empty()
    } else {
        catalogue(tensors.drop_last()).insert(tensors.last(), tensors.len() - 1)
    }
}

/// One of the first `n` parameters asks for the tensor `name`.
pub open spec fn asked_for(params: Seq<Seq<char>>, n: int, name: Seq<char>) -> bool {
    exists|j: int| 0 <= j < n && checkpoint_name_of(#[trigger] params[j]) == name
}

/// The tensor of parameter `i`: that of its name in the checkpoint, unless an
/// earlier parameter has taken it.
pub open spec fn tensor_for(params: Seq<Seq<char>>, tensors: Seq<Seq<char>>, i: int) -> Option<
    int,
> {
    let name = checkpoint_name_of(params[i]);
    if catalogue(tensors).contains_key(name) && !asked_for(params, i, name) {
        Some(catalogue(tensors)[name])
    } else {
        None
    }
}

/// Those of the first `n` parameters that have no tensor.
pub open spec fn missing(params: Seq<Seq<char>>, tensors: Seq<Seq<char>>, n: int) -> Seq<Seq<char>>
    decreases n,
{
    if n <= 0 {
        Seq::empty()
    } else if tensor_for(params, tensors, n - 1) is None {
        missing(params, tensors, n - 1).push(params[n - 1])
    } else {
        missing(params, tensors, n - 1)
    }
}

/// The message on missing parameters: the first few names in order, and how
/// many more there are.
pub open spec fn missing_message(names: Seq<Seq<char>>) -> Seq<char> {
    let sorted = ordered(names);
    if names.len() > NAMED {
        joined(sorted.take(NAMED as int), ", "@) + (" (+"@ + digits((names.len() - NAMED) as nat)
            + " more)"@)
    } else {
        joined(sorted, ", "@)
    }
}

impl Loaded {
    /// This is the match of the parameters with the tensors.
    pub open spec fn is_of(self, params: Seq<Seq<char>>, tensors: Seq<Seq<char>>) -> bool {
        let lacking = missing(params, tensors, params.len() as int);
        &&& self.tensors@.len() == params.len()
        &&& forall|i: int|
            0 <= i < params.len() ==> (match #[trigger] self.tensors@[i] {
                Some(t) => tensor_for(params, tensors, i) == Some(t as int),
                None => tensor_for(params, tensors, i) is None,
            })
        &&& match self.outcome {
            Ok(()) => lacking.len() == 0,
            Err(e) => lacking.len() > 0 && e@ == Fault::MissingWeight(missing_message(lacking)),
        }
    }
}

/// The name in a checkpoint of the tensor for a parameter.
pub fn checkpoint_name(param: &str) -> (r: String)
    ensures
        r@ == checkpoint_name_of(param@),
{
    match strip_suffix(param, ".inner.weight") {
        Some(prefix) => prefix.to_owned().concat(".weight"),
        None => param.to_owned(),
    }
}

/// `name` without `suffix`, if it ends with it.
fn strip_suffix<'a>(name: &'a str, suffix: &str) -> (r: Option<&'a str>)
    ensures
        match r {
            Some(prefix) => ends_with(name@, suffix@) && prefix@ == name@.take(
                name@.len() - suffix@.len(),
            ),
            None => !ends_with(name@, suffix@),
        },
{
    let n: usize = name.unicode_len();
    let m: usize = suffix.unicode_len();
    if m > n {
        return None;
    }
    let ghost tail = name@.skip(n - m);
    for i in 0..m
        invariant
            m <= n,
            n == name@.len(),
            m == suffix@.len(),
            tail == name@.skip(n - m),
            forall|j: int| 0 <= j < i ==> #[trigger] tail[j] == suffix@[j],
    {
        if name.get_char(n - m + i) != suffix.get_char(i) {
            assert(tail[i as int] != suffix@[i as int]);
            return None;
        }
    }
    assert(tail =~= suffix@);
    let prefix = name.substring_char(0, n - m);
    assert(prefix@ =~= name@.take(n - m));
    Some(prefix)
}

/// Matches the parameters, given by name, with the tensors of a checkpoint,
/// given by name in the order of loading.
pub(crate) fn match_weights(params: &Vec<String>, tensors: &Vec<String>) -> (r: Loaded)
    ensures
        r.is_of(texts(params@), texts(tensors@)),
{
    let ghost names = texts(params@);
    let ghost held = texts(tensors@);
    let mut left: StringHashMap<usize> = StringHashMap::new();
    assert(held.take(0) =~= Seq::empty());
    for i in 0..tensors.len()
        invariant
            held == texts(tensors@),
            left@.dom() =~= catalogue(held.take(i as int)).dom(),
            forall|name: Seq<char>| #[trigger]
                left@.contains_key(name) ==> left@[name] == catalogue(held.take(i as int))[name],
    {
        assert(held.take(i + 1).drop_last() =~= held.take(i as int));
        left.insert(tensors[i].clone(), i);
    }
    assert(held.take(held.len() as int) =~= held);
    let mut taken: Vec<Option<usize>> = Vec::new();
    let mut lacking: Vec<String> = Vec::new();
    for i in 0..params.len()
        invariant
            names == texts(params@),
            held == texts(tensors@),
            forall|name: Seq<char>| #[trigger]
                left@.contains_key(name) <==> catalogue(held).contains_key(name) && !asked_for(
                    names,
                    i as int,
                    name,
                ),
            forall|name: Seq<char>| #[trigger]
                left@.contains_key(name) ==> left@[name] == catalogue(held)[name],
            taken@.len() == i,
            forall|j: int|
                0 <= j < i ==> (match #[trigger] taken@[j] {
                    Some(t) => tensor_for(names, held, j) == Some(t as int),
                    None => tensor_for(names, held, j) is None,
                }),
            texts(lacking@) == missing(names, held, i as int),
    {
        let name = checkpoint_name(params[i].as_str());
        assert(name@ == checkpoint_name_of(names[i as int]));
        let found: Option<usize> = match left.get(name.as_str()) {
            Some(t) => Some(*t),
            None => None,
        };
        left.remove(name.as_str());
        assert forall|other: Seq<char>| asked_for(names, i + 1, other) <==> asked_for(
            names,
            i as int,
            other,
        ) || other == name@ by {
            if asked_for(names, i as int, other) {
                let j = choose|j: int|
                    0 <= j < i && checkpoint_name_of(#[trigger] names[j]) == other;
                assert(checkpoint_name_of(names[j]) == other);
            }
        }
        if found.is_none() {
            lacking.push(params[i].clone());
            assert(texts(lacking@) =~= missing(names, held, i as int).push(names[i as int]));
        }
        taken.push(found);
    }
    let outcome = if lacking.len() == 0 {
        Ok(())
    } else {
        Err(LmError::MissingWeight(describe_missing(lacking)))
    };
    Loaded { tensors: taken, outcome }
}

/// The message on missing parameters.
fn describe_missing(names: Vec<String>) -> (r: String)
    ensures
        r@ == missing_message(texts(names@)),
{
    let total: usize = names.len();
    let sorted = sort_names(names);
    let ghost parts = texts(sorted@);
    let shown: usize = if total > NAMED {
        NAMED
    } else {
        total
    };
    let mut text = String::new();
    assert(parts.take(0) =~= Seq::empty());
    for i in 0..shown
        invariant
            parts == texts(sorted@),
            shown <= sorted@.len(),
            text@ == joined(parts.take(i as int), ", "@),
    {
        assert(parts.take(i + 1).drop_last() =~= parts.take(i as int));
        if i > 0 {
            text.append(", ");
        }
        text.append(sorted[i].as_str());
        assert(text@ =~= joined(parts.take(i + 1), ", "@));
    }
    if total > NAMED {
        text.append(" (+");
        push_digits(&mut text, (total - NAMED) as u64);
        text.append(" more)");
        assert(text@ =~= missing_message(texts(names@)));
    } else {
        assert(parts.take(shown as int) =~= parts);
    }
    text
}

/// Of several tensors with one name, the one that was loaded last counts.
pub proof fn law_later_tensor_counts(tensors: Seq<Seq<char>>, i: int)
    requires
        0 <= i < tensors.len(),
    ensures
        ({
            let at = catalogue(tensors)[tensors[i]];
            &&& catalogue(tensors).contains_key(tensors[i])
            &&& i <= at < tensors.len()
            &&& tensors[at] == tensors[i]
        }),
    decreases tensors.len(),
{
    let rest = tensors.drop_last();
    if i < rest.len() {
        law_later_tensor_counts(rest, i);
        assert(rest[i] == tensors[i]);
        let at = catalogue(rest)[tensors[i]];
        assert(rest[at] == tensors[at]);
    }
}

/// No tensor is given to two parameters, and each goes to a parameter that asks
/// for it by name.
pub proof fn law_tensor_goes_to_one_parameter(
    params: Seq<Seq<char>>,
    tensors: Seq<Seq<char>>,
    i: int,
    j: int,
)
    requires
        0 <= i < params.len(),
        0 <= j < params.len(),
        tensor_for(params, tensors, i) is Some,
        tensor_for(params, tensors, i) == tensor_for(params, tensors, j),
    ensures
        i == j,
        tensors[tensor_for(params, tensors, i)->0] == checkpoint_name_of(params[i]),
{
    lemma_catalogued(tensors, checkpoint_name_of(params[i]));
    lemma_catalogued(tensors, checkpoint_name_of(params[j]));
}

/// A name in the catalogue stands for a tensor of that name.
proof fn lemma_catalogued(tensors: Seq<Seq<char>>, name: Seq<char>)
    requires
        catalogue(tensors).contains_key(name),
    ensures
        0 <= catalogue(tensors)[name] < tensors.len(),
        tensors[catalogue(tensors)[name]] == name,
    decreases tensors.len(),
{
    if tensors.len() > 0 && name != tensors.last() {
        lemma_catalogued(tensors.drop_last(), name);
    }
}

/// Loading succeeds exactly if every parameter has a tensor.
pub proof fn law_nothing_missing(params: Seq<Seq<char>>, tensors: Seq<Seq<char>>, n: int)
    requires
        0 <= n <= params.len(),
    ensures
        missing(params, tensors, n).len() == 0 <==> forall|i: int|
            0 <= i < n ==> #[trigger] tensor_for(params, tensors, i) is Some,
    decreases n,
{
    if n > 0 {
        law_nothing_missing(params, tensors, n - 1);
        if tensor_for(params, tensors, n - 1) is Some && missing(params, tensors, n).len() == 0 {
            assert forall|i: int| 0 <= i < n implies #[trigger] tensor_for(
                params,
                tensors,
                i,
            ) is Some by {
                if i < n - 1 {
                    assert(tensor_for(params, tensors, i) is Some);
                }
            }
        }
    }
}

/// No two parameters ask for one tensor.
pub open spec fn ask_apart(params: Seq<Seq<char>>) -> bool {
    forall|i: int, j: int|
        0 <= i < j < params.len() ==> checkpoint_name_of(#[trigger] params[i])
            != checkpoint_name_of(#[trigger] params[j])
}

/// Where no two parameters ask for one tensor, the order in which they are
/// walked does not show: each has the same tensor, and the message on missing
/// ones is the same.
pub proof fn law_walk_order_is_immaterial(
    params: Seq<Seq<char>>,
    others: Seq<Seq<char>>,
    tensors: Seq<Seq<char>>,
)
    requires
        ask_apart(params),
        params.to_multiset() == others.to_multiset(),
    ensures
        forall|i: int, j: int|
            0 <= i < params.len() && 0 <= j < others.len() && #[trigger] params[i]
                == #[trigger] others[j] ==> tensor_for(params, tensors, i) == tensor_for(
                others,
                tensors,
                j,
            ),
        missing_message(missing(params, tensors, params.len() as int)) == missing_message(
            missing(others, tensors, others.len() as int),
        ),
{
    broadcast use vstd::seq_lib::group_to_multiset_ensures;

    lemma_ask_apart(params, others);
    let a = missing(params, tensors, params.len() as int);
    let b = missing(others, tensors, others.len() as int);
    assert forall|name: Seq<char>| a.to_multiset().count(name) == b.to_multiset().count(name) by {
        lemma_missing_count(params, tensors, params.len() as int, name);
        lemma_missing_count(others, tensors, others.len() as int, name);
        assert(params.take(params.len() as int) =~= params);
        assert(others.take(others.len() as int) =~= others);
    }
    assert(a.to_multiset() =~= b.to_multiset());
    law_order_forgets_arrival(a, b);
    assert(a.len() == a.to_multiset().len());
    assert(b.len() == b.to_multiset().len());
}

/// A rearrangement of parameters that ask apart asks apart.
proof fn lemma_ask_apart(params: Seq<Seq<char>>, others: Seq<Seq<char>>)
    requires
        ask_apart(params),
        params.to_multiset() == others.to_multiset(),
    ensures
        ask_apart(others),
{
    broadcast use vstd::seq_lib::group_to_multiset_ensures;

    assert forall|i: int, j: int| 0 <= i < j < others.len() implies checkpoint_name_of(
        #[trigger] others[i],
    ) != checkpoint_name_of(#[trigger] others[j]) by {
        let x = others[i];
        let y = others[j];
        assert(params.contains(x)) by {
            assert(others.contains(x));
            assert(others.to_multiset().count(x) > 0);
            assert(params.to_multiset().count(x) > 0);
        }
        assert(params.contains(y)) by {
            assert(others.contains(y));
            assert(others.to_multiset().count(y) > 0);
            assert(params.to_multiset().count(y) > 0);
        }
        let p = choose|p: int| 0 <= p < params.len() && params[p] == x;
        let q = choose|q: int| 0 <= q < params.len() && params[q] == y;
        if x == y {
            assert(params.no_duplicates());
            params.lemma_multiset_has_no_duplicates();
            others.lemma_multiset_has_no_duplicates_conv();
            assert(others[i] != others[j]);
        } else if p < q {
            assert(checkpoint_name_of(params[p]) != checkpoint_name_of(params[q]));
        } else {
            assert(checkpoint_name_of(params[q]) != checkpoint_name_of(params[p]));
        }
    }
}

/// How often a name is among the missing ones.
proof fn lemma_missing_count(
    params: Seq<Seq<char>>,
    tensors: Seq<Seq<char>>,
    n: int,
    name: Seq<char>,
)
    requires
        ask_apart(params),
        0 <= n <= params.len(),
    ensures
        missing(params, tensors, n).to_multiset().count(name) == (if catalogue(
            tensors,
        ).contains_key(checkpoint_name_of(name)) {
            0
        } else {
            params.take(n).to_multiset().count(name)
        }),
    decreases n,
{
    broadcast use vstd::seq_lib::group_to_multiset_ensures;

    if n > 0 {
        lemma_missing_count(params, tensors, n - 1, name);
        assert(params.take(n) =~= params.take(n - 1).push(params[n - 1]));
        assert(!asked_for(params, n - 1, checkpoint_name_of(params[n - 1])));
    } else {
        assert(params.take(0) =~= Seq::empty());
    }
}

/// A parameter whose name ends with `.inner.weight` takes the tensor that has
/// `.weight` in place of that; any other the tensor of its own name.
pub proof fn law_inner_weights_take_the_layers_name(prefix: Seq<char>, param: Seq<char>)
    ensures
        checkpoint_name_of(prefix + ".inner.weight"@) == prefix + ".weight"@,
        (forall|p: Seq<char>| param != #[trigger] (p + ".inner.weight"@)) ==> checkpoint_name_of(
            param,
        ) == param,
{
    let suffix = ".inner.weight"@;
    let name = prefix + suffix;
    assert(name.skip(name.len() - suffix.len()) =~= suffix);
    assert(name.take(name.len() - suffix.len()) =~= prefix);
    if ends_with(param, suffix) {
        let p = param.take(param.len() - suffix.len());
        assert(param =~= p + suffix);
    }
}

/// A parameter takes the last tensor that has the name it asks for, unless an
/// earlier parameter asks for it too. It has none exactly if there is no such
/// tensor, or an earlier parameter took it.
pub proof fn law_parameter_takes_the_last_tensor_of_its_name(
    params: Seq<Seq<char>>,
    tensors: Seq<Seq<char>>,
    i: int,
)
    requires
        0 <= i < params.len(),
    ensures
        ({
            let name = checkpoint_name_of(params[i]);
            match tensor_for(params, tensors, i) {
                Some(t) => {
                    &&& 0 <= t < tensors.len()
                    &&& tensors[t] == name
                    &&& forall|u: int| t < u < tensors.len() ==> #[trigger] tensors[u] != name
                    &&& forall|j: int|
                        0 <= j < i ==> checkpoint_name_of(#[trigger] params[j]) != name
                },
                None => {
                    ||| forall|u: int| 0 <= u < tensors.len() ==> #[trigger] tensors[u] != name
                    ||| exists|j: int|
                        0 <= j < i && checkpoint_name_of(#[trigger] params[j]) == name
                },
            }
        }),
{
    let name = checkpoint_name_of(params[i]);
    assert forall|u: int| 0 <= u < tensors.len() && #[trigger] tensors[u] == name implies
        catalogue(tensors).contains_key(name) && catalogue(tensors)[name] >= u by {
        law_later_tensor_counts(tensors, u);
    }
    if catalogue(tensors).contains_key(name) {
        lemma_catalogued(tensors, name);
    }
}

/// The parameters without a tensor are listed in the order of the parameters, each
/// one of them once, and no other.
pub proof fn law_missing_parameters_are_listed_in_order(
    params: Seq<Seq<char>>,
    tensors: Seq<Seq<char>>,
    n: int,
) -> (at: Seq<int>)
    requires
        0 <= n <= params.len(),
    ensures
        at.len() == missing(params, tensors, n).len(),
        forall|k: int|
            0 <= k < at.len() ==> {
                &&& 0 <= #[trigger] at[k] < n
                &&& missing(params, tensors, n)[k] == params[at[k]]
                &&& tensor_for(params, tensors, at[k]) is None
            },
        forall|k: int, l: int| 0 <= k < l < at.len() ==> #[trigger] at[k] < #[trigger] at[l],
        forall|i: int|
            0 <= i < n && #[trigger] tensor_for(params, tensors, i) is None ==> at.contains(i),
    decreases n,
{
    if n <= 0 {
        Seq::empty()
    } else {
        let before = law_missing_parameters_are_listed_in_order(params, tensors, n - 1);
        if tensor_for(params, tensors, n - 1) is None {
            let at = before.push(n - 1);
            assert forall|i: int|
                0 <= i < n && #[trigger] tensor_for(params, tensors, i) is None implies at.contains(
                i,
            ) by {
                if i < n - 1 {
                    assert(before.contains(i));
                    let k = choose|k: int| 0 <= k < before.len() && before[k] == i;
                    assert(at[k] == i);
                } else {
                    assert(at[before.len() as int] == i);
                }
            }
            at
        } else {
            before
        }
    }
}

/// The message on missing parameters names up to five of them, in order, with a
/// comma and a space between each two, and tells how many more there are.
pub proof fn law_message_names_five(names: Seq<Seq<char>>)
    ensures
        names.len() <= 5 ==> missing_message(names) == joined(ordered(names), ", "@),
        names.len() > 5 ==> missing_message(names) == joined(ordered(names).take(5), ", "@)
            + " (+"@ + digits((names.len() - 5) as nat) + " more)"@,
{
    if names.len() > 5 {
        assert(missing_message(names) =~= joined(ordered(names).take(5), ", "@) + " (+"@ + digits(
            (names.len() - 5) as nat,
        ) + " more)"@);
    }
}

/// What was loaded says of every parameter which tensor it takes, also where others
/// have none. It reports an error exactly if some parameter has none, and names
/// those.
pub proof fn law_loading_gives_every_tensor_that_is_there(
    loaded: Loaded,
    params: Seq<Seq<char>>,
    tensors: Seq<Seq<char>>,
)
    requires
        loaded.is_of(params, tensors),
    ensures
        loaded.tensors@.len() == params.len(),
        forall|i: int|
            0 <= i < params.len() ==> {
                &&& #[trigger] loaded.tensors@[i] is Some <==> tensor_for(
                    params,
                    tensors,
                    i,
                ) is Some
                &&& loaded.tensors@[i] is Some ==> loaded.tensors@[i]->0 == tensor_for(
                    params,
                    tensors,
                    i,
                )->0
            },
        loaded.outcome is Ok <==> forall|i: int|
            0 <= i < params.len() ==> #[trigger] loaded.tensors@[i] is Some,
        loaded.outcome matches Err(e) ==> e@ == Fault::MissingWeight(
            missing_message(missing(params, tensors, params.len() as int)),
        ),
{
    law_nothing_missing(params, tensors, params.len() as int);
    if forall|i: int| 0 <= i < params.len() ==> #[trigger] loaded.tensors@[i] is Some {
        assert forall|i: int| 0 <= i < params.len() implies #[trigger] tensor_for(
            params,
            tensors,
            i,
        ) is Some by {
            assert(loaded.tensors@[i] is Some);
        }
    }
}

/// The name that `checkpoint_name` gives for a parameter: with `.weight` in place of
/// a final `.inner.weight`, or as it is.
pub proof fn law_checkpoint_name_drops_inner(param: &str, prefix: Seq<char>, name: String)
    requires
        call_ensures(checkpoint_name, (param,), name),
    ensures
        param@ == prefix + ".inner.weight"@ ==> name@ == prefix + ".weight"@,
        (forall|p: Seq<char>| param@ != #[trigger] (p + ".inner.weight"@)) ==> name@ == param@,
{
    law_inner_weights_take_the_layers_name(prefix, param@);
}

/// What matching parameters with tensors gives: a parameter takes a tensor that was
/// loaded under the name it asks for, the last such one; it goes without exactly if
/// there is none, or an earlier parameter asks for it too; and all is well exactly if
/// none goes without.
pub proof fn law_parameters_get_the_tensors_they_ask_for(
    params: Vec<String>,
    tensors: Vec<String>,
    loaded: Loaded,
    i: int,
)
    requires
        call_ensures(Model::load_weights, (&params, &tensors), loaded),
        0 <= i < params@.len(),
    ensures
        loaded.tensors@.len() == params@.len(),
        ({
            let name = checkpoint_name_of(params@[i]@);
            match loaded.tensors@[i] {
                Some(t) => {
                    &&& t < tensors@.len()
                    &&& tensors@[t as int]@ == name
                    &&& forall|u: int| t < u < tensors@.len() ==> (#[trigger] tensors@[u])@ != name
                    &&& forall|j: int|
                        0 <= j < i ==> checkpoint_name_of((#[trigger] params@[j])@) != name
                },
                None => {
                    &&& loaded.outcome is Err
                    &&& {
                        ||| forall|u: int|
                            0 <= u < tensors@.len() ==> (#[trigger] tensors@[u])@ != name
                        ||| exists|j: int|
                            0 <= j < i && checkpoint_name_of((#[trigger] params@[j])@) == name
                    }
                },
            }
        }),
        loaded.outcome is Ok <==> forall|k: int|
            0 <= k < params@.len() ==> #[trigger] loaded.tensors@[k] is Some,
{
    let names = texts(params@);
    let held = texts(tensors@);
    law_loading_gives_every_tensor_that_is_there(loaded, names, held);
    law_parameter_takes_the_last_tensor_of_its_name(names, held, i);
    assert(names[i] == params@[i]@);
    assert forall|u: int| 0 <= u < tensors@.len() implies held[u] == (#[trigger] tensors@[u])@ by {}
    assert forall|j: int| 0 <= j < params@.len() implies names[j] == (#[trigger] params@[j])@ by {}
    let name = checkpoint_name_of(params@[i]@);
    match loaded.tensors@[i] {
        Some(t) => {
            assert(tensors@[t as int]@ == held[t as int]);
            assert forall|u: int| t < u < tensors@.len() implies (#[trigger] tensors@[u])@
                != name by {
                assert(held[u] != name);
            }
            assert forall|j: int| 0 <= j < i implies checkpoint_name_of((#[trigger] params@[j])@)
                != name by {
                assert(checkpoint_name_of(names[j]) != name);
            }
        },
        None => {
            if exists|j: int| 0 <= j < i && checkpoint_name_of(#[trigger] names[j]) == name {
                let j = choose|j: int|
                    0 <= j < i && checkpoint_name_of(#[trigger] names[j]) == name;
                assert(checkpoint_name_of(params@[j]@) == name);
            } else {
                assert forall|u: int| 0 <= u < tensors@.len() implies (#[trigger] tensors@[u])@
                    != name by {
                    assert(held[u] != name);
                }
            }
        },
    }
}

} // verus!
