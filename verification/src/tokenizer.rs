//! Tokenizer definitions.
//!
//! A checkpoint says in `tokenizer_config.json` which class its tokenizer has,
//! and defines the tokenizer in `tokenizer.json`. Definitions for the Llama
//! classes are put into the form that those classes imply before they are used.

use crate::error::{Fault, LmError};
use crate::text::same;
use vstd::prelude::*;
use vstd::string::{StrSliceExecFns, StringExecFns};

verus! {

/// A JSON document.
#[verifier::external_type_specification]
#[verifier::external_body]
pub struct ExValue(serde_json::Value);

/// A number of a JSON document.
#[verifier::external_type_specification]
#[verifier::external_body]
pub struct ExNumber(serde_json::Number);

/// A tokenizer.
#[verifier::external_type_specification]
#[verifier::external_body]
pub struct ExTokenizer(tokenizers::Tokenizer);

/// What a JSON document holds.
pub enum Json {
    Null,
    Bool(bool),
    Number(serde_json::Number),
    Text(Seq<char>),
    Array(Seq<Json>),
    Object(Map<Seq<char>, Json>),
}

/// What a document of the JSON library holds.
pub uninterp spec fn json(value: serde_json::Value) -> Json;

/// What the JSON library reads from a text, or the error that it reports.
pub uninterp spec fn parsed(text: Seq<char>) -> Result<Json, serde_json::Error>;

/// The bytes that the JSON library writes for a document, or the error that it
/// reports.
pub uninterp spec fn written(document: Json) -> Result<Seq<u8>, serde_json::Error>;

/// The tokenizer library may answer a definition with this outcome: with a
/// tokenizer, or with the text of a refusal. It need not be the only one: where
/// two tokens of a vocabulary share a number, which of them the number stands for
/// may differ from call to call.
pub uninterp spec fn answers(
    definition: Seq<u8>,
    outcome: Result<tokenizers::Tokenizer, Seq<char>>,
) -> bool;

impl Json {
    /// The value under `key`, where the document is an object that has one.
    pub open spec fn field(self, key: Seq<char>) -> Option<Json> {
        match self {
            Json::Object(m) if m.contains_key(key) => Some(m[key]),
            _ => None,
        }
    }

    /// The object with `value` under `key`; null counts as the empty object.
    pub open spec fn with(self, key: Seq<char>, value: Json) -> Json {
        match self {
            Json::Object(m) => Json::Object(m.insert(key, value)),
            _ => Json::Object(Map::empty().insert(key, value)),
        }
    }
}

/// What the items of a list hold.
pub open spec fn items_of(items: Seq<serde_json::Value>) -> Seq<Json> {
    items.map_values(|item: serde_json::Value| json(item))
}

/// `serde_json::Value::get` with a text: the value under a key of an object;
/// nothing where the document is no object or has no such key.
#[verifier::external_body]
fn get<'a>(value: &'a serde_json::Value, key: &str) -> (r: Option<&'a serde_json::Value>)
    ensures
        match r {
            Some(x) => json(*value).field(key@) == Some(json(*x)),
            None => json(*value).field(key@) is None,
        },
{
    value.get(key)
}

/// `serde_json::Value::get_mut` with a text: the same, to be changed in place.
#[verifier::external_body]
fn get_mut<'a>(value: &'a mut serde_json::Value, key: &str) -> (r: Option<
    &'a mut serde_json::Value,
>)
    ensures
        match r {
            Some(x) => {
                &&& json(*old(value)).field(key@) == Some(json(*x))
                &&& json(*final(value)) == json(*old(value)).with(key@, json(*final(x)))
            },
            None => {
                &&& json(*old(value)).field(key@) is None
                &&& *final(value) == *old(value)
            },
        },
{
    value.get_mut(key)
}

/// `serde_json::Value::as_str`: the text of a string, nothing for other values.
#[verifier::external_body]
fn as_str<'a>(value: &'a serde_json::Value) -> (r: Option<&'a str>)
    ensures
        match r {
            Some(s) => json(*value) == Json::Text(s@),
            None => !(json(*value) is Text),
        },
{
    value.as_str()
}

/// `serde_json::Value::is_object`: whether the document is an object.
#[verifier::external_body]
fn is_object(value: &serde_json::Value) -> (r: bool)
    ensures
        r == (json(*value) is Object),
{
    value.is_object()
}

/// `serde_json::Value::as_array`: the items of a list, nothing for other values.
#[verifier::external_body]
fn as_array<'a>(value: &'a serde_json::Value) -> (r: Option<&'a Vec<serde_json::Value>>)
    ensures
        match r {
            Some(items) => json(*value) == Json::Array(items_of(items@)),
            None => !(json(*value) is Array),
        },
{
    value.as_array()
}

/// Assignment through `IndexMut` with a text: sets the value under a key. It
/// takes null for the empty object, and panics on what is neither.
#[verifier::external_body]
fn set(value: &mut serde_json::Value, key: &str, entry: serde_json::Value)
    requires
        json(*old(value)) is Object || json(*old(value)) is Null,
    ensures
        json(*final(value)) == json(*old(value)).with(key@, json(entry)),
{
    value[key] = entry;
}

/// `serde_json::Value::Null`: the document null.
#[verifier::external_body]
fn null() -> (r: serde_json::Value)
    ensures
        json(r) == Json::Null,
{
    serde_json::Value::Null
}

/// `serde_json::Value::Bool`: a document that is a truth value.
#[verifier::external_body]
fn boolean(b: bool) -> (r: serde_json::Value)
    ensures
        json(r) == Json::Bool(b),
{
    serde_json::Value::Bool(b)
}

/// `serde_json::Value::String`: a document that is a string.
#[verifier::external_body]
fn string(text: &str) -> (r: serde_json::Value)
    ensures
        json(r) == Json::Text(text@),
{
    serde_json::Value::String(text.to_owned())
}

/// `serde_json::from_str` for a document of any kind: what it reads, or the error
/// that it reports, is `parsed` of the text.
#[verifier::external_body]
fn from_str(text: &str) -> (r: Result<serde_json::Value, serde_json::Error>)
    ensures
        match r {
            Ok(value) => parsed(text@) == Ok::<Json, serde_json::Error>(json(value)),
            Err(error) => parsed(text@) == Err::<Json, serde_json::Error>(error),
        },
{
    serde_json::from_str(text)
}

/// `serde_json::to_vec`: what it writes, or the error that it reports, is
/// `written` of the document.
#[verifier::external_body]
fn to_vec(value: &serde_json::Value) -> (r: Result<Vec<u8>, serde_json::Error>)
    ensures
        match r {
            Ok(bytes) => written(json(*value)) == Ok::<Seq<u8>, serde_json::Error>(bytes@),
            Err(error) => written(json(*value)) == Err::<Seq<u8>, serde_json::Error>(error),
        },
{
    serde_json::to_vec(value)
}

/// `tokenizers::Tokenizer::from_bytes`: its outcome is one of its `answers` to the
/// definition. It panics on some definitions: where a merge joins two tokens to
/// something longer than every token, where a subword prefix is longer than a
/// merged token, in some normalizers, and in a decoder that is nested too deeply to
/// be read. So the definition has to be that of a Llama tokenizer, adapted and
/// written back after it was read from a text, none of whose merges joins two
/// tokens to something that is none. A merge of what are no tokens is refused.
#[verifier::external_body]
fn from_bytes(definition: &Vec<u8>) -> (r: Result<tokenizers::Tokenizer, String>)
    requires
        exists|text: Seq<char>|
            {
                &&& (#[trigger] parsed(text)) is Ok
                &&& joins_tokens(compatible(parsed(text)->Ok_0))
                &&& written(compatible(parsed(text)->Ok_0)) == Ok::<Seq<u8>, serde_json::Error>(
                    definition@,
                )
            },
    ensures
        match r {
            Ok(tokenizer) => answers(definition@, Ok(tokenizer)),
            Err(text) => answers(definition@, Err(text@)),
        },
{
    tokenizers::Tokenizer::from_bytes(definition).map_err(|e| e.to_string())
}

/// Whether a tokenizer configuration names one of the Llama classes.
pub open spec fn names_llama_class(config: Json) -> bool {
    ||| config.field("tokenizer_class"@) == Some(Json::Text("LlamaTokenizer"@))
    ||| config.field("tokenizer_class"@) == Some(Json::Text("LlamaTokenizerFast"@))
}

/// Whether a tokenizer configuration names one of the Llama classes.
pub fn is_llama_config(config: &serde_json::Value) -> (r: bool)
    ensures
        r == names_llama_class(json(*config)),
{
    match get(config, "tokenizer_class") {
        Some(value) => match as_str(value) {
            Some(class) => same(class, "LlamaTokenizer") || same(class, "LlamaTokenizerFast"),
            None => false,
        },
        None => false,
    }
}

/// Whether the tokenizer configuration, given by its text, names one of the
/// Llama classes. Without a configuration it does not.
pub fn declares_llama_tokenizer(config: Option<&str>) -> (r: Result<bool, LmError>)
    ensures
        match config {
            None => r == Ok::<bool, LmError>(false),
            Some(text) => match parsed(text@) {
                Ok(document) => r == Ok::<bool, LmError>(names_llama_class(document)),
                Err(error) => r matches Err(e) && e@ == Fault::Json(error),
            },
        },
{
    match config {
        None => Ok(false),
        Some(text) => match from_str(text) {
            Ok(document) => Ok(is_llama_config(&document)),
            Err(e) => Err(LmError::Json(e)),
        },
    }
}

/// A model is of the kind that is adapted.
pub open spec fn is_bpe(model: Json) -> bool {
    model is Object && model.field("type"@) == Some(Json::Text("BPE"@))
}

/// A definition has a model of the kind that is adapted.
pub open spec fn has_bpe_model(definition: Json) -> bool {
    match definition.field("model"@) {
        Some(model) => is_bpe(model),
        None => false,
    }
}

/// A model that falls back to bytes, and marks neither inner nor last subwords.
pub open spec fn adapted_model(model: Json) -> Json {
    model.with("byte_fallback"@, Json::Bool(true)).with("fuse_unk"@, Json::Bool(true)).with(
        "continuing_subword_prefix"@,
        Json::Null,
    ).with("end_of_word_suffix"@, Json::Null)
}

/// A step that puts a mark for spaces before every word.
pub open spec fn metaspace() -> Json {
    Json::Null.with("type"@, Json::Text("Metaspace"@)).with(
        "replacement"@,
        Json::Text("\u{2581}"@),
    ).with("prepend_scheme"@, Json::Text("always"@)).with("split"@, Json::Bool(false))
}

/// A definition with its model adapted, without a normalizer, and with spaces
/// marked.
pub open spec fn adapted(definition: Json) -> Json {
    definition.with("model"@, adapted_model(definition.field("model"@)->0)).with(
        "normalizer"@,
        Json::Null,
    ).with("pre_tokenizer"@, metaspace())
}

/// What becomes of a definition of a Llama tokenizer.
pub open spec fn compatible(definition: Json) -> Json {
    if has_bpe_model(definition) {
        adapted(definition)
    } else {
        definition
    }
}

/// Whether a model is of the kind that is adapted.
fn is_bpe_model(model: &serde_json::Value) -> (r: bool)
    ensures
        r == is_bpe(json(*model)),
{
    if !is_object(model) {
        return false;
    }
    match get(model, "type") {
        Some(kind) => match as_str(kind) {
            Some(text) => same(text, "BPE"),
            None => false,
        },
        None => false,
    }
}

/// Puts a definition into the form that the Llama classes imply, and says
/// whether it did; one whose model is of another kind is left as it is.
pub fn apply_llama_fast_compat(tokenizer_json: &mut serde_json::Value) -> (r: bool)
    ensures
        r == has_bpe_model(json(*old(tokenizer_json))),
        json(*final(tokenizer_json)) == compatible(json(*old(tokenizer_json))),
{
    proof {
        lemma_field_set_to_itself(json(*tokenizer_json), "model"@);
    }
    match get_mut(tokenizer_json, "model") {
        Some(model) => {
            if !is_bpe_model(model) {
                return false;
            }
            set(model, "byte_fallback", boolean(true));
            set(model, "fuse_unk", boolean(true));
            set(model, "continuing_subword_prefix", null());
            set(model, "end_of_word_suffix", null());
        },
        None => {
            return false;
        },
    }
    set(tokenizer_json, "normalizer", null());
    let mut pre_tokenizer = null();
    set(&mut pre_tokenizer, "type", string("Metaspace"));
    set(&mut pre_tokenizer, "replacement", string("\u{2581}"));
    set(&mut pre_tokenizer, "prepend_scheme", string("always"));
    set(&mut pre_tokenizer, "split", boolean(false));
    set(tokenizer_json, "pre_tokenizer", pre_tokenizer);
    true
}

/// Setting a field to what it holds changes nothing.
proof fn lemma_field_set_to_itself(document: Json, key: Seq<char>)
    ensures
        document.field(key) matches Some(value) ==> document.with(key, value) == document,
{
    if let Json::Object(m) = document {
        if m.contains_key(key) {
            assert(m.insert(key, m[key]) =~= m);
        }
    }
}

/// Where a tokenizer comes from.
#[derive(Clone, Copy, Debug, PartialEq, Eq, Structural)]
pub enum TokenizerSource {
    /// From the file that defines it, as it is.
    File,
    /// From the text of that file, by `load_llama_tokenizer`.
    Definition,
}

/// How the tokenizer is to be loaded, by its configuration, which is given by
/// its text where there is one.
pub fn load_tokenizer(config: Option<&str>) -> (r: Result<TokenizerSource, LmError>)
    ensures
        match config {
            None => r == Ok::<TokenizerSource, LmError>(TokenizerSource::File),
            Some(text) => match parsed(text@) {
                Ok(document) => r == Ok::<TokenizerSource, LmError>(
                    if names_llama_class(document) {
                        TokenizerSource::Definition
                    } else {
                        TokenizerSource::File
                    },
                ),
                Err(error) => r matches Err(e) && e@ == Fault::Json(error),
            },
        },
{
    match declares_llama_tokenizer(config) {
        Ok(true) => Ok(TokenizerSource::Definition),
        Ok(false) => Ok(TokenizerSource::File),
        Err(e) => Err(e),
    }
}

/// Where `a` and `b` are tokens of the vocabulary, they make a token together.
pub open spec fn join_in(vocab: Json, a: Seq<char>, b: Seq<char>) -> bool {
    vocab.field(a) is Some && vocab.field(b) is Some ==> vocab.field(a + b) is Some
}

/// Where a list is a pair of texts, and both are tokens, they join to a token.
pub open spec fn pair_joins(vocab: Json, parts: Seq<Json>) -> bool {
    if parts.len() == 2 {
        match (parts[0], parts[1]) {
            (Json::Text(a), Json::Text(b)) => join_in(vocab, a, b),
            _ => true,
        }
    } else {
        true
    }
}

/// Position `k` holds the only space of a line.
pub open spec fn splits_at(line: Seq<char>, k: int) -> bool {
    &&& 0 <= k < line.len()
    &&& line[k] == ' '
    &&& forall|j: int| 0 <= j < line.len() && j != k ==> line[j] != ' '
}

/// Where a line has one space, and what stands before and behind it are tokens,
/// they join to a token.
pub open spec fn line_joins(vocab: Json, line: Seq<char>) -> bool {
    forall|k: int|
        #[trigger] splits_at(line, k) ==> join_in(vocab, line.take(k), line.skip(k + 1))
}

/// A merge joins no two tokens to something that is none. It is a pair of texts,
/// or a line of two texts with a space between them; what is neither joins
/// nothing.
pub open spec fn merge_joins(vocab: Json, merge: Json) -> bool {
    match merge {
        Json::Array(parts) => pair_joins(vocab, parts),
        Json::Text(line) => line_joins(vocab, line),
        _ => true,
    }
}

/// None of the merges joins two tokens to something that is none.
pub open spec fn merges_join(vocab: Json, merges: Seq<Json>) -> bool {
    forall|i: int| 0 <= i < merges.len() ==> merge_joins(vocab, #[trigger] merges[i])
}

/// A definition has a model of the kind that is adapted, and none of its merges
/// joins two tokens of its vocabulary to something that is none.
pub open spec fn joins_tokens(definition: Json) -> bool {
    has_bpe_model(definition) && {
        let model = definition.field("model"@)->0;
        match (model.field("vocab"@), model.field("merges"@)) {
            (Some(vocab), Some(Json::Array(merges))) => merges_join(vocab, merges),
            _ => true,
        }
    }
}

/// Whether two texts, where they are tokens of a vocabulary, make a token together.
fn do_join(vocab: &serde_json::Value, a: &str, b: &str) -> (r: bool)
    ensures
        r == join_in(json(*vocab), a@, b@),
{
    let both = a.to_owned().concat(b);
    get(vocab, a).is_none() || get(vocab, b).is_none() || get(vocab, both.as_str()).is_some()
}

/// Whether a list joins no two tokens to something that is none.
fn does_pair_join(vocab: &serde_json::Value, parts: &Vec<serde_json::Value>) -> (r: bool)
    ensures
        r == pair_joins(json(*vocab), items_of(parts@)),
{
    if parts.len() != 2 {
        return true;
    }
    assert(items_of(parts@)[0] == json(parts@[0]));
    assert(items_of(parts@)[1] == json(parts@[1]));
    match (as_str(&parts[0]), as_str(&parts[1])) {
        (Some(a), Some(b)) => do_join(vocab, a, b),
        _ => true,
    }
}

/// Whether a line joins no two tokens to something that is none.
fn does_line_join(vocab: &serde_json::Value, line: &str) -> (r: bool)
    ensures
        r == line_joins(json(*vocab), line@),
{
    let n: usize = line.unicode_len();
    let mut at: Option<usize> = None;
    for i in 0..n
        invariant
            n == line@.len(),
            match at {
                Some(k) => k < i && line@[k as int] == ' ' && forall|j: int|
                    0 <= j < i && j != k ==> line@[j] != ' ',
                None => forall|j: int| 0 <= j < i ==> line@[j] != ' ',
            },
    {
        if line.get_char(i) == ' ' {
            if let Some(k) = at {
                assert(line@[i as int] == ' ' && line@[k as int] == ' ' && k != i);
                return true;
            }
            at = Some(i);
        }
    }
    match at {
        Some(k) => {
            let a = line.substring_char(0, k);
            let b = line.substring_char(k + 1, n);
            proof {
                assert(a@ =~= line@.take(k as int));
                assert(b@ =~= line@.skip(k + 1));
                assert(splits_at(line@, k as int));
                assert forall|j: int| splits_at(line@, j) implies j == k by {
                    assert(line@[k as int] == ' ');
                }
            }
            do_join(vocab, a, b)
        },
        None => true,
    }
}

/// Whether a merge joins no two tokens to something that is none.
fn does_merge_join(vocab: &serde_json::Value, merge: &serde_json::Value) -> (r: bool)
    ensures
        r == merge_joins(json(*vocab), json(*merge)),
{
    match (as_array(merge), as_str(merge)) {
        (Some(parts), _) => does_pair_join(vocab, parts),
        (None, Some(line)) => does_line_join(vocab, line),
        (None, None) => true,
    }
}

/// Whether a definition has a model of the kind that is adapted, and none of its
/// merges joins two tokens to something that is none.
pub fn do_merges_join_tokens(definition: &serde_json::Value) -> (r: bool)
    ensures
        r == joins_tokens(json(*definition)),
{
    let model = match get(definition, "model") {
        Some(model) => model,
        None => return false,
    };
    if !is_bpe_model(model) {
        return false;
    }
    let vocab = match get(model, "vocab") {
        Some(vocab) => vocab,
        None => return true,
    };
    let items = match get(model, "merges") {
        Some(merges) => match as_array(merges) {
            Some(items) => items,
            None => return true,
        },
        None => return true,
    };
    let ghost held = items_of(items@);
    for i in 0..items.len()
        invariant
            held == items_of(items@),
            held.len() == items@.len(),
            forall|j: int| 0 <= j < i ==> merge_joins(json(*vocab), #[trigger] held[j]),
            joins_tokens(json(*definition)) == merges_join(json(*vocab), held),
    {
        assert(held[i as int] == json(items@[i as int]));
        if !does_merge_join(vocab, &items[i]) {
            return false;
        }
    }
    true
}

/// A tokenizer of one of the Llama classes.
pub enum LlamaTokenizer {
    /// The tokenizer itself.
    Made(tokenizers::Tokenizer),
    /// The adapted definition of one that has a merge which joins two tokens to
    /// something that is none, or whose model is of another kind. The tokenizer
    /// library may accept it, refuse it, or panic on it.
    Unmade(Vec<u8>),
}

/// The tokenizer of one of the Llama classes, from the text of its definition,
/// once that is in the form that those classes imply.
pub fn load_llama_tokenizer(definition: &str) -> (r: Result<LlamaTokenizer, LmError>)
    ensures
        match parsed(definition@) {
            Err(error) => r matches Err(e) && e@ == Fault::Json(error),
            Ok(document) => match written(compatible(document)) {
                Err(error) => r matches Err(e) && e@ == Fault::Json(error),
                Ok(bytes) => if joins_tokens(compatible(document)) {
                    match r {
                        Ok(LlamaTokenizer::Made(tokenizer)) => answers(bytes, Ok(tokenizer)),
                        Ok(LlamaTokenizer::Unmade(_)) => false,
                        Err(e) => e@ matches Fault::Tokenizer(text) && answers(bytes, Err(text)),
                    }
                } else {
                    r matches Ok(LlamaTokenizer::Unmade(adapted_bytes)) && adapted_bytes@ == bytes
                },
            },
        },
{
    let mut tokenizer_json = match from_str(definition) {
        Ok(document) => document,
        Err(e) => {
            return Err(LmError::Json(e));
        },
    };
    apply_llama_fast_compat(&mut tokenizer_json);
    let bytes = match to_vec(&tokenizer_json) {
        Ok(bytes) => bytes,
        Err(e) => {
            return Err(LmError::Json(e));
        },
    };
    if !do_merges_join_tokens(&tokenizer_json) {
        return Ok(LlamaTokenizer::Unmade(bytes));
    }
    assert(parsed(definition@) is Ok);
    match from_bytes(&bytes) {
        Ok(tokenizer) => Ok(LlamaTokenizer::Made(tokenizer)),
        Err(message) => Err(LmError::Tokenizer(message)),
    }
}

/// Only the model, the normalizer and the pre-tokenizer of a definition change.
pub proof fn law_compat_leaves_the_rest(definition: Json, key: Seq<char>)
    requires
        key != "model"@,
        key != "normalizer"@,
        key != "pre_tokenizer"@,
    ensures
        compatible(definition).field(key) == definition.field(key),
{
}

/// Of an adapted model only four settings change.
pub proof fn law_adapted_model_leaves_the_rest(definition: Json, key: Seq<char>)
    requires
        has_bpe_model(definition),
        key != "byte_fallback"@,
        key != "fuse_unk"@,
        key != "continuing_subword_prefix"@,
        key != "end_of_word_suffix"@,
    ensures
        compatible(definition).field("model"@) matches Some(model) && model.field(key)
            == definition.field("model"@)->0.field(key),
{
    reveal_strlit("model");
    reveal_strlit("normalizer");
    reveal_strlit("pre_tokenizer");
    assert("model"@.len() != "normalizer"@.len());
    assert("model"@.len() != "pre_tokenizer"@.len());
}

/// Adapting a definition changes neither its vocabulary nor its merges, so they
/// join as before.
pub proof fn law_compat_keeps_merges(definition: Json)
    ensures
        joins_tokens(compatible(definition)) == joins_tokens(definition),
{
    if has_bpe_model(definition) {
        reveal_strlit("type");
        reveal_strlit("vocab");
        reveal_strlit("merges");
        reveal_strlit("fuse_unk");
        reveal_strlit("byte_fallback");
        reveal_strlit("end_of_word_suffix");
        reveal_strlit("continuing_subword_prefix");
        assert("type"@.len() == 4);
        assert("vocab"@.len() == 5);
        assert("merges"@.len() == 6);
        assert("fuse_unk"@.len() == 8);
        assert("byte_fallback"@.len() == 13);
        assert("end_of_word_suffix"@.len() == 18);
        assert("continuing_subword_prefix"@.len() == 25);
        law_adapted_model_leaves_the_rest(definition, "type"@);
        law_adapted_model_leaves_the_rest(definition, "vocab"@);
        law_adapted_model_leaves_the_rest(definition, "merges"@);
    }
}

/// Adapting a definition twice is the same as adapting it once.
pub proof fn law_compat_is_idempotent(definition: Json)
    ensures
        compatible(compatible(definition)) == compatible(definition),
{
    if has_bpe_model(definition) {
        reveal_strlit("model");
        reveal_strlit("normalizer");
        reveal_strlit("pre_tokenizer");
        reveal_strlit("type");
        reveal_strlit("byte_fallback");
        reveal_strlit("fuse_unk");
        reveal_strlit("continuing_subword_prefix");
        reveal_strlit("end_of_word_suffix");
        assert("type"@.len() == 4);
        assert("model"@.len() == 5);
        assert("fuse_unk"@.len() == 8);
        assert("normalizer"@.len() == 10);
        assert("pre_tokenizer"@.len() == 13);
        assert("byte_fallback"@.len() == 13);
        assert("end_of_word_suffix"@.len() == 18);
        assert("continuing_subword_prefix"@.len() == 25);
        let once = compatible(definition);
        law_adapted_model_leaves_the_rest(definition, "type"@);
        let m = once->Object_0;
        let model = m["model"@];
        assert(adapted_model(model)->Object_0 =~= model->Object_0);
        assert(compatible(once)->Object_0 =~= m);
    }
}

/// The keys of a definition that are adapted, and those of its model, differ from
/// each other.
proof fn lemma_keys_differ()
    ensures
        "model"@ != "normalizer"@,
        "model"@ != "pre_tokenizer"@,
        "normalizer"@ != "pre_tokenizer"@,
        "type"@ != "replacement"@,
        "type"@ != "prepend_scheme"@,
        "type"@ != "split"@,
        "replacement"@ != "prepend_scheme"@,
        "replacement"@ != "split"@,
        "prepend_scheme"@ != "split"@,
        "byte_fallback"@ != "fuse_unk"@,
        "byte_fallback"@ != "continuing_subword_prefix"@,
        "byte_fallback"@ != "end_of_word_suffix"@,
        "fuse_unk"@ != "continuing_subword_prefix"@,
        "fuse_unk"@ != "end_of_word_suffix"@,
        "continuing_subword_prefix"@ != "end_of_word_suffix"@,
{
    reveal_strlit("model");
    reveal_strlit("normalizer");
    reveal_strlit("pre_tokenizer");
    reveal_strlit("type");
    reveal_strlit("replacement");
    reveal_strlit("prepend_scheme");
    reveal_strlit("split");
    reveal_strlit("byte_fallback");
    reveal_strlit("fuse_unk");
    reveal_strlit("continuing_subword_prefix");
    reveal_strlit("end_of_word_suffix");
    assert("model"@.len() == 5);
    assert("normalizer"@.len() == 10);
    assert("pre_tokenizer"@.len() == 13);
    assert("type"@.len() == 4);
    assert("replacement"@.len() == 11);
    assert("prepend_scheme"@.len() == 14);
    assert("split"@.len() == 5);
    assert("byte_fallback"@.len() == 13);
    assert("fuse_unk"@.len() == 8);
    assert("continuing_subword_prefix"@.len() == 25);
    assert("end_of_word_suffix"@.len() == 18);
}

/// A configuration names a Llama class exactly if it is an object that holds one of
/// the two names as a text under `tokenizer_class`.
pub proof fn law_llama_classes_are_these_two(config: Json)
    ensures
        names_llama_class(config) <==> match config {
            Json::Object(m) => m.contains_key("tokenizer_class"@) && {
                ||| m["tokenizer_class"@] == Json::Text("LlamaTokenizer"@)
                ||| m["tokenizer_class"@] == Json::Text("LlamaTokenizerFast"@)
            },
            _ => false,
        },
{
}

/// A definition is adapted exactly if it is an object whose model is an object of
/// type `BPE`; any other stays as it is. An adapted one has no normalizer, marks
/// spaces before every word without splitting, and has a model that falls back to
/// bytes, fuses unknown tokens, and marks neither inner nor last subwords. It has no
/// other keys than these and those that it had.
pub proof fn law_llama_definitions_get_this_form(definition: Json)
    ensures
        ({
            let bpe = match definition {
                Json::Object(m) => m.contains_key("model"@) && match m["model"@] {
                    Json::Object(b) => b.contains_key("type"@) && b["type"@] == Json::Text("BPE"@),
                    _ => false,
                },
                _ => false,
            };
            &&& has_bpe_model(definition) == bpe
            &&& !bpe ==> compatible(definition) == definition
            &&& bpe ==> {
                let old = definition->Object_0;
                let old_model = old["model"@]->Object_0;
                let new = compatible(definition)->Object_0;
                let new_model = new["model"@]->Object_0;
                let marks = new["pre_tokenizer"@]->Object_0;
                &&& compatible(definition) is Object
                &&& forall|key: Seq<char>| #[trigger]
                    new.contains_key(key) <==> old.contains_key(key) || key == "normalizer"@ || key
                        == "pre_tokenizer"@
                &&& forall|key: Seq<char>|
                    old.contains_key(key) && key != "model"@ && key != "normalizer"@ && key
                        != "pre_tokenizer"@ ==> #[trigger] new[key] == old[key]
                &&& new["normalizer"@] == Json::Null
                &&& new["pre_tokenizer"@] is Object
                &&& forall|key: Seq<char>| #[trigger]
                    marks.contains_key(key) <==> key == "type"@ || key == "replacement"@ || key
                        == "prepend_scheme"@ || key == "split"@
                &&& marks["type"@] == Json::Text("Metaspace"@)
                &&& marks["replacement"@] == Json::Text("\u{2581}"@)
                &&& marks["prepend_scheme"@] == Json::Text("always"@)
                &&& marks["split"@] == Json::Bool(false)
                &&& new["model"@] is Object
                &&& forall|key: Seq<char>| #[trigger]
                    new_model.contains_key(key) <==> old_model.contains_key(key) || key
                        == "byte_fallback"@ || key == "fuse_unk"@ || key
                        == "continuing_subword_prefix"@ || key == "end_of_word_suffix"@
                &&& forall|key: Seq<char>|
                    old_model.contains_key(key) && key != "byte_fallback"@ && key != "fuse_unk"@
                        && key != "continuing_subword_prefix"@ && key != "end_of_word_suffix"@
                        ==> #[trigger] new_model[key] == old_model[key]
                &&& new_model["byte_fallback"@] == Json::Bool(true)
                &&& new_model["fuse_unk"@] == Json::Bool(true)
                &&& new_model["continuing_subword_prefix"@] == Json::Null
                &&& new_model["end_of_word_suffix"@] == Json::Null
            }
        }),
{
    lemma_keys_differ();
}

/// Where the merges of a definition join tokens to tokens, its model is of type
/// `BPE`, and any two tokens that a merge names, as a pair or as a line with one
/// space between them, make a token together.
pub proof fn law_merged_tokens_are_tokens(definition: Json, i: int, a: Seq<char>, b: Seq<char>)
    requires
        joins_tokens(definition),
    ensures
        ({
            let model = definition->Object_0["model"@]->Object_0;
            let vocab = model["vocab"@]->Object_0;
            let merges = model["merges"@]->Array_0;
            &&& definition is Object && definition->Object_0.contains_key("model"@)
            &&& definition->Object_0["model"@] is Object
            &&& model.contains_key("type"@) && model["type"@] == Json::Text("BPE"@)
            &&& {
                &&& model.contains_key("vocab"@) && model["vocab"@] is Object
                &&& model.contains_key("merges"@) && model["merges"@] is Array
                &&& 0 <= i < merges.len()
                &&& {
                    ||| merges[i] == Json::Array(seq![Json::Text(a), Json::Text(b)])
                    ||| {
                        &&& merges[i] == Json::Text(a + seq![' '] + b)
                        &&& !a.contains(' ')
                        &&& !b.contains(' ')
                    }
                }
                &&& vocab.contains_key(a)
                &&& vocab.contains_key(b)
            } ==> vocab.contains_key(a + b)
        }),
{
    let model = definition->Object_0["model"@]->Object_0;
    let merges = model["merges"@]->Array_0;
    if model.contains_key("vocab"@) && model["vocab"@] is Object && model.contains_key("merges"@)
        && model["merges"@] is Array && 0 <= i < merges.len() {
        let v = model["vocab"@];
        assert(merges_join(v, merges));
        assert(merge_joins(v, merges[i]));
        let line = a + seq![' '] + b;
        if merges[i] == Json::Text(line) && !a.contains(' ') && !b.contains(' ') {
            let k = a.len() as int;
            assert(line[k] == ' ');
            assert forall|j: int| 0 <= j < line.len() && j != k implies line[j] != ' ' by {
                if j < k {
                    assert(a.contains(a[j]));
                } else {
                    assert(line[j] == b[j - k - 1]);
                    assert(b.contains(b[j - k - 1]));
                }
            }
            assert(splits_at(line, k));
            assert(line.take(k) =~= a);
            assert(line.skip(k + 1) =~= b);
            assert(join_in(v, a, b));
        }
        if merges[i] == Json::Array(seq![Json::Text(a), Json::Text(b)]) {
            let parts = seq![Json::Text(a), Json::Text(b)];
            assert(pair_joins(v, parts));
            assert(parts[0] == Json::Text(a) && parts[1] == Json::Text(b));
        }
    }
}

/// Only a definition that has no model of type `BPE`, or a merge of two tokens that
/// make no token together, counts as one whose merges do not join tokens to tokens.
pub proof fn law_nothing_else_stands_in_the_way(
    model: Map<Seq<char>, Json>,
    definition: Map<Seq<char>, Json>,
)
    requires
        definition.contains_key("model"@),
        definition["model"@] == Json::Object(model),
        model.contains_key("type"@),
        model["type"@] == Json::Text("BPE"@),
        model.contains_key("vocab"@) && model["vocab"@] is Object && model.contains_key("merges"@)
            && model["merges"@] is Array ==> {
            let vocab = model["vocab"@]->Object_0;
            let merges = model["merges"@]->Array_0;
            &&& forall|i: int, a: Seq<char>, b: Seq<char>|
                {
                    &&& 0 <= i < merges.len()
                    &&& #[trigger] merges[i] == Json::Array(seq![Json::Text(a), Json::Text(b)])
                    &&& #[trigger] vocab.contains_key(a)
                    &&& #[trigger] vocab.contains_key(b)
                } ==> vocab.contains_key(a + b)
            &&& forall|i: int, a: Seq<char>, b: Seq<char>|
                {
                    &&& 0 <= i < merges.len()
                    &&& #[trigger] merges[i] == Json::Text(a + seq![' '] + b)
                    &&& !a.contains(' ')
                    &&& !b.contains(' ')
                    &&& #[trigger] vocab.contains_key(a)
                    &&& #[trigger] vocab.contains_key(b)
                } ==> vocab.contains_key(a + b)
        },
    ensures
        joins_tokens(Json::Object(definition)),
{
    if model.contains_key("vocab"@) && model.contains_key("merges"@) && model["merges"@] is Array {
        let v = model["vocab"@];
        let merges = model["merges"@]->Array_0;
        assert forall|i: int| 0 <= i < merges.len() implies merge_joins(
            v,
            #[trigger] merges[i],
        ) by {
            if v is Object {
                let vocab = v->Object_0;
                match merges[i] {
                    Json::Array(parts) => {
                        if parts.len() == 2 && parts[0] is Text && parts[1] is Text {
                            let (a, b) = (parts[0]->Text_0, parts[1]->Text_0);
                            assert(parts =~= seq![Json::Text(a), Json::Text(b)]);
                            assert(vocab.contains_key(a) && vocab.contains_key(b)
                                ==> vocab.contains_key(a + b));
                        }
                    },
                    Json::Text(line) => {
                        assert forall|k: int| #[trigger] splits_at(line, k) implies join_in(
                            v,
                            line.take(k),
                            line.skip(k + 1),
                        ) by {
                            let (a, b) = (line.take(k), line.skip(k + 1));
                            assert(line =~= a + seq![' '] + b);
                            assert(!a.contains(' ')) by {
                                if a.contains(' ') {
                                    let j = choose|j: int| 0 <= j < a.len() && a[j] == ' ';
                                    assert(line[j] == ' ');
                                }
                            }
                            assert(!b.contains(' ')) by {
                                if b.contains(' ') {
                                    let j = choose|j: int| 0 <= j < b.len() && b[j] == ' ';
                                    assert(line[j + k + 1] == ' ');
                                }
                            }
                            assert(vocab.contains_key(a) && vocab.contains_key(b)
                                ==> vocab.contains_key(a + b));
                        }
                    },
                    _ => {},
                }
            }
        }
    }
}

/// How a tokenizer is loaded: from its definition where its configuration is there,
/// is a JSON object, and names one of the two Llama classes; from its file where it
/// names none or is not there. A configuration that is no JSON is refused.
pub proof fn law_llama_tokenizers_are_loaded_by_definition(
    config: Option<&str>,
    r: Result<TokenizerSource, LmError>,
)
    requires
        call_ensures(load_tokenizer, (config,), r),
    ensures
        config is None ==> r == Ok::<TokenizerSource, LmError>(TokenizerSource::File),
        config matches Some(text) ==> match parsed(text@) {
            Err(error) => r matches Err(e) && e@ == Fault::Json(error),
            Ok(document) => {
                let llama = match document {
                    Json::Object(m) => m.contains_key("tokenizer_class"@) && {
                        ||| m["tokenizer_class"@] == Json::Text("LlamaTokenizer"@)
                        ||| m["tokenizer_class"@] == Json::Text("LlamaTokenizerFast"@)
                    },
                    _ => false,
                };
                r == Ok::<TokenizerSource, LmError>(
                    if llama {
                        TokenizerSource::Definition
                    } else {
                        TokenizerSource::File
                    },
                )
            },
        },
{
    if let Some(text) = config {
        if let Ok(document) = parsed(text@) {
            law_llama_classes_are_these_two(document);
        }
    }
}

} // verus!
