//! Errors of the library.

use crate::single::Single;
use vstd::prelude::*;
use vstd::string::StringExecFns;

verus! {

/// Why the library refuses a request.
#[derive(Debug)]
pub enum LmError {
    /// The configuration or a shape does not fit; the message says how.
    Config(String),
    /// Parameters for which the checkpoint holds no tensor; the message names them.
    MissingWeight(String),
    /// The setting `name` must be finite and positive.
    NotPositive { name: String, value: Single },
    /// The setting `name` must be finite.
    NotFinite { name: String, value: Single },
    /// The head dimension must be positive.
    HeadDim { dim: i32 },
    /// The temperature must be zero, or finite and positive.
    Temperature { value: Single },
    /// The text is no JSON document.
    Json(serde_json::Error),
    /// The tokenizer definition is not usable; the message says why.
    Tokenizer(String),
}

/// An error in mathematical terms.
pub enum Fault {
    Config(Seq<char>),
    MissingWeight(Seq<char>),
    NotPositive { name: Seq<char>, value: Single },
    NotFinite { name: Seq<char>, value: Single },
    HeadDim { dim: int },
    Temperature { value: Single },
    Json(serde_json::Error),
    Tokenizer(Seq<char>),
}

/// The JSON library's error: what is wrong with a document, and where.
#[verifier::external_type_specification]
#[verifier::external_body]
pub struct ExJsonError(serde_json::Error);

impl View for LmError {
    type V = Fault;

    open spec fn view(&self) -> Fault {
        match *self {
            LmError::Config(s) => Fault::Config(s@),
            LmError::MissingWeight(s) => Fault::MissingWeight(s@),
            LmError::NotPositive { name, value } => Fault::NotPositive { name: name@, value },
            LmError::NotFinite { name, value } => Fault::NotFinite { name: name@, value },
            LmError::HeadDim { dim } => Fault::HeadDim { dim: dim as int },
            LmError::Temperature { value } => Fault::Temperature { value },
            LmError::Json(e) => Fault::Json(e),
            LmError::Tokenizer(s) => Fault::Tokenizer(s@),
        }
    }
}

/// The first of two faults.
pub open spec fn first(a: Option<Fault>, b: Option<Fault>) -> Option<Fault> {
    if a is Some {
        a
    } else {
        b
    }
}

/// The message for a fault, where `number` is the text of the number that the
/// fault carries, and `json` what the JSON library says.
pub open spec fn message_of(fault: Fault, number: Seq<char>, json: Seq<char>) -> Seq<char> {
    match fault {
        Fault::Config(s) => s,
        Fault::MissingWeight(s) => s,
        Fault::NotPositive { name, value } => name + " must be finite and positive, got "@ + number,
        Fault::NotFinite { name, value } => name + " must be finite, got "@ + number,
        Fault::HeadDim { dim } => "head_dim"@ + " must be finite and positive, got "@ + number,
        Fault::Temperature { value } => "temperature must be 0.0 or a finite positive value, got "@
            + number,
        Fault::Json(_) => json,
        Fault::Tokenizer(s) => s,
    }
}

impl LmError {
    /// The message for the user. `number` is the text of the number that the
    /// error carries, and `json` what the JSON library says; each is used only
    /// where the error has one.
    pub fn message(&self, number: &str, json: &str) -> (r: String)
        ensures
            r@ == message_of(self@, number@, json@),
    {
        match self {
            LmError::Config(s) => s.clone(),
            LmError::MissingWeight(s) => s.clone(),
            LmError::NotPositive { name, .. } => name.clone().concat(
                " must be finite and positive, got ",
            ).concat(number),
            LmError::NotFinite { name, .. } => name.clone().concat(" must be finite, got ").concat(
                number,
            ),
            LmError::HeadDim { .. } => "head_dim".to_owned().concat(
                " must be finite and positive, got ",
            ).concat(number),
            LmError::Temperature { .. } => {
                "temperature must be 0.0 or a finite positive value, got ".to_owned().concat(number)
            },
            LmError::Json(_) => json.to_owned(),
            LmError::Tokenizer(s) => s.clone(),
        }
    }
}

/// The message on a setting names it, says what it must be, and ends with the
/// number that it is; other messages are those that the error carries.
pub proof fn law_message_says_what_is_wrong(
    name: Seq<char>,
    value: Single,
    dim: int,
    text: Seq<char>,
    error: serde_json::Error,
    number: Seq<char>,
    json: Seq<char>,
)
    ensures
        message_of(Fault::NotPositive { name, value }, number, json) == name
            + " must be finite and positive, got "@ + number,
        message_of(Fault::NotFinite { name, value }, number, json) == name
            + " must be finite, got "@ + number,
        message_of(Fault::HeadDim { dim }, number, json)
            == "head_dim must be finite and positive, got "@ + number,
        message_of(Fault::Temperature { value }, number, json)
            == "temperature must be 0.0 or a finite positive value, got "@ + number,
        message_of(Fault::Config(text), number, json) == text,
        message_of(Fault::MissingWeight(text), number, json) == text,
        message_of(Fault::Tokenizer(text), number, json) == text,
        message_of(Fault::Json(error), number, json) == json,
{
    reveal_strlit("head_dim");
    reveal_strlit(" must be finite and positive, got ");
    reveal_strlit("head_dim must be finite and positive, got ");
    assert("head_dim"@ + " must be finite and positive, got "@
        =~= "head_dim must be finite and positive, got "@);
}

/// Of two faults the first is reported; without one, the second.
pub proof fn law_first_fault_counts(a: Fault, b: Option<Fault>)
    ensures
        first(Some(a), b) == Some(a),
        first(None, b) == b,
{
}

/// An error is viewed as what it is, with the texts and numbers that it carries.
pub proof fn law_error_is_what_it_says(s: String, value: Single, dim: i32)
    ensures
        LmError::Config(s)@ == Fault::Config(s@),
        LmError::MissingWeight(s)@ == Fault::MissingWeight(s@),
        LmError::Tokenizer(s)@ == Fault::Tokenizer(s@),
        (LmError::NotPositive { name: s, value })@ == (Fault::NotPositive { name: s@, value }),
        (LmError::NotFinite { name: s, value })@ == (Fault::NotFinite { name: s@, value }),
        (LmError::HeadDim { dim })@ == (Fault::HeadDim { dim: dim as int }),
        (LmError::Temperature { value })@ == (Fault::Temperature { value }),
{
}

} // verus!
