use vstd::prelude::*;

use crate::keys::url_safe_char;
use crate::split::{find_char, first_index, lemma_find_in_rest, split_once, split_once_at, text_between};
use crate::text::chars_of;

verus! {

/// A failed check of a published message: a stable code and a message.
#[derive(Debug)]
pub struct ValidationFailure {
    pub code: String,
    pub message: String,
}

/// A token of an encoding: non-empty ASCII letters, digits, `-` and `_`.
pub open spec fn valid_token(token: Seq<char>) -> bool {
    token.len() > 0 && forall|i: int| 0 <= i < token.len() ==> url_safe_char(#[trigger] token[i])
}

/// One transformation of an encoding: a token, optionally `+` and a
/// parameter token.
pub open spec fn valid_segment(segment: Seq<char>) -> bool {
    match split_once(segment, '+') {
        Some((transform, parameter)) => valid_token(transform) && valid_token(parameter),
        None => valid_token(segment),
    }
}

/// A chain of transformations separated by `/`, each of them valid.
#[verifier::opaque]
pub open spec fn valid_chain(chain: Seq<char>) -> bool
    decreases chain.len(),
{
    match first_index(chain, '/') {
        Some(i) => if 0 <= i < chain.len() {
            valid_segment(chain.take(i)) && valid_chain(chain.skip(i + 1))
        } else {
            false
        },
        None => valid_segment(chain),
    }
}

/// A chain is valid when its first transformation and the rest are.
pub proof fn lemma_chain_step(chain: Seq<char>, i: int)
    requires
        first_index(chain, '/') == Some(i),
        0 <= i < chain.len(),
    ensures
        valid_chain(chain) == (valid_segment(chain.take(i)) && valid_chain(chain.skip(i + 1))),
{
    reveal(valid_chain);
}

/// A chain without `/` is one transformation.
pub proof fn lemma_chain_last(chain: Seq<char>)
    requires
        first_index(chain, '/') is None,
    ensures
        valid_chain(chain) == valid_segment(chain),
{
    reveal(valid_chain);
}

/// An encoding is empty or a valid chain of transformations.
pub open spec fn valid_encoding(encoding: Seq<char>) -> bool {
    encoding.len() == 0 || valid_chain(encoding)
}

/// Whether a text is a token of an encoding.
pub fn is_valid_encoding_token(token: &str) -> (r: bool)
    ensures
        r == valid_token(token@),
{
    let chars = chars_of(token);
    if chars.len() == 0 {
        return false;
    }
    let mut i: usize = 0;
    while i < chars.len()
        invariant
            chars@ == token@,
            i <= chars@.len(),
            forall|k: int| 0 <= k < i ==> url_safe_char(#[trigger] chars@[k]),
        decreases chars@.len() - i,
    {
        let c = chars[i];
        let ok = ('A' <= c && c <= 'Z') || ('a' <= c && c <= 'z') || ('0' <= c && c <= '9') || c
            == '-' || c == '_';
        if !ok {
            return false;
        }
        i = i + 1;
    }
    true
}

/// Whether a text is one transformation of an encoding.
pub fn is_valid_encoding_segment(segment: &str) -> (r: bool)
    ensures
        r == valid_segment(segment@),
{
    match split_once_at(segment, '+') {
        Some((transform, parameter)) => is_valid_encoding_token(transform.as_str())
            && is_valid_encoding_token(parameter.as_str()),
        None => is_valid_encoding_token(segment),
    }
}

/// The refusal of an invalid encoding.
pub open spec fn invalid_encoding_code() -> Seq<char> {
    "invalid_encoding"@
}

/// Checks the encoding of a published message: empty, or transformations
/// separated by `/`.
pub fn validate_encoding(encoding: &str) -> (r: Result<(), ValidationFailure>)
    ensures
        r is Ok <==> valid_encoding(encoding@),
        r matches Err(failure) ==> failure.code@ == invalid_encoding_code(),
{
    let chars = chars_of(encoding);
    let n = chars.len();
    if n == 0 {
        return Ok(());
    }
    let mut start: usize = 0;
    assert(encoding@.skip(0) =~= encoding@);
    loop
        invariant
            chars@ == encoding@,
            n == chars@.len(),
            n > 0,
            start <= n,
            valid_encoding(encoding@) == valid_chain(encoding@.skip(start as int)),
        decreases n - start,
    {
        let found = find_char(&chars, start, '/');
        proof {
            let f = match found {
                Some(j) => Some(j as int),
                None => None::<int>,
            };
            lemma_find_in_rest(chars@, start as int, '/', f);
        }
        match found {
            Some(j) => {
                let segment = text_between(&chars, start, j);
                proof {
                    let rest = encoding@.skip(start as int);
                    assert(rest.take(j - start) =~= segment@);
                    assert(rest.skip(j - start + 1) =~= encoding@.skip(j + 1));
                    lemma_chain_step(rest, j - start);
                }
                if !is_valid_encoding_segment(segment.as_str()) {
                    return Err(invalid_encoding_failure());
                }
                start = j + 1;
            },
            None => {
                let segment = text_between(&chars, start, n);
                proof {
                    assert(encoding@.skip(start as int) =~= segment@);
                    lemma_chain_last(encoding@.skip(start as int));
                }
                if is_valid_encoding_segment(segment.as_str()) {
                    return Ok(());
                } else {
                    return Err(invalid_encoding_failure());
                }
            },
        }
    }
}

fn invalid_encoding_failure() -> (r: ValidationFailure)
    ensures
        r.code@ == invalid_encoding_code(),
{
    ValidationFailure {
        code: "invalid_encoding".to_owned(),
        message: "encoding contains an invalid transformation chain".to_owned(),
    }
}

/// The kind of a JSON document.
#[derive(PartialEq, Eq, Structural, Clone, Copy, Debug)]
pub enum JsonKind {
    Null,
    Bool,
    Number,
    String,
    Array,
    Object,
}

/// The kind of a JSON document: the variant of `serde_json::Value` it is.
pub uninterp spec fn json_value_kind(value: serde_json::Value) -> JsonKind;

/// Tells the variants of a JSON document apart.
///
/// Matches on `serde_json::Value`, one arm for each variant. The contract
/// claims that the result is the kind of the document (`json_value_kind`), a
/// function of the document alone; which variant a given document is, is
/// not described here, as the document is opaque.
#[verifier::external_body]
fn json_kind(value: &serde_json::Value) -> (r: JsonKind)
    ensures
        r == json_value_kind(*value),
{
    match value {
        serde_json::Value::Null => JsonKind::Null,
        serde_json::Value::Bool(_) => JsonKind::Bool,
        serde_json::Value::Number(_) => JsonKind::Number,
        serde_json::Value::String(_) => JsonKind::String,
        serde_json::Value::Array(_) => JsonKind::Array,
        serde_json::Value::Object(_) => JsonKind::Object,
    }
}

/// The refusal of message data of an unsupported kind.
pub open spec fn unsupported_data_code() -> Seq<char> {
    "unsupported_data_type"@
}

/// The message of that refusal.
pub open spec fn unsupported_data_message() -> Seq<char> {
    "message data must be a string, array, object, or null"@
}

/// Message data may be a string, an array, an object or null; booleans and
/// numbers are refused.
pub fn validate_data_kind(kind: JsonKind) -> (r: Result<(), ValidationFailure>)
    ensures
        r is Ok <==> (kind == JsonKind::Null || kind == JsonKind::String || kind == JsonKind::Array
            || kind == JsonKind::Object),
        r matches Err(failure) ==> failure.code@ == unsupported_data_code()
            && failure.message@ == unsupported_data_message(),
{
    match kind {
        JsonKind::Null | JsonKind::String | JsonKind::Array | JsonKind::Object => Ok(()),
        JsonKind::Bool | JsonKind::Number => Err(
            ValidationFailure {
                code: "unsupported_data_type".to_owned(),
                message: "message data must be a string, array, object, or null".to_owned(),
            },
        ),
    }
}

/// Whether data of a kind is refused: booleans and numbers are.
pub open spec fn refused_data_kind(kind: JsonKind) -> bool {
    kind == JsonKind::Bool || kind == JsonKind::Number
}

/// Checks the data of a published message by its kind: booleans and numbers
/// are refused.
pub fn validate_message_data(data: &serde_json::Value) -> (r: Result<(), ValidationFailure>)
    ensures
        r is Err <==> refused_data_kind(json_value_kind(*data)),
        r matches Err(failure) ==> failure.code@ == unsupported_data_code()
            && failure.message@ == unsupported_data_message(),
{
    validate_data_kind(json_kind(data))
}

} // verus!
