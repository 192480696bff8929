use vstd::prelude::*;

use crate::encoding::{
    invalid_encoding_code, json_value_kind, refused_data_kind, unsupported_data_code, valid_encoding,
    validate_encoding, validate_message_data, ValidationFailure,
};
use crate::messages::Message;

verus! {

/// A JSON object.
#[verifier::external_type_specification]
#[verifier::external_body]
#[verifier::reject_recursive_types(K)]
#[verifier::reject_recursive_types(V)]
pub struct ExJsonMap<K, V>(serde_json::Map<K, V>);

/// A message published over HTTP.
#[derive(Debug)]
pub struct BroadcastMessage {
    pub name: Option<String>,
    pub data: serde_json::Value,
    pub encoding: Option<String>,
    pub client_id: Option<String>,
    pub connection_key: Option<String>,
    pub id: Option<String>,
    pub extras: Option<serde_json::Map<String, serde_json::Value>>,
}

/// Whether an optional text is present and empty.
pub open spec fn present_and_empty(text: Option<String>) -> bool {
    text matches Some(t) && t@.len() == 0
}

/// The codes of the refusals of a message's fields other than its data, in
/// field order: an invalid encoding, then an empty client identifier,
/// connection key or message identifier.
pub open spec fn field_codes(message: BroadcastMessage) -> Seq<Seq<char>> {
    let encoding = match message.encoding {
        Some(e) => if valid_encoding(e@) {
            Seq::empty()
        } else {
            seq![invalid_encoding_code()]
        },
        None => Seq::empty(),
    };
    let client = if present_and_empty(message.client_id) {
        seq!["empty_client_id"@]
    } else {
        Seq::empty()
    };
    let key = if present_and_empty(message.connection_key) {
        seq!["empty_connection_key"@]
    } else {
        Seq::empty()
    };
    let id = if present_and_empty(message.id) {
        seq!["empty_message_id"@]
    } else {
        Seq::empty()
    };
    encoding + client + key + id
}

/// The code of the refusal of a message's data, if its kind is refused.
pub open spec fn data_codes(message: BroadcastMessage) -> Seq<Seq<char>> {
    if refused_data_kind(json_value_kind(message.data)) {
        seq![unsupported_data_code()]
    } else {
        Seq::empty()
    }
}

/// The codes of all refusals of a message, in field order: its data, then
/// its other fields.
pub open spec fn message_codes(message: BroadcastMessage) -> Seq<Seq<char>> {
    data_codes(message) + field_codes(message)
}

/// The codes of a list of refusals.
pub open spec fn codes(failures: Seq<ValidationFailure>) -> Seq<Seq<char>> {
    failures.map_values(|f: ValidationFailure| f.code@)
}

/// Appends a refusal to a list.
fn push_failure(list: &mut Vec<ValidationFailure>, failure: ValidationFailure)
    ensures
        codes(final(list)@) == codes(old(list)@).push(failure.code@),
{
    let ghost before = list@;
    let ghost code = failure.code@;
    list.push(failure);
    assert(codes(list@) =~= codes(before).push(code));
}

/// A refusal of an empty text field.
fn empty_failure(code: &str, message: &str) -> (r: ValidationFailure)
    ensures
        r.code@ == code@,
{
    ValidationFailure { code: code.to_owned(), message: message.to_owned() }
}

impl BroadcastMessage {
    /// The refusals of the message, in field order: its data when it is a
    /// boolean or a number, then its other fields.
    pub fn validate(&self) -> (r: Vec<ValidationFailure>)
        ensures
            codes(r@) == message_codes(*self),
    {
        let mut failures: Vec<ValidationFailure> = Vec::new();
        assert(codes(failures@) =~= Seq::<Seq<char>>::empty());
        match validate_message_data(&self.data) {
            Ok(()) => {},
            Err(failure) => {
                push_failure(&mut failures, failure);
            },
        }
        assert(codes(failures@) =~= data_codes(*self));
        let ghost fixed = codes(failures@);
        match &self.encoding {
            Some(encoding) => match validate_encoding(encoding.as_str()) {
                Ok(()) => {},
                Err(failure) => {
                    push_failure(&mut failures, failure);
                },
            },
            None => {},
        }
        let ghost after_encoding = codes(failures@);
        match &self.client_id {
            Some(id) => if id.as_str().is_empty() {
                push_failure(
                    &mut failures,
                    empty_failure("empty_client_id", "Client id must not be empty"),
                );
            },
            None => {},
        }
        let ghost after_client = codes(failures@);
        match &self.connection_key {
            Some(key) => if key.as_str().is_empty() {
                push_failure(
                    &mut failures,
                    empty_failure("empty_connection_key", "Connection key must not be empty"),
                );
            },
            None => {},
        }
        let ghost after_key = codes(failures@);
        match &self.id {
            Some(id) => if id.as_str().is_empty() {
                push_failure(&mut failures, empty_failure("empty_message_id", "Id must not be empty"));
            },
            None => {},
        }
        proof {
            let f = field_codes(*self);
            assert(codes(failures@) =~= fixed + f);
        }
        failures
    }
}

/// The messages of one HTTP publish request.
#[derive(Debug)]
pub struct BroadcastMessages {
    messages: Vec<BroadcastMessage>,
}

impl View for BroadcastMessages {
    type V = Seq<BroadcastMessage>;

    closed spec fn view(&self) -> Seq<BroadcastMessage> {
        self.messages@
    }
}

/// The answer to a refused batch, whatever was refused.
pub open spec fn batch_refusal_text() -> Seq<char> {
    "message batch must not be empty"@
}

impl BroadcastMessages {
    /// The messages of a request body that passes validation: at least one
    /// message, none with a refusal. Otherwise the refusals of the first
    /// refused message (none for an empty batch); any refusal is answered
    /// with the text of `batch_refusal_message`.
    pub fn validated(messages: Vec<BroadcastMessage>) -> (r: Result<Self, Vec<ValidationFailure>>)
        ensures
            match r {
                Ok(batch) => {
                    &&& batch@ == messages@
                    &&& messages@.len() > 0
                    &&& forall|k: int|
                        0 <= k < messages@.len() ==> message_codes(#[trigger] messages@[k]).len() == 0
                },
                Err(failures) => {
                    ||| messages@.len() == 0 && failures@.len() == 0
                    ||| exists|k: int|
                        0 <= k < messages@.len() && codes(failures@).len() > 0 && codes(failures@)
                            == message_codes(#[trigger] messages@[k]) && forall|j: int|
                            0 <= j < k ==> message_codes(#[trigger] messages@[j]).len() == 0
                },
            },
    {
        if messages.len() == 0 {
            return Err(Vec::new());
        }
        let mut k: usize = 0;
        while k < messages.len()
            invariant
                k <= messages@.len(),
                forall|j: int| 0 <= j < k ==> message_codes(#[trigger] messages@[j]).len() == 0,
            decreases messages@.len() - k,
        {
            let failures = messages[k].validate();
            if failures.len() > 0 {
                proof {
                    assert(codes(failures@).len() > 0);
                    assert(0 <= k < messages@.len());
                }
                return Err(failures);
            }
            proof {
                assert(codes(failures@).len() == 0);
            }
            k = k + 1;
        }
        Ok(BroadcastMessages { messages })
    }

    /// The messages.
    pub fn into_inner(self) -> (r: Vec<BroadcastMessage>)
        ensures
            r@ == self@,
    {
        self.messages
    }
}

/// The text a refused batch is answered with.
pub fn batch_refusal_message() -> (r: &'static str)
    ensures
        r@ == batch_refusal_text(),
{
    "message batch must not be empty"
}

/// The message a published HTTP message becomes: its name and data, without
/// a client identifier.
pub fn submitted_message(payload: BroadcastMessage) -> (r: Message)
    ensures
        r.name == payload.name,
        r.data == payload.data,
        r.client_id is None,
{
    Message { name: payload.name, data: payload.data, client_id: None }
}

} // verus!
