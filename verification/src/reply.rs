use vstd::prelude::*;
use vstd::utf8::{decode_utf8, encode_utf8, valid_utf8};

use crate::channel::{err_view, ErrView};
use crate::error::{ChannelStateStoreError, StoreErrorKind};
use crate::protocol::{OccupancyCategories, OccupancyCategory};
use crate::text::{chars_of, push_str, same_text};

verus! {

/// A value of a Redis script reply.
#[derive(Debug)]
pub enum ScriptValue {
    Nil,
    Integer(i64),
    Bytes(Vec<u8>),
    Array(Vec<ScriptValue>),
}

/// Decodes UTF-8 bytes.
///
/// Calls `std::str::from_utf8`; the contract claims it succeeds exactly on
/// valid UTF-8 and gives the text the bytes encode.
#[verifier::external_body]
fn utf8_text(bytes: &[u8]) -> (r: Option<String>)
    ensures
        match r {
            Some(text) => valid_utf8(bytes@) && text@ == decode_utf8(bytes@),
            None => !valid_utf8(bytes@),
        },
{
    match std::str::from_utf8(bytes) {
        Ok(text) => Some(text.to_owned()),
        Err(_) => None,
    }
}

/// The text of a reply value: UTF-8 bytes.
pub open spec fn reply_text(value: ScriptValue) -> Option<Seq<char>> {
    match value {
        ScriptValue::Bytes(bytes) => if valid_utf8(bytes@) {
            Some(decode_utf8(bytes@))
        } else {
            None
        },
        _ => None,
    }
}

/// The reply value is the bytes of `word`.
pub open spec fn is_word(value: ScriptValue, word: Seq<char>) -> bool {
    value matches ScriptValue::Bytes(bytes) && bytes@ == encode_utf8(word)
}

/// Whether the reply value is the bytes of `word`.
pub fn value_is_word(value: &ScriptValue, word: &str) -> (r: bool)
    ensures
        r == is_word(*value, word@),
{
    match value {
        ScriptValue::Bytes(bytes) => {
            let expected = word.as_bytes();
            assert(expected@ == encode_utf8(word@));
            if bytes.len() != expected.len() {
                return false;
            }
            let mut i: usize = 0;
            while i < bytes.len()
                invariant
                    i <= bytes@.len(),
                    *value == ScriptValue::Bytes(*bytes),
                    expected@ == encode_utf8(word@),
                    bytes@.len() == expected@.len(),
                    forall|k: int| 0 <= k < i ==> bytes@[k] == expected@[k],
                decreases bytes@.len() - i,
            {
                if bytes[i] != expected[i] {
                    assert(bytes@[i as int] != expected@[i as int]);
                    return false;
                }
                i = i + 1;
            }
            assert(bytes@ =~= expected@);
            true
        },
        _ => false,
    }
}

/// An internal error of a malformed reply.
pub fn invalid(message: &str) -> (r: ChannelStateStoreError)
    ensures
        err_view(r) == (StoreErrorKind::Internal, message@),
{
    ChannelStateStoreError::internal(message)
}

/// An internal error whose message is `prefix` followed by `detail`.
fn invalid_with(prefix: &str, detail: &str) -> (r: ChannelStateStoreError)
    ensures
        err_view(r) == (StoreErrorKind::Internal, prefix@ + detail@),
{
    let mut message = prefix.to_owned();
    push_str(&mut message, detail);
    ChannelStateStoreError::conflict(message).into_internal()
}

impl ChannelStateStoreError {
    /// The same message as an internal error.
    pub fn into_internal(self) -> (r: ChannelStateStoreError)
        ensures
            err_view(r) == (StoreErrorKind::Internal, self.message_of()),
    {
        match self {
            ChannelStateStoreError::InvalidRequest { message } => ChannelStateStoreError::Internal {
                message,
            },
            ChannelStateStoreError::Conflict { message } => ChannelStateStoreError::Internal {
                message,
            },
            ChannelStateStoreError::Internal { message } => ChannelStateStoreError::Internal {
                message,
            },
        }
    }
}

/// The refusal of a reply field that is not text.
pub open spec fn invalid_text_error(field: Seq<char>) -> ErrView {
    (StoreErrorKind::Internal, "invalid string in Lua reply field "@ + field)
}

/// Reads the text of a reply field.
pub fn decode_text(value: &ScriptValue, field: &str) -> (r: Result<String, ChannelStateStoreError>)
    ensures
        match (r, reply_text(*value)) {
            (Ok(text), Some(t)) => text@ == t,
            (Err(e), None) => err_view(e) == invalid_text_error(field@),
            _ => false,
        },
{
    match value {
        ScriptValue::Bytes(bytes) => match utf8_text(bytes.as_slice()) {
            Some(text) => Ok(text),
            None => Err(invalid_with("invalid string in Lua reply field ", field)),
        },
        _ => Err(invalid_with("invalid string in Lua reply field ", field)),
    }
}

/// The value of a decimal digit character.
pub open spec fn digit_value(c: char) -> int {
    (c as int) - 48
}

/// The character is an ASCII digit.
pub open spec fn is_digit(c: char) -> bool {
    48 <= (c as int) <= 57
}

/// The number written by decimal digits.
pub open spec fn digits_value(digits: Seq<char>) -> nat
    decreases digits.len(),
{
    if digits.len() == 0 {
        0
    } else {
        (digits_value(digits.drop_last()) * 10 + digit_value(digits.last())) as nat
    }
}

/// The number a text writes as an unsigned 64-bit integer: an optional `+`
/// then at least one ASCII digit, and a value that fits.
pub open spec fn spec_parse_u64(text: Seq<char>) -> Option<u64> {
    let digits = unsigned_digits(text);
    if digits.len() > 0 && all_digits(digits) && digits_value(digits) <= u64::MAX {
        Some(digits_value(digits) as u64)
    } else {
        None
    }
}

/// The text without a leading `+`.
pub open spec fn unsigned_digits(text: Seq<char>) -> Seq<char> {
    if text.len() > 0 && text[0] == '+' {
        text.drop_first()
    } else {
        text
    }
}

/// Every character is an ASCII digit.
pub open spec fn all_digits(digits: Seq<char>) -> bool {
    forall|i: int| 0 <= i < digits.len() ==> is_digit(#[trigger] digits[i])
}

/// The value of an ASCII digit.
fn digit_of(c: char) -> (d: u64)
    requires
        is_digit(c),
    ensures
        d == digit_value(c),
        d <= 9,
{
    if c == '0' {
        0
    } else if c == '1' {
        1
    } else if c == '2' {
        2
    } else if c == '3' {
        3
    } else if c == '4' {
        4
    } else if c == '5' {
        5
    } else if c == '6' {
        6
    } else if c == '7' {
        7
    } else if c == '8' {
        8
    } else {
        9
    }
}

/// Reads an unsigned 64-bit integer as `str::parse` does.
pub fn parse_u64(text: &str) -> (r: Option<u64>)
    ensures
        r == spec_parse_u64(text@),
{
    let chars = chars_of(text);
    let n = chars.len();
    let start: usize = if n > 0 && chars[0] == '+' {
        1
    } else {
        0
    };
    let ghost digits = unsigned_digits(text@);
    proof {
        assert(digits =~= text@.skip(start as int));
    }
    if start == n {
        return None;
    }
    let mut value: u64 = 0;
    let mut i = start;
    while i < n
        invariant
            chars@ == text@,
            n == chars@.len(),
            start <= i <= n,
            digits == text@.skip(start as int),
            digits == unsigned_digits(text@),
            forall|k: int| start <= k < i ==> is_digit(#[trigger] chars@[k]),
            value as nat == digits_value(digits.take(i - start)),
        decreases n - i,
    {
        let c = chars[i];
        if c < '0' || c > '9' {
            proof {
                assert(digits[i - start] == c);
                assert(!is_digit(c));
                assert(!all_digits(digits));
            }
            return None;
        }
        let d = digit_of(c);
        proof {
            assert(digits.take(i - start + 1).drop_last() =~= digits.take(i - start));
            assert(digits.take(i - start + 1).last() == c);
            assert(d == digit_value(c));
        }
        if value > (u64::MAX - d) / 10 {
            proof {
                assert(value * 10 + d > u64::MAX) by (nonlinear_arith)
                    requires
                        value > (u64::MAX - d) / 10,
                        d <= 9,
                ;
                let prefix = digits.take(i - start + 1);
                assert(digits_value(prefix) == digits_value(prefix.drop_last()) * 10 + digit_value(
                    prefix.last(),
                ));
                assert(digits_value(prefix) > u64::MAX);
                if all_digits(digits) {
                    lemma_digits_value_prefix(digits, i - start + 1);
                    assert(digits_value(digits) > u64::MAX);
                }
            }
            return None;
        }
        assert(value * 10 + d <= u64::MAX) by (nonlinear_arith)
            requires
                value <= (u64::MAX - d) / 10,
                d <= 9,
        ;
        value = value * 10 + d;
        i = i + 1;
    }
    proof {
        assert(digits.take(n - start) =~= digits);
        assert forall|k: int| 0 <= k < digits.len() implies is_digit(#[trigger] digits[k]) by {
            assert(digits[k] == chars@[k + start]);
        }
    }
    Some(value)
}

/// A number's digits are worth at least those of any prefix.
pub proof fn lemma_digits_value_prefix(digits: Seq<char>, k: int)
    requires
        0 <= k <= digits.len(),
        forall|i: int| 0 <= i < digits.len() ==> is_digit(#[trigger] digits[i]),
    ensures
        digits_value(digits.take(k)) <= digits_value(digits),
    decreases digits.len() - k,
{
    if k < digits.len() {
        lemma_digits_value_prefix(digits, k + 1);
        assert(digits.take(k + 1).drop_last() =~= digits.take(k));
        assert(is_digit(digits[k]));
    } else {
        assert(digits.take(k) =~= digits);
    }
}

/// The refusal of a reply field that is not a decimal `u64`.
pub open spec fn invalid_u64_error(field: Seq<char>) -> ErrView {
    (StoreErrorKind::Internal, "invalid u64 in Lua reply field "@ + field)
}

/// The `u64` a reply field holds as decimal text.
pub open spec fn reply_u64(value: ScriptValue) -> Option<u64> {
    match reply_text(value) {
        Some(text) => spec_parse_u64(text),
        None => None,
    }
}

/// Reads a counter or version from the decimal text of a reply field.
pub fn decode_u64(value: &ScriptValue, field: &str) -> (r: Result<u64, ChannelStateStoreError>)
    ensures
        match (r, reply_u64(*value)) {
            (Ok(n), Some(m)) => n == m,
            (Err(e), None) => err_view(e) == invalid_u64_error(field@),
            _ => false,
        },
{
    let text = match value {
        ScriptValue::Bytes(bytes) => match utf8_text(bytes.as_slice()) {
            Some(text) => text,
            None => {
                return Err(invalid_with("invalid u64 in Lua reply field ", field));
            },
        },
        _ => {
            return Err(invalid_with("invalid u64 in Lua reply field ", field));
        },
    };
    match parse_u64(text.as_str()) {
        Some(n) => Ok(n),
        None => Err(invalid_with("invalid u64 in Lua reply field ", field)),
    }
}

/// The store error of a refusal code and message of a script.
pub open spec fn spec_rejection(code: Seq<char>, message: Seq<char>) -> ErrView {
    if code == "invalid_request"@ {
        (StoreErrorKind::InvalidRequest, message)
    } else if code == "lease_lost"@ || code == "connection_closed"@ || code
        == "generation_mismatch"@ || code == "generation_active"@ {
        (StoreErrorKind::Conflict, message)
    } else if code == "corrupt_state"@ || code == "numeric_overflow"@ {
        (StoreErrorKind::Internal, message)
    } else {
        (StoreErrorKind::Internal, "unknown Lua rejection code "@ + code + ": "@ + message)
    }
}

/// Turns the refusal code and message of a script into a store error.
pub fn decode_rejection(code: &str, message: String) -> (r: ChannelStateStoreError)
    ensures
        err_view(r) == spec_rejection(code@, message@),
{
    if same_text(code, "invalid_request") {
        ChannelStateStoreError::InvalidRequest { message }
    } else if same_text(code, "lease_lost") || same_text(code, "connection_closed") || same_text(
        code,
        "generation_mismatch",
    ) || same_text(code, "generation_active") {
        ChannelStateStoreError::Conflict { message }
    } else if same_text(code, "corrupt_state") || same_text(code, "numeric_overflow") {
        ChannelStateStoreError::Internal { message }
    } else {
        let mut text = "unknown Lua rejection code ".to_owned();
        push_str(&mut text, code);
        push_str(&mut text, ": ");
        push_str(&mut text, message.as_str());
        ChannelStateStoreError::Internal { message: text }
    }
}


/// A named field of a reply record: its name and the position of its value.
#[derive(Debug)]
pub struct ReplyField {
    pub name: String,
    pub value: usize,
}

/// The names of fields.
pub open spec fn field_names(fields: Seq<(Seq<char>, int)>) -> Seq<Seq<char>> {
    fields.map_values(|f: (Seq<char>, int)| f.0)
}

/// The first `count` name/value pairs of a reply record.
pub open spec fn pair_fields(values: Seq<ScriptValue>, count: nat) -> Result<
    Seq<(Seq<char>, int)>,
    ErrView,
>
    decreases count,
{
    if count == 0 {
        Ok(Seq::empty())
    } else {
        match pair_fields(values, (count - 1) as nat) {
            Err(e) => Err(e),
            Ok(fields) => {
                let i = 2 * (count - 1);
                if i + 1 >= values.len() {
                    Err((StoreErrorKind::Internal, "incomplete field/value pair in Lua reply"@))
                } else {
                    match reply_text(values[i]) {
                        None => Err(invalid_text_error("field name"@)),
                        Some(name) => if field_names(fields).contains(name) {
                            Err(
                                (
                                    StoreErrorKind::Internal,
                                    "duplicate field "@ + name + " in Lua reply"@,
                                ),
                            )
                        } else {
                            Ok(fields.push((name, i + 1)))
                        },
                    }
                }
            },
        }
    }
}

/// The fields of a reply record: an array of name/value pairs with distinct
/// names.
pub open spec fn spec_fields(value: ScriptValue) -> Result<Seq<(Seq<char>, int)>, ErrView> {
    match value {
        ScriptValue::Array(values) => pair_fields(values@, ((values@.len() + 1) / 2) as nat),
        _ => Err((StoreErrorKind::Internal, "expected field/value pairs in Lua reply"@)),
    }
}

/// Once a pair is refused, reading more pairs gives the same refusal.
pub proof fn lemma_pair_fields_error(values: Seq<ScriptValue>, m: nat, n: nat)
    requires
        pair_fields(values, m) is Err,
        m <= n,
    ensures
        pair_fields(values, n) == pair_fields(values, m),
    decreases n - m,
{
    if m < n {
        lemma_pair_fields_error(values, m, (n - 1) as nat);
    }
}

/// The fields as read.
pub open spec fn fields_view(fields: Seq<ReplyField>) -> Seq<(Seq<char>, int)> {
    fields.map_values(|f: ReplyField| (f.name@, f.value as int))
}

/// Read fields point into the record and have distinct names.
pub open spec fn fields_well_formed(values: Seq<ScriptValue>, fields: Seq<ReplyField>) -> bool {
    &&& forall|j: int| 0 <= j < fields.len() ==> (#[trigger] fields[j]).value < values.len()
    &&& field_names(fields_view(fields)).no_duplicates()
}

/// Reads the name/value pairs of a reply record.
pub fn decode_fields(value: &ScriptValue) -> (r: Result<Vec<ReplyField>, ChannelStateStoreError>)
    ensures
        match (r, spec_fields(*value)) {
            (Ok(fields), Ok(f)) => {
                &&& fields_view(fields@) == f
                &&& value matches ScriptValue::Array(values)
                &&& fields_well_formed(value->Array_0@, fields@)
            },
            (Err(e), Err(v)) => err_view(e) == v,
            _ => false,
        },
{
    let values = match value {
        ScriptValue::Array(values) => values,
        _ => {
            return Err(invalid("expected field/value pairs in Lua reply"));
        },
    };
    let n = values.len();
    let pairs = n / 2 + n % 2;
    let mut fields: Vec<ReplyField> = Vec::new();
    let mut k: usize = 0;
    assert(fields_view(fields@) =~= Seq::<(Seq<char>, int)>::empty());
    assert(field_names(fields_view(fields@)) =~= Seq::<Seq<char>>::empty());
    while k < pairs
        invariant
            *value == ScriptValue::Array(*values),
            n == values@.len(),
            pairs == (n + 1) / 2,
            k <= pairs,
            fields@.len() == k,
            pair_fields(values@, k as nat) == Ok::<Seq<(Seq<char>, int)>, ErrView>(fields_view(fields@)),
            forall|j: int| 0 <= j < fields@.len() ==> (#[trigger] fields@[j]).value < n,
            field_names(fields_view(fields@)).no_duplicates(),
        decreases pairs - k,
    {
        let i = 2 * k;
        if i + 1 >= n {
            return Err(invalid("incomplete field/value pair in Lua reply"));
        }
        let name = match decode_text(&values[i], "field name") {
            Ok(name) => name,
            Err(e) => {
                proof {
                    lemma_pair_fields_error(values@, (k + 1) as nat, pairs as nat);
                }
                return Err(e);
            },
        };
        let mut duplicate = false;
        let mut j: usize = 0;
        while j < fields.len()
            invariant
                j <= fields@.len(),
                duplicate == exists|m: int| 0 <= m < j && fields@[m].name@ == name@,
            decreases fields@.len() - j,
        {
            if same_text(fields[j].name.as_str(), name.as_str()) {
                duplicate = true;
            }
            j = j + 1;
        }
        proof {
            let names = field_names(fields_view(fields@));
            assert(names.contains(name@) == duplicate) by {
                if duplicate {
                    let m = choose|m: int| 0 <= m < fields@.len() && fields@[m].name@ == name@;
                    assert(names[m] == name@);
                }
                if names.contains(name@) {
                    let m = choose|m: int| 0 <= m < names.len() && names[m] == name@;
                    assert(fields@[m].name@ == name@);
                }
            }
        }
        if duplicate {
            proof {
                lemma_pair_fields_error(values@, (k + 1) as nat, pairs as nat);
            }
            let mut message = "duplicate field ".to_owned();
            push_str(&mut message, name.as_str());
            push_str(&mut message, " in Lua reply");
            return Err(ChannelStateStoreError::conflict(message).into_internal());
        }
        let ghost before = fields_view(fields@);
        let ghost name_view = name@;
        fields.push(ReplyField { name, value: i + 1 });
        proof {
            assert(fields_view(fields@) =~= before.push((name_view, i + 1)));
            let names = field_names(fields_view(fields@));
            assert(names =~= field_names(before).push(name_view));
            assert forall|a: int, b: int| 0 <= a < names.len() && 0 <= b < names.len() && a != b implies names[a] != names[b] by {
                if a == k as int {
                    assert(field_names(before).contains(names[b]));
                } else if b == k as int {
                    assert(field_names(before).contains(names[a]));
                }
            }
        }
        k = k + 1;
    }
    Ok(fields)
}

/// The position of the value of field `name`, if there is one.
pub open spec fn field_position(fields: Seq<(Seq<char>, int)>, name: Seq<char>) -> Option<int> {
    if exists|j: int| 0 <= j < fields.len() && fields[j].0 == name {
        Some(fields[choose|j: int| 0 <= j < fields.len() && fields[j].0 == name].1)
    } else {
        None
    }
}

/// The refusal of a missing field.
pub open spec fn missing_field_error(name: Seq<char>) -> ErrView {
    (StoreErrorKind::Internal, "missing Lua reply field "@ + name)
}

/// The value of field `name`.
pub fn required_field<'a>(
    values: &'a Vec<ScriptValue>,
    fields: &Vec<ReplyField>,
    name: &str,
) -> (r: Result<&'a ScriptValue, ChannelStateStoreError>)
    requires
        forall|j: int| 0 <= j < fields@.len() ==> (#[trigger] fields@[j]).value < values@.len(),
        field_names(fields_view(fields@)).no_duplicates(),
    ensures
        match (r, field_position(fields_view(fields@), name@)) {
            (Ok(v), Some(p)) => *v == values@[p],
            (Err(e), None) => err_view(e) == missing_field_error(name@),
            _ => false,
        },
{
    let ghost view = fields_view(fields@);
    let mut j: usize = 0;
    while j < fields.len()
        invariant
            j <= fields@.len(),
            view == fields_view(fields@),
            forall|m: int| 0 <= m < j ==> view[m].0 != name@,
            forall|m: int| 0 <= m < fields@.len() ==> (#[trigger] fields@[m]).value < values@.len(),
            field_names(view).no_duplicates(),
        decreases fields@.len() - j,
    {
        if same_text(fields[j].name.as_str(), name) {
            proof {
                assert(view[j as int].0 == name@);
                let c = choose|c: int| 0 <= c < view.len() && view[c].0 == name@;
                if c != j {
                    assert(field_names(view)[c] == field_names(view)[j as int]);
                }
                assert(view[j as int].1 == fields@[j as int].value);
            }
            return Ok(&values[fields[j].value]);
        }
        j = j + 1;
    }
    Err(invalid_with("missing Lua reply field ", name))
}

/// The wire name of each Occupancy counter, in the order of a reply.
pub open spec fn metric_name(k: int) -> Seq<char> {
    if k == 0 {
        "connections"@
    } else if k == 1 {
        "publishers"@
    } else if k == 2 {
        "subscribers"@
    } else if k == 3 {
        "presence_connections"@
    } else if k == 4 {
        "presence_subscribers"@
    } else {
        "presence_members"@
    }
}

fn metric_name_text(k: usize) -> (r: &'static str)
    requires
        k < 6,
    ensures
        r@ == metric_name(k as int),
{
    if k == 0 {
        "connections"
    } else if k == 1 {
        "publishers"
    } else if k == 2 {
        "subscribers"
    } else if k == 3 {
        "presence_connections"
    } else if k == 4 {
        "presence_subscribers"
    } else {
        "presence_members"
    }
}

/// The refusal of malformed Occupancy counters.
pub open spec fn invalid_metrics_error() -> ErrView {
    (StoreErrorKind::Internal, "invalid occupancy metrics in Lua reply"@)
}

/// Counter `k` of a reply: its name must be the expected one.
pub open spec fn metric_counter(values: Seq<ScriptValue>, k: int) -> Result<u64, ErrView> {
    if !is_word(values[2 * k], metric_name(k)) {
        Err(invalid_metrics_error())
    } else {
        match reply_u64(values[2 * k + 1]) {
            Some(n) => Ok(n),
            None => Err(invalid_u64_error(metric_name(k))),
        }
    }
}

/// The first refusal among the first `k` counters.
pub open spec fn metrics_error(values: Seq<ScriptValue>, k: nat) -> Option<ErrView>
    decreases k,
{
    if k == 0 {
        None
    } else {
        match metrics_error(values, (k - 1) as nat) {
            Some(e) => Some(e),
            None => match metric_counter(values, k - 1) {
                Err(e) => Some(e),
                Ok(_) => None,
            },
        }
    }
}

/// The Occupancy counters of a reply: six name/value pairs in a fixed order.
pub open spec fn spec_metrics(value: ScriptValue) -> Result<crate::protocol::OccupancyMetrics, ErrView> {
    match value {
        ScriptValue::Array(values) => if values@.len() != 12 {
            Err(invalid_metrics_error())
        } else {
            match metrics_error(values@, 6) {
                Some(e) => Err(e),
                None => Ok(
                    crate::protocol::OccupancyMetrics {
                        connections: metric_counter(values@, 0)->Ok_0,
                        publishers: metric_counter(values@, 1)->Ok_0,
                        subscribers: metric_counter(values@, 2)->Ok_0,
                        presence_connections: metric_counter(values@, 3)->Ok_0,
                        presence_subscribers: metric_counter(values@, 4)->Ok_0,
                        presence_members: metric_counter(values@, 5)->Ok_0,
                    },
                ),
            }
        },
        _ => Err(invalid_metrics_error()),
    }
}

/// No refusal among `k` counters means none among fewer.
pub proof fn lemma_metrics_prefix(values: Seq<ScriptValue>, j: nat, k: nat)
    requires
        j <= k,
        metrics_error(values, k) is None,
    ensures
        metrics_error(values, j) is None,
        j < k ==> metric_counter(values, j as int) is Ok,
    decreases k - j,
{
    if j < k {
        lemma_metrics_prefix(values, j, (k - 1) as nat);
        if j + 1 < k {
            lemma_metrics_prefix(values, (j + 1) as nat, (k - 1) as nat);
        }
    }
}

/// Once a counter is refused, reading more gives the same refusal.
pub proof fn lemma_metrics_error(values: Seq<ScriptValue>, j: nat, k: nat)
    requires
        j <= k,
        metrics_error(values, j) is Some,
    ensures
        metrics_error(values, k) == metrics_error(values, j),
    decreases k - j,
{
    if j < k {
        lemma_metrics_error(values, j, (k - 1) as nat);
    }
}

/// Reads the six Occupancy counters in the order the script gives them.
pub fn decode_metrics(value: &ScriptValue) -> (r: Result<crate::protocol::OccupancyMetrics, ChannelStateStoreError>)
    ensures
        match (r, spec_metrics(*value)) {
            (Ok(metrics), Ok(m)) => metrics == m,
            (Err(e), Err(v)) => err_view(e) == v,
            _ => false,
        },
{
    let values = match value {
        ScriptValue::Array(values) => values,
        _ => {
            return Err(invalid("invalid occupancy metrics in Lua reply"));
        },
    };
    if values.len() != 12 {
        return Err(invalid("invalid occupancy metrics in Lua reply"));
    }
    let mut counters: Vec<u64> = Vec::new();
    let mut k: usize = 0;
    while k < 6
        invariant
            *value == ScriptValue::Array(*values),
            values@.len() == 12,
            k <= 6,
            counters@.len() == k,
            metrics_error(values@, k as nat) is None,
            forall|j: int| 0 <= j < k ==> metric_counter(values@, j) == Ok::<u64, ErrView>(#[trigger] counters@[j]),
        decreases 6 - k,
    {
        let name = metric_name_text(k);
        if !value_is_word(&values[2 * k], name) {
            proof {
                lemma_metrics_error(values@, (k + 1) as nat, 6);
            }
            return Err(invalid("invalid occupancy metrics in Lua reply"));
        }
        let n = match decode_u64(&values[2 * k + 1], name) {
            Ok(n) => n,
            Err(e) => {
                proof {
                    lemma_metrics_error(values@, (k + 1) as nat, 6);
                }
                return Err(e);
            },
        };
        counters.push(n);
        k = k + 1;
    }
    Ok(
        crate::protocol::OccupancyMetrics {
            connections: counters[0],
            publishers: counters[1],
            subscribers: counters[2],
            presence_connections: counters[3],
            presence_subscribers: counters[4],
            presence_members: counters[5],
        },
    )
}

/// The Occupancy counter with a wire name, if any.
pub open spec fn category_named(name: Seq<char>) -> Option<OccupancyCategory> {
    if name == "connections"@ {
        Some(OccupancyCategory::Connections)
    } else if name == "publishers"@ {
        Some(OccupancyCategory::Publishers)
    } else if name == "subscribers"@ {
        Some(OccupancyCategory::Subscribers)
    } else if name == "presence_connections"@ {
        Some(OccupancyCategory::PresenceConnections)
    } else if name == "presence_subscribers"@ {
        Some(OccupancyCategory::PresenceSubscribers)
    } else if name == "presence_members"@ {
        Some(OccupancyCategory::PresenceMembers)
    } else {
        None
    }
}

fn category_from_wire_name(name: &str) -> (r: Option<OccupancyCategory>)
    ensures
        r == category_named(name@),
{
    if same_text(name, "connections") {
        Some(OccupancyCategory::Connections)
    } else if same_text(name, "publishers") {
        Some(OccupancyCategory::Publishers)
    } else if same_text(name, "subscribers") {
        Some(OccupancyCategory::Subscribers)
    } else if same_text(name, "presence_connections") {
        Some(OccupancyCategory::PresenceConnections)
    } else if same_text(name, "presence_subscribers") {
        Some(OccupancyCategory::PresenceSubscribers)
    } else if same_text(name, "presence_members") {
        Some(OccupancyCategory::PresenceMembers)
    } else {
        None
    }
}

/// The text begins with `prefix`.
pub open spec fn has_prefix(text: Seq<char>, prefix: Seq<char>) -> bool {
    text.len() >= prefix.len() && text.take(prefix.len() as int) == prefix
}

/// The rest of a text after `prefix`, when it begins with it.
pub fn strip_prefix(text: &str, prefix: &str) -> (r: Option<String>)
    ensures
        match r {
            Some(rest) => has_prefix(text@, prefix@) && rest@ == text@.skip(prefix@.len() as int),
            None => !has_prefix(text@, prefix@),
        },
{
    let t = chars_of(text);
    let p = chars_of(prefix);
    if t.len() < p.len() {
        return None;
    }
    let mut i: usize = 0;
    while i < p.len()
        invariant
            t@ == text@,
            p@ == prefix@,
            p@.len() <= t@.len(),
            i <= p@.len(),
            forall|k: int| 0 <= k < i ==> t@[k] == p@[k],
        decreases p@.len() - i,
    {
        if t[i] != p[i] {
            assert(text@.take(prefix@.len() as int)[i as int] != prefix@[i as int]);
            return None;
        }
        i = i + 1;
    }
    assert(text@.take(prefix@.len() as int) =~= prefix@);
    let n = t.len();
    let rest = crate::split::text_between(&t, p.len(), n);
    assert(rest@ =~= text@.skip(prefix@.len() as int));
    Some(rest)
}

/// A flag field under `prefix` is `1` and names a counter.
pub open spec fn flag_ok(values: Seq<ScriptValue>, field: (Seq<char>, int), prefix: Seq<char>) -> bool {
    has_prefix(field.0, prefix) ==> {
        &&& reply_text(values[field.1]) == Some("1"@)
        &&& category_named(field.0.skip(prefix.len() as int)) is Some
    }
}

/// The counters flagged under `prefix`.
pub open spec fn flagged(fields: Seq<(Seq<char>, int)>, prefix: Seq<char>) -> OccupancyCategories {
    let names = field_names(fields);
    OccupancyCategories {
        connections: names.contains(prefix + "connections"@),
        publishers: names.contains(prefix + "publishers"@),
        subscribers: names.contains(prefix + "subscribers"@),
        presence_connections: names.contains(prefix + "presence_connections"@),
        presence_subscribers: names.contains(prefix + "presence_subscribers"@),
        presence_members: names.contains(prefix + "presence_members"@),
    }
}

/// The flagged counters, when every flag under `prefix` is valid.
pub open spec fn spec_categories(
    values: Seq<ScriptValue>,
    fields: Seq<(Seq<char>, int)>,
    prefix: Seq<char>,
) -> Option<OccupancyCategories> {
    if forall|j: int| 0 <= j < fields.len() ==> flag_ok(values, #[trigger] fields[j], prefix) {
        Some(flagged(fields, prefix))
    } else {
        None
    }
}

/// What a pushed sequence contains.
proof fn lemma_push_contains<A>(s: Seq<A>, v: A, x: A)
    ensures
        s.push(v).contains(x) == (s.contains(x) || v == x),
{
    if s.contains(x) {
        let i = choose|i: int| 0 <= i < s.len() && s[i] == x;
        assert(s.push(v)[i] == x);
    }
    if v == x {
        assert(s.push(v)[s.len() as int] == x);
    }
    if s.push(v).contains(x) && v != x {
        let i = choose|i: int| 0 <= i < s.push(v).len() && s.push(v)[i] == x;
        assert(i < s.len());
        assert(s[i] == x);
    }
}

/// The flagged counters after one more field.
proof fn lemma_flagged_push(fields: Seq<(Seq<char>, int)>, field: (Seq<char>, int), prefix: Seq<char>)
    ensures
        flagged(fields.push(field), prefix) == (OccupancyCategories {
            connections: flagged(fields, prefix).connections || field.0 == prefix + "connections"@,
            publishers: flagged(fields, prefix).publishers || field.0 == prefix + "publishers"@,
            subscribers: flagged(fields, prefix).subscribers || field.0 == prefix + "subscribers"@,
            presence_connections: flagged(fields, prefix).presence_connections || field.0 == prefix
                + "presence_connections"@,
            presence_subscribers: flagged(fields, prefix).presence_subscribers || field.0 == prefix
                + "presence_subscribers"@,
            presence_members: flagged(fields, prefix).presence_members || field.0 == prefix
                + "presence_members"@,
        }),
{
    let names = field_names(fields);
    assert(field_names(fields.push(field)) =~= names.push(field.0));
    lemma_push_contains(names, field.0, prefix + "connections"@);
    lemma_push_contains(names, field.0, prefix + "publishers"@);
    lemma_push_contains(names, field.0, prefix + "subscribers"@);
    lemma_push_contains(names, field.0, prefix + "presence_connections"@);
    lemma_push_contains(names, field.0, prefix + "presence_subscribers"@);
    lemma_push_contains(names, field.0, prefix + "presence_members"@);
}

/// The wire names of the counters are distinct.
proof fn lemma_wire_names_distinct()
    ensures
        "connections"@ != "publishers"@,
        "connections"@ != "subscribers"@,
        "connections"@ != "presence_connections"@,
        "connections"@ != "presence_subscribers"@,
        "connections"@ != "presence_members"@,
        "publishers"@ != "subscribers"@,
        "publishers"@ != "presence_connections"@,
        "publishers"@ != "presence_subscribers"@,
        "publishers"@ != "presence_members"@,
        "subscribers"@ != "presence_connections"@,
        "subscribers"@ != "presence_subscribers"@,
        "subscribers"@ != "presence_members"@,
        "presence_connections"@ != "presence_subscribers"@,
        "presence_connections"@ != "presence_members"@,
        "presence_subscribers"@ != "presence_members"@,
{
    reveal_strlit("connections");
    reveal_strlit("publishers");
    reveal_strlit("subscribers");
    reveal_strlit("presence_connections");
    reveal_strlit("presence_subscribers");
    reveal_strlit("presence_members");
    assert("connections"@[0] != "publishers"@[0] || "connections"@.len() != "publishers"@.len());
    assert("connections"@[0] != "subscribers"@[0] || "connections"@.len() != "subscribers"@.len());
    assert("connections"@[0] != "presence_connections"@[0] || "connections"@.len() != "presence_connections"@.len());
    assert("connections"@[0] != "presence_subscribers"@[0] || "connections"@.len() != "presence_subscribers"@.len());
    assert("connections"@[0] != "presence_members"@[0] || "connections"@.len() != "presence_members"@.len());
    assert("publishers"@[0] != "subscribers"@[0] || "publishers"@.len() != "subscribers"@.len());
    assert("publishers"@[0] != "presence_connections"@[0] || "publishers"@.len() != "presence_connections"@.len());
    assert("publishers"@[0] != "presence_subscribers"@[0] || "publishers"@.len() != "presence_subscribers"@.len());
    assert("publishers"@[0] != "presence_members"@[0] || "publishers"@.len() != "presence_members"@.len());
    assert("subscribers"@[0] != "presence_connections"@[0] || "subscribers"@.len() != "presence_connections"@.len());
    assert("subscribers"@[0] != "presence_subscribers"@[0] || "subscribers"@.len() != "presence_subscribers"@.len());
    assert("subscribers"@[0] != "presence_members"@[0] || "subscribers"@.len() != "presence_members"@.len());
    assert("presence_connections"@[9] != "presence_subscribers"@[9] || "presence_connections"@.len() != "presence_subscribers"@.len());
    assert("presence_connections"@[9] != "presence_members"@[9] || "presence_connections"@.len() != "presence_members"@.len());
    assert("presence_subscribers"@[9] != "presence_members"@[9] || "presence_subscribers"@.len() != "presence_members"@.len());
}

/// The name of a counter behind a prefix is that prefix and the counter's name.
proof fn lemma_flag_name(name: Seq<char>, prefix: Seq<char>, wire: Seq<char>)
    ensures
        (name == prefix + wire) <==> (has_prefix(name, prefix) && name.skip(prefix.len() as int)
            == wire),
{
    if name == prefix + wire {
        assert(name.take(prefix.len() as int) =~= prefix);
        assert(name.skip(prefix.len() as int) =~= wire);
    }
    if has_prefix(name, prefix) && name.skip(prefix.len() as int) == wire {
        assert(name =~= name.take(prefix.len() as int) + name.skip(prefix.len() as int));
    }
}

/// Reads the Occupancy counters flagged `1` under `prefix`.
pub fn decode_categories(values: &Vec<ScriptValue>, fields: &Vec<ReplyField>, prefix: &str) -> (r:
    Result<OccupancyCategories, ChannelStateStoreError>)
    requires
        forall|j: int| 0 <= j < fields@.len() ==> (#[trigger] fields@[j]).value < values@.len(),
    ensures
        match (r, spec_categories(values@, fields_view(fields@), prefix@)) {
            (Ok(categories), Some(c)) => categories == c,
            (Err(e), None) => e.kind_of() == StoreErrorKind::Internal,
            _ => false,
        },
{
    let ghost view = fields_view(fields@);
    let mut categories = OccupancyCategories::none();
    let mut j: usize = 0;
    assert(view.take(0) =~= Seq::<(Seq<char>, int)>::empty());
    while j < fields.len()
        invariant
            j <= fields@.len(),
            view == fields_view(fields@),
            forall|m: int| 0 <= m < fields@.len() ==> (#[trigger] fields@[m]).value < values@.len(),
            forall|m: int| 0 <= m < j ==> flag_ok(values@, #[trigger] view[m], prefix@),
            categories == flagged(view.take(j as int), prefix@),
        decreases fields@.len() - j,
    {
        let field = &fields[j];
        let ghost before = view.take(j as int);
        let ghost name = field.name@;
        proof {
            assert(view.take(j + 1) =~= before.push(view[j as int]));
            assert(view[j as int].0 == name);
            lemma_flagged_push(before, view[j as int], prefix@);
            lemma_flag_name(name, prefix@, "connections"@);
            lemma_flag_name(name, prefix@, "publishers"@);
            lemma_flag_name(name, prefix@, "subscribers"@);
            lemma_flag_name(name, prefix@, "presence_connections"@);
            lemma_flag_name(name, prefix@, "presence_subscribers"@);
            lemma_flag_name(name, prefix@, "presence_members"@);
        }
        match strip_prefix(field.name.as_str(), prefix) {
            None => {
                proof {
                    assert(categories == flagged(view.take(j + 1), prefix@));
                }
            },
            Some(rest) => {
                let flag = match decode_text(&values[field.value], field.name.as_str()) {
                    Ok(text) => text,
                    Err(e) => {
                        proof {
                            assert(!flag_ok(values@, view[j as int], prefix@));
                        }
                        return Err(e);
                    },
                };
                if !same_text(flag.as_str(), "1") {
                    proof {
                        assert(!flag_ok(values@, view[j as int], prefix@));
                    }
                    return Err(invalid_with("invalid Occupancy flag ", field.name.as_str()));
                }
                match category_from_wire_name(rest.as_str()) {
                    None => {
                        proof {
                            assert(!flag_ok(values@, view[j as int], prefix@));
                        }
                        return Err(invalid_with("unknown Occupancy category ", rest.as_str()));
                    },
                    Some(category) => {
                        proof {
                            reveal_strlit("connections");
                            reveal_strlit("publishers");
                            reveal_strlit("subscribers");
                            reveal_strlit("presence_connections");
                            reveal_strlit("presence_subscribers");
                            reveal_strlit("presence_members");
                        }
                        let ghost old_categories = categories;
                        categories.insert(category);
                        proof {
                            let r = rest@;
                            assert(r == name.skip(prefix@.len() as int));
                            assert((name == prefix@ + "connections"@) == (r == "connections"@));
                            assert((name == prefix@ + "publishers"@) == (r == "publishers"@));
                            assert((name == prefix@ + "subscribers"@) == (r == "subscribers"@));
                            assert((name == prefix@ + "presence_connections"@) == (r
                                == "presence_connections"@));
                            assert((name == prefix@ + "presence_subscribers"@) == (r
                                == "presence_subscribers"@));
                            assert((name == prefix@ + "presence_members"@) == (r
                                == "presence_members"@));
                            lemma_wire_names_distinct();
                            assert(categories == flagged(view.take(j + 1), prefix@));
                        }
                    },
                }
            },
        }
        j = j + 1;
    }
    proof {
        assert(view.take(view.len() as int) =~= view);
    }
    Ok(categories)
}

/// The text of the record field `name`.
pub open spec fn field_text(values: Seq<ScriptValue>, fields: Seq<(Seq<char>, int)>, name: Seq<char>) -> Option<Seq<char>> {
    match field_position(fields, name) {
        Some(p) => reply_text(values[p]),
        None => None,
    }
}

/// The `u64` of the record field `name`.
pub open spec fn field_u64(values: Seq<ScriptValue>, fields: Seq<(Seq<char>, int)>, name: Seq<char>) -> Option<u64> {
    match field_position(fields, name) {
        Some(p) => reply_u64(values[p]),
        None => None,
    }
}

/// Reads the text of the record field `name`.
pub fn field_text_of(values: &Vec<ScriptValue>, fields: &Vec<ReplyField>, name: &str) -> (r: Result<
    String,
    ChannelStateStoreError,
>)
    requires
        fields_well_formed(values@, fields@),
    ensures
        match (r, field_text(values@, fields_view(fields@), name@)) {
            (Ok(text), Some(t)) => text@ == t,
            (Err(e), None) => e.kind_of() == StoreErrorKind::Internal,
            _ => false,
        },
{
    let value = match required_field(values, fields, name) {
        Ok(value) => value,
        Err(e) => {
            return Err(e);
        },
    };
    decode_text(value, name)
}

/// Reads the `u64` of the record field `name`.
pub fn field_u64_of(values: &Vec<ScriptValue>, fields: &Vec<ReplyField>, name: &str) -> (r: Result<
    u64,
    ChannelStateStoreError,
>)
    requires
        fields_well_formed(values@, fields@),
    ensures
        match (r, field_u64(values@, fields_view(fields@), name@)) {
            (Ok(n), Some(m)) => n == m,
            (Err(e), None) => e.kind_of() == StoreErrorKind::Internal,
            _ => false,
        },
{
    let value = match required_field(values, fields, name) {
        Ok(value) => value,
        Err(e) => {
            return Err(e);
        },
    };
    decode_u64(value, name)
}

/// Whether the record has a field `name`.
pub fn has_field(fields: &Vec<ReplyField>, name: &str) -> (r: bool)
    ensures
        r == field_position(fields_view(fields@), name@) is Some,
{
    let ghost view = fields_view(fields@);
    let mut j: usize = 0;
    while j < fields.len()
        invariant
            j <= fields@.len(),
            view == fields_view(fields@),
            forall|m: int| 0 <= m < j ==> view[m].0 != name@,
        decreases fields@.len() - j,
    {
        if same_text(fields[j].name.as_str(), name) {
            assert(view[j as int].0 == name@);
            return true;
        }
        j = j + 1;
    }
    false
}
} // verus!
