use vstd::prelude::*;

use crate::channel::err_view;
use crate::error::{ChannelStateStoreError, StoreErrorKind};
use crate::outbox::{decode_outbox_frame, spec_outbox_frame, OutboxFrame, OutboxFrameView};
use crate::protocol::{PresenceRejection, RejectionView};
use crate::reply::{
    decode_fields, decode_rejection, decode_text, decode_u64, field_position, field_text,
    field_text_of, invalid, is_word, reply_text, reply_u64, spec_fields, spec_rejection,
    value_is_word, ScriptValue,
};
use crate::ids::{ApplicationId, ConnectionId, NodeInstance};
use crate::keys::{
    base64_url, base64_url_bytes, decode_segment, generation, generation_id, url_safe, url_safe_char,
};
use crate::sorting::{sort_texts, texts_sorted, texts_view};
use crate::split::{lemma_first_index, split_once, split_once_at};
use crate::text::{push_str, same_text};
use vstd::utf8::{decode_utf8, encode_utf8, valid_utf8};

verus! {

/// A committed transition read from a reply; a changed one still holds the
/// JSON texts of its event.
#[derive(Debug)]
pub enum TransitionFrame {
    Unchanged { occupancy_version: u64 },
    Changed(OutboxFrame),
}

/// Mathematical content of [`TransitionFrame`].
pub enum TransitionFrameView {
    Unchanged { occupancy_version: u64 },
    Changed(OutboxFrameView),
}

impl View for TransitionFrame {
    type V = TransitionFrameView;

    open spec fn view(&self) -> TransitionFrameView {
        match self {
            TransitionFrame::Unchanged { occupancy_version } => TransitionFrameView::Unchanged {
                occupancy_version: *occupancy_version,
            },
            TransitionFrame::Changed(frame) => TransitionFrameView::Changed(frame@),
        }
    }
}

/// The refusal a script reported as a code and a message, when both are text.
pub open spec fn reported_refusal(code: ScriptValue, message: ScriptValue) -> Option<
    (StoreErrorKind, Seq<char>),
> {
    match (reply_text(code), reply_text(message)) {
        (Some(c), Some(m)) => Some(spec_rejection(c, m)),
        _ => None,
    }
}

/// Reads a script's refusal: its code and message.
fn read_refusal(code: &ScriptValue, message: &ScriptValue) -> (r: ChannelStateStoreError)
    ensures
        match reported_refusal(*code, *message) {
            Some(v) => err_view(r) == v,
            None => r.kind_of() == StoreErrorKind::Internal,
        },
{
    let code_text = match decode_text(code, "code") {
        Ok(text) => text,
        Err(e) => {
            return e;
        },
    };
    let message_text = match decode_text(message, "message") {
        Ok(text) => text,
        Err(e) => {
            return e;
        },
    };
    decode_rejection(code_text.as_str(), message_text)
}

/// A transition reply: unchanged with a version, changed with a stored
/// event, or a refusal.
pub open spec fn spec_transition_frame(value: ScriptValue) -> Result<TransitionFrameView, Option<(StoreErrorKind, Seq<char>)>> {
    match value {
        ScriptValue::Array(values) => {
            let v = values@;
            if v.len() == 2 && is_word(v[0], "unchanged"@) {
                match reply_u64(v[1]) {
                    Some(n) => Ok(TransitionFrameView::Unchanged { occupancy_version: n }),
                    None => Err(None),
                }
            } else if v.len() == 2 && is_word(v[0], "changed"@) {
                match spec_outbox_frame(v[1]) {
                    Some(frame) => Ok(TransitionFrameView::Changed(frame)),
                    None => Err(None),
                }
            } else if v.len() == 3 && v[0] == ScriptValue::Integer(0) {
                Err(reported_refusal(v[1], v[2]))
            } else {
                Err(None)
            }
        },
        _ => Err(None),
    }
}

/// Reads the transition a script committed. A refusal with text code and
/// message becomes the store error of that code; every other malformed reply
/// is an internal error.
pub fn decode_transition_frame(value: &ScriptValue) -> (r: Result<TransitionFrame, ChannelStateStoreError>)
    ensures
        match (r, spec_transition_frame(*value)) {
            (Ok(frame), Ok(v)) => frame@ == v,
            (Err(e), Err(Some(v))) => err_view(e) == v,
            (Err(e), Err(None)) => e.kind_of() == StoreErrorKind::Internal,
            _ => false,
        },
{
    let values = match value {
        ScriptValue::Array(values) => values,
        _ => {
            return Err(invalid("invalid transition in Lua reply"));
        },
    };
    if values.len() == 2 && value_is_word(&values[0], "unchanged") {
        return match decode_u64(&values[1], "occupancy_version") {
            Ok(n) => Ok(TransitionFrame::Unchanged { occupancy_version: n }),
            Err(e) => Err(e),
        };
    }
    if values.len() == 2 && value_is_word(&values[0], "changed") {
        return match decode_outbox_frame(&values[1]) {
            Ok(frame) => Ok(TransitionFrame::Changed(frame)),
            Err(e) => Err(e),
        };
    }
    if values.len() == 3 {
        if let ScriptValue::Integer(0) = &values[0] {
            return Err(read_refusal(&values[1], &values[2]));
        }
    }
    Err(invalid("invalid transition in Lua reply"))
}

/// An attach reply: the snapshot and transition of success, or a refusal.
pub open spec fn spec_attach_reply(value: ScriptValue) -> Result<(ScriptValue, ScriptValue), Option<(StoreErrorKind, Seq<char>)>> {
    match value {
        ScriptValue::Array(values) => {
            let v = values@;
            if v.len() == 3 && v[0] == ScriptValue::Integer(1) {
                Ok((v[1], v[2]))
            } else if v.len() == 3 && v[0] == ScriptValue::Integer(0) && v[1] is Bytes && v[2] is Bytes {
                match reported_refusal(v[1], v[2]) {
                    Some(e) => Err(Some(e)),
                    None => Err(None),
                }
            } else {
                Err(None)
            }
        },
        _ => Err(None),
    }
}

/// Checks an attach reply and gives the parts of a success.
pub fn decode_attach_reply(value: &ScriptValue) -> (r: Result<(&ScriptValue, &ScriptValue), ChannelStateStoreError>)
    ensures
        match (r, spec_attach_reply(*value)) {
            (Ok((snapshot, transition)), Ok((s, t))) => *snapshot == s && *transition == t,
            (Err(e), Err(Some(v))) => err_view(e) == v,
            (Err(e), Err(None)) => e.kind_of() == StoreErrorKind::Internal,
            _ => false,
        },
{
    let values = match value {
        ScriptValue::Array(values) => values,
        _ => {
            return Err(invalid("invalid attach Lua reply"));
        },
    };
    if values.len() != 3 {
        return Err(invalid("invalid attach Lua reply"));
    }
    match (&values[0], &values[1], &values[2]) {
        (ScriptValue::Integer(1), snapshot, transition) => Ok((snapshot, transition)),
        (ScriptValue::Integer(0), ScriptValue::Bytes(_), ScriptValue::Bytes(_)) => {
            let code = match decode_text(&values[1], "code") {
                Ok(text) => text,
                Err(_) => {
                    return Err(invalid("invalid attach Lua reply"));
                },
            };
            let message = match decode_text(&values[2], "message") {
                Ok(text) => text,
                Err(_) => {
                    return Err(invalid("invalid attach Lua reply"));
                },
            };
            Err(decode_rejection(code.as_str(), message))
        },
        _ => Err(invalid("invalid attach Lua reply")),
    }
}

/// The Presence refusal named by a code, with the client identifier when the
/// code needs it.
pub open spec fn spec_presence_rejection(code: Seq<char>, client_id: Option<Seq<char>>) -> Option<RejectionView> {
    if code == "notAttached"@ {
        Some(RejectionView::NotAttached)
    } else if code == "presenceModeNotEnabled"@ {
        Some(RejectionView::PresenceModeNotEnabled)
    } else if code == "unidentifiedConnection"@ {
        Some(RejectionView::UnidentifiedConnection)
    } else if code == "clientIdNotAllowed"@ {
        match client_id {
            Some(id) => Some(RejectionView::ClientIdNotAllowed { client_id: id }),
            None => None,
        }
    } else if code == "invalidMemberState"@ {
        Some(RejectionView::InvalidMemberState)
    } else if code == "conflictingReplay"@ {
        Some(RejectionView::ConflictingReplay)
    } else if code == "staleOperation"@ {
        Some(RejectionView::StaleOperation)
    } else if code == "connectionClosed"@ {
        Some(RejectionView::ConnectionClosed)
    } else {
        None
    }
}

/// The refusal a reply names, reading the client identifier only for the
/// code that carries one.
pub open spec fn reply_presence_rejection(code: ScriptValue, client_id: Option<ScriptValue>) -> Option<RejectionView> {
    match reply_text(code) {
        Some(c) => if c == "clientIdNotAllowed"@ {
            match client_id {
                Some(id) => match reply_text(id) {
                    Some(text) => Some(RejectionView::ClientIdNotAllowed { client_id: text }),
                    None => None,
                },
                None => None,
            }
        } else {
            spec_presence_rejection(c, None)
        },
        None => None,
    }
}

/// Reads a Presence refusal from its code and, for a refused client
/// identifier, that identifier.
pub fn decode_presence_rejection(code: &ScriptValue, client_id: Option<&ScriptValue>) -> (r: Result<
    PresenceRejection,
    ChannelStateStoreError,
>)
    ensures
        match (r, reply_presence_rejection(*code, match client_id {
            Some(v) => Some(*v),
            None => None,
        })) {
            (Ok(rejection), Some(v)) => rejection@ == v,
            (Err(e), None) => e.kind_of() == StoreErrorKind::Internal,
            _ => false,
        },
{
    let code = match decode_text(code, "code") {
        Ok(text) => text,
        Err(e) => {
            return Err(e);
        },
    };
    let c = code.as_str();
    proof {
        reveal_strlit("clientIdNotAllowed");
        reveal_strlit("notAttached");
        assert("notAttached"@[0] != "clientIdNotAllowed"@[0] || "notAttached"@.len() != "clientIdNotAllowed"@.len());
        reveal_strlit("presenceModeNotEnabled");
        assert("presenceModeNotEnabled"@[0] != "clientIdNotAllowed"@[0] || "presenceModeNotEnabled"@.len() != "clientIdNotAllowed"@.len());
        reveal_strlit("unidentifiedConnection");
        assert("unidentifiedConnection"@[0] != "clientIdNotAllowed"@[0] || "unidentifiedConnection"@.len() != "clientIdNotAllowed"@.len());
        reveal_strlit("invalidMemberState");
        assert("invalidMemberState"@[0] != "clientIdNotAllowed"@[0] || "invalidMemberState"@.len() != "clientIdNotAllowed"@.len());
        reveal_strlit("conflictingReplay");
        assert("conflictingReplay"@[0] != "clientIdNotAllowed"@[0] || "conflictingReplay"@.len() != "clientIdNotAllowed"@.len());
        reveal_strlit("staleOperation");
        assert("staleOperation"@[0] != "clientIdNotAllowed"@[0] || "staleOperation"@.len() != "clientIdNotAllowed"@.len());
        reveal_strlit("connectionClosed");
        assert("connectionClosed"@[0] != "clientIdNotAllowed"@[0] || "connectionClosed"@.len() != "clientIdNotAllowed"@.len());
    }
    if same_text(c, "notAttached") {
        Ok(PresenceRejection::NotAttached)
    } else if same_text(c, "presenceModeNotEnabled") {
        Ok(PresenceRejection::PresenceModeNotEnabled)
    } else if same_text(c, "unidentifiedConnection") {
        Ok(PresenceRejection::UnidentifiedConnection)
    } else if same_text(c, "clientIdNotAllowed") {
        match client_id {
            None => Err(invalid("missing rejected client ID")),
            Some(id) => match decode_text(id, "client_id") {
                Ok(text) => Ok(PresenceRejection::ClientIdNotAllowed { client_id: text }),
                Err(e) => Err(e),
            },
        }
    } else if same_text(c, "invalidMemberState") {
        Ok(PresenceRejection::InvalidMemberState)
    } else if same_text(c, "conflictingReplay") {
        Ok(PresenceRejection::ConflictingReplay)
    } else if same_text(c, "staleOperation") {
        Ok(PresenceRejection::StaleOperation)
    } else if same_text(c, "connectionClosed") {
        Ok(PresenceRejection::ConnectionClosed)
    } else {
        let mut message = "unknown Presence rejection ".to_owned();
        crate::text::push_str(&mut message, c);
        Err(ChannelStateStoreError::conflict(message).into_internal())
    }
}

/// The outcome of a Presence reply, with a committed event still as a frame.
#[derive(Debug)]
pub enum OutcomeFrame {
    Committed(OutboxFrame),
    Rejected(PresenceRejection),
}

/// Mathematical content of [`OutcomeFrame`].
pub enum OutcomeFrameView {
    Committed(OutboxFrameView),
    Rejected(RejectionView),
}

impl View for OutcomeFrame {
    type V = OutcomeFrameView;

    open spec fn view(&self) -> OutcomeFrameView {
        match self {
            OutcomeFrame::Committed(frame) => OutcomeFrameView::Committed(frame@),
            OutcomeFrame::Rejected(rejection) => OutcomeFrameView::Rejected(rejection@),
        }
    }
}

/// A Presence reply: the outcome and whether it is a stored earlier one.
#[derive(Debug)]
pub struct PresenceReplyFrame {
    pub outcome: OutcomeFrame,
    pub replayed: bool,
}

/// The outcome of a stored record of a replayed operation.
pub open spec fn stored_outcome(record: ScriptValue) -> Option<OutcomeFrameView> {
    match (record, spec_fields(record)) {
        (ScriptValue::Array(values), Ok(fields)) => match field_text(values@, fields, "result"@) {
            Some(result) => if result == "committed"@ {
                match spec_outbox_frame(record) {
                    Some(frame) => Some(OutcomeFrameView::Committed(frame)),
                    None => None,
                }
            } else if result == "rejected"@ {
                match field_position(fields, "code"@) {
                    Some(p) => match reply_presence_rejection(
                        values@[p],
                        match field_position(fields, "client_id"@) {
                            Some(q) => Some(values@[q]),
                            None => None,
                        },
                    ) {
                        Some(rejection) => Some(OutcomeFrameView::Rejected(rejection)),
                        None => None,
                    },
                    None => None,
                }
            } else {
                None
            },
            None => None,
        },
        _ => None,
    }
}

/// A Presence reply: a replayed record, a fresh committed event, a fresh
/// refusal (with at most one extra value), or the script's refusal.
pub open spec fn spec_presence_reply(value: ScriptValue) -> Result<(OutcomeFrameView, bool), Option<(StoreErrorKind, Seq<char>)>> {
    match value {
        ScriptValue::Array(values) => {
            let v = values@;
            if v.len() == 2 && is_word(v[0], "replayed"@) {
                match stored_outcome(v[1]) {
                    Some(outcome) => Ok((outcome, true)),
                    None => Err(None),
                }
            } else if v.len() == 2 && is_word(v[0], "committed"@) {
                match spec_outbox_frame(v[1]) {
                    Some(frame) => Ok((OutcomeFrameView::Committed(frame), false)),
                    None => Err(None),
                }
            } else if (v.len() == 2 || v.len() == 3) && is_word(v[0], "rejected"@) {
                match reply_presence_rejection(v[1], if v.len() == 3 { Some(v[2]) } else { None }) {
                    Some(rejection) => Ok((OutcomeFrameView::Rejected(rejection), false)),
                    None => Err(None),
                }
            } else if v.len() == 3 && v[0] == ScriptValue::Integer(0) {
                Err(reported_refusal(v[1], v[2]))
            } else {
                Err(None)
            }
        },
        _ => Err(None),
    }
}

/// Reads the outcome of a stored record of a replayed operation.
fn decode_stored_outcome(record: &ScriptValue) -> (r: Result<OutcomeFrame, ChannelStateStoreError>)
    ensures
        match (r, stored_outcome(*record)) {
            (Ok(outcome), Some(v)) => outcome@ == v,
            (Err(e), None) => e.kind_of() == StoreErrorKind::Internal,
            _ => false,
        },
{
    let fields = match decode_fields(record) {
        Ok(fields) => fields,
        Err(e) => {
            return Err(e.into_internal());
        },
    };
    let values = match record {
        ScriptValue::Array(values) => values,
        _ => {
            return Err(invalid("invalid Presence Lua reply"));
        },
    };
    let result = match field_text_of(values, &fields, "result") {
        Ok(text) => text,
        Err(e) => {
            return Err(e);
        },
    };
    if same_text(result.as_str(), "committed") {
        match decode_outbox_frame(record) {
            Ok(frame) => Ok(OutcomeFrame::Committed(frame)),
            Err(e) => Err(e),
        }
    } else if same_text(result.as_str(), "rejected") {
        let code = match crate::reply::required_field(values, &fields, "code") {
            Ok(code) => code,
            Err(e) => {
                return Err(e);
            },
        };
        let client_id = match crate::reply::required_field(values, &fields, "client_id") {
            Ok(id) => Some(id),
            Err(_) => None,
        };
        match decode_presence_rejection(code, client_id) {
            Ok(rejection) => Ok(OutcomeFrame::Rejected(rejection)),
            Err(e) => Err(e),
        }
    } else {
        Err(invalid("invalid saved Presence result"))
    }
}

/// Reads a Presence reply: the outcome, and whether it was replayed.
pub fn decode_presence_frame(value: &ScriptValue) -> (r: Result<PresenceReplyFrame, ChannelStateStoreError>)
    ensures
        match (r, spec_presence_reply(*value)) {
            (Ok(frame), Ok((outcome, replayed))) => frame.outcome@ == outcome && frame.replayed == replayed,
            (Err(e), Err(Some(v))) => err_view(e) == v,
            (Err(e), Err(None)) => e.kind_of() == StoreErrorKind::Internal,
            _ => false,
        },
{
    let values = match value {
        ScriptValue::Array(values) => values,
        _ => {
            return Err(invalid("invalid Presence Lua reply"));
        },
    };
    let n = values.len();
    if n == 2 && value_is_word(&values[0], "replayed") {
        return match decode_stored_outcome(&values[1]) {
            Ok(outcome) => Ok(PresenceReplyFrame { outcome, replayed: true }),
            Err(e) => Err(e),
        };
    }
    if n == 2 && value_is_word(&values[0], "committed") {
        return match decode_outbox_frame(&values[1]) {
            Ok(frame) => Ok(PresenceReplyFrame { outcome: OutcomeFrame::Committed(frame), replayed: false }),
            Err(e) => Err(e),
        };
    }
    if (n == 2 || n == 3) && value_is_word(&values[0], "rejected") {
        let extra = if n == 3 {
            Some(&values[2])
        } else {
            None
        };
        return match decode_presence_rejection(&values[1], extra) {
            Ok(rejection) => Ok(PresenceReplyFrame { outcome: OutcomeFrame::Rejected(rejection), replayed: false }),
            Err(e) => Err(e),
        };
    }
    if n == 3 {
        if let ScriptValue::Integer(0) = &values[0] {
            return Err(read_refusal(&values[1], &values[2]));
        }
    }
    Err(invalid("invalid Presence Lua reply"))
}


/// Turns bytes into a string.
///
/// Calls `String::from_utf8`; the contract claims it succeeds exactly on valid
/// UTF-8 and gives the text the bytes encode. A refusal gives the error's text,
/// of which nothing is claimed.
#[verifier::external_body]
pub(crate) fn utf8_string(bytes: Vec<u8>) -> (r: Result<String, String>)
    ensures
        match r {
            Ok(text) => valid_utf8(bytes@) && text@ == decode_utf8(bytes@),
            Err(_) => !valid_utf8(bytes@),
        },
{
    String::from_utf8(bytes).map_err(|error| error.to_string())
}

/// The text an encoded key segment stands for.
pub open spec fn segment_text(segment: Seq<char>) -> Option<Seq<char>> {
    match base64_url_bytes(segment) {
        Some(bytes) => if valid_utf8(bytes) {
            Some(decode_utf8(bytes))
        } else {
            None
        },
        None => None,
    }
}

/// Decodes an encoded key segment into its text; `prefix` starts the message
/// of either refusal.
fn decode_segment_text(segment: &str, bad_segment: &str, bad_text: &str) -> (r: Result<
    String,
    ChannelStateStoreError,
>)
    ensures
        match (r, segment_text(segment@)) {
            (Ok(text), Some(t)) => text@ == t,
            (Err(e), None) => e.kind_of() == StoreErrorKind::Internal,
            _ => false,
        },
{
    let bytes = match decode_segment(segment) {
        Ok(bytes) => bytes,
        Err(reason) => {
            let mut message = bad_segment.to_owned();
            push_str(&mut message, reason.as_str());
            return Err(ChannelStateStoreError::conflict(message).into_internal());
        },
    };
    match utf8_string(bytes) {
        Ok(text) => Ok(text),
        Err(reason) => {
            let mut message = bad_text.to_owned();
            push_str(&mut message, reason.as_str());
            Err(ChannelStateStoreError::conflict(message).into_internal())
        },
    }
}

/// The transitions of a list of reply values, or the first refusal.
pub open spec fn transition_frames(values: Seq<ScriptValue>, count: nat) -> Result<
    Seq<TransitionFrameView>,
    Option<(StoreErrorKind, Seq<char>)>,
>
    decreases count,
{
    if count == 0 {
        Ok(Seq::empty())
    } else {
        match transition_frames(values, (count - 1) as nat) {
            Err(e) => Err(e),
            Ok(frames) => match spec_transition_frame(values[count - 1]) {
                Ok(frame) => Ok(frames.push(frame)),
                Err(e) => Err(e),
            },
        }
    }
}

/// The decoded names of a list of segments, when all decode.
pub open spec fn segment_texts(values: Seq<ScriptValue>, count: nat) -> Option<Seq<Seq<char>>>
    decreases count,
{
    if count == 0 {
        Some(Seq::empty())
    } else {
        match (segment_texts(values, (count - 1) as nat), reply_text(values[count - 1])) {
            (Some(names), Some(segment)) => match segment_text(segment) {
                Some(name) => Some(names.push(name)),
                None => None,
            },
            _ => None,
        }
    }
}

/// A disconnect reply: complete with its transitions, or the channels whose
/// keys the script needs, or a refusal.
#[derive(Debug)]
pub enum DisconnectFrame {
    Complete(Vec<TransitionFrame>),
    Channels(Vec<String>),
}

/// The transitions of a finished disconnect.
pub open spec fn spec_disconnect_complete(value: ScriptValue) -> Option<Result<Seq<TransitionFrameView>, Option<(StoreErrorKind, Seq<char>)>>> {
    match value {
        ScriptValue::Array(values) => {
            let v = values@;
            if v.len() == 2 && v[0] == ScriptValue::Integer(1) && v[1] is Array {
                let items = v[1]->Array_0@;
                Some(transition_frames(items, items.len()))
            } else {
                None
            }
        },
        _ => None,
    }
}

/// The channel names a disconnect reply asks for, decoded in reply order.
pub open spec fn spec_disconnect_channels(value: ScriptValue) -> Option<Option<Seq<Seq<char>>>> {
    match value {
        ScriptValue::Array(values) => {
            let v = values@;
            if v.len() == 2 && is_word(v[0], "channels"@) && v[1] is Array {
                let items = v[1]->Array_0@;
                Some(segment_texts(items, items.len()))
            } else {
                None
            }
        },
        _ => None,
    }
}

/// The refusal of a disconnect reply, when it is one.
pub open spec fn spec_disconnect_refusal(value: ScriptValue) -> Option<Option<(StoreErrorKind, Seq<char>)>> {
    match value {
        ScriptValue::Array(values) => {
            let v = values@;
            if v.len() == 3 && v[0] == ScriptValue::Integer(0) {
                Some(reported_refusal(v[1], v[2]))
            } else {
                None
            }
        },
        _ => None,
    }
}

/// Reads a disconnect reply. Asked-for channels come decoded and sorted.
pub fn decode_disconnect_frame(value: &ScriptValue) -> (r: Result<DisconnectFrame, ChannelStateStoreError>)
    ensures
        match spec_disconnect_complete(*value) {
            Some(Ok(frames)) => r matches Ok(DisconnectFrame::Complete(list)) && list@.map_values(
                |f: TransitionFrame| f@,
            ) == frames,
            Some(Err(Some(v))) => r matches Err(e) && err_view(e) == v,
            Some(Err(None)) => r matches Err(e) && e.kind_of() == StoreErrorKind::Internal,
            None => match spec_disconnect_channels(*value) {
                Some(Some(names)) => r matches Ok(DisconnectFrame::Channels(list)) && texts_sorted(
                    texts_view(list@),
                ) && texts_view(list@).to_multiset() == names.to_multiset(),
                Some(None) => r matches Err(e) && e.kind_of() == StoreErrorKind::Internal,
                None => match spec_disconnect_refusal(*value) {
                    Some(Some(v)) => r matches Err(e) && err_view(e) == v,
                    _ => r matches Err(e) && e.kind_of() == StoreErrorKind::Internal,
                },
            },
        },
{
    let values = match value {
        ScriptValue::Array(values) => values,
        _ => {
            return Err(invalid("invalid disconnect Lua reply"));
        },
    };
    if values.len() == 2 {
        if let ScriptValue::Integer(1) = &values[0] {
            if let ScriptValue::Array(items) = &values[1] {
                return match decode_transition_list(items) {
                    Ok(frames) => Ok(DisconnectFrame::Complete(frames)),
                    Err(e) => Err(e),
                };
            }
        }
    }
    if values.len() == 2 && value_is_word(&values[0], "channels") {
        if let ScriptValue::Array(items) = &values[1] {
            return match decode_segment_list(items) {
                Ok(listed) => {
                    let sorted = sort_texts(listed);
                    proof {
                        lemma_texts_multiset(sorted@, listed@);
                    }
                    Ok(DisconnectFrame::Channels(sorted))
                },
                Err(e) => Err(e),
            };
        }
    }
    if values.len() == 3 {
        if let ScriptValue::Integer(0) = &values[0] {
            return Err(read_refusal(&values[1], &values[2]));
        }
    }
    Err(invalid("invalid disconnect Lua reply"))
}

/// Reads each transition of a list, stopping at the first refusal.
fn decode_transition_list(items: &Vec<ScriptValue>) -> (r: Result<Vec<TransitionFrame>, ChannelStateStoreError>)
    ensures
        match (r, transition_frames(items@, items@.len())) {
            (Ok(list), Ok(frames)) => list@.map_values(|f: TransitionFrame| f@) == frames,
            (Err(e), Err(Some(v))) => err_view(e) == v,
            (Err(e), Err(None)) => e.kind_of() == StoreErrorKind::Internal,
            _ => false,
        },
{
    let mut frames: Vec<TransitionFrame> = Vec::new();
    let mut k: usize = 0;
    assert(frames@.map_values(|f: TransitionFrame| f@) =~= Seq::<TransitionFrameView>::empty());
    while k < items.len()
        invariant
            k <= items@.len(),
            transition_frames(items@, k as nat) == Ok::<Seq<TransitionFrameView>, Option<(StoreErrorKind, Seq<char>)>>(
                frames@.map_values(|f: TransitionFrame| f@),
            ),
        decreases items@.len() - k,
    {
        let frame = match decode_transition_frame(&items[k]) {
            Ok(frame) => frame,
            Err(e) => {
                proof {
                    lemma_transition_frames_error(items@, (k + 1) as nat, items@.len());
                }
                return Err(e);
            },
        };
        let ghost before = frames@.map_values(|f: TransitionFrame| f@);
        let ghost frame_view = frame@;
        frames.push(frame);
        proof {
            assert(frames@.map_values(|f: TransitionFrame| f@) =~= before.push(frame_view));
        }
        k = k + 1;
    }
    Ok(frames)
}

/// Reads each channel segment of a list into its name, stopping at the first
/// that does not decode.
fn decode_segment_list(items: &Vec<ScriptValue>) -> (r: Result<Vec<String>, ChannelStateStoreError>)
    ensures
        match (r, segment_texts(items@, items@.len())) {
            (Ok(list), Some(names)) => texts_view(list@) == names,
            (Err(e), None) => e.kind_of() == StoreErrorKind::Internal,
            _ => false,
        },
{
    let mut names: Vec<String> = Vec::new();
    let mut k: usize = 0;
    assert(texts_view(names@) =~= Seq::<Seq<char>>::empty());
    while k < items.len()
        invariant
            k <= items@.len(),
            segment_texts(items@, k as nat) == Some(texts_view(names@)),
        decreases items@.len() - k,
    {
        let segment = match decode_text(&items[k], "channel segment") {
            Ok(text) => text,
            Err(e) => {
                proof {
                    lemma_segment_texts_missing(items@, (k + 1) as nat, items@.len());
                }
                return Err(e);
            },
        };
        let name = match decode_segment_text(
            segment.as_str(),
            "invalid channel segment: ",
            "invalid channel UTF-8: ",
        ) {
            Ok(name) => name,
            Err(e) => {
                proof {
                    lemma_segment_texts_missing(items@, (k + 1) as nat, items@.len());
                }
                return Err(e);
            },
        };
        let ghost before = texts_view(names@);
        let ghost name_view = name@;
        names.push(name);
        proof {
            assert(texts_view(names@) =~= before.push(name_view));
        }
        k = k + 1;
    }
    Ok(names)
}

/// Once a transition is refused, more of them give the same refusal.
proof fn lemma_transition_frames_error(values: Seq<ScriptValue>, k: nat, m: nat)
    requires
        k <= m,
        transition_frames(values, k) is Err,
    ensures
        transition_frames(values, m) == transition_frames(values, k),
    decreases m - k,
{
    if k < m {
        lemma_transition_frames_error(values, k, (m - 1) as nat);
    }
}

/// Once a segment fails, more of them fail too.
proof fn lemma_segment_texts_missing(values: Seq<ScriptValue>, k: nat, m: nat)
    requires
        k <= m,
        segment_texts(values, k) is None,
    ensures
        segment_texts(values, m) is None,
    decreases m - k,
{
    if k < m {
        lemma_segment_texts_missing(values, k, (m - 1) as nat);
    }
}

/// Rearranged strings have rearranged texts.
proof fn lemma_texts_multiset(a: Seq<String>, b: Seq<String>)
    requires
        a.to_multiset() == b.to_multiset(),
    ensures
        texts_view(a).to_multiset() == texts_view(b).to_multiset(),
{
    crate::outbox::lemma_map_multiset(a, b, |s: String| s@);
}

/// An outbox reply: its entries, or the script's refusal.
pub open spec fn spec_outbox_reply(value: ScriptValue) -> Result<Seq<ScriptValue>, Option<(StoreErrorKind, Seq<char>)>> {
    match value {
        ScriptValue::Array(values) => {
            let v = values@;
            if v.len() == 2 && v[0] == ScriptValue::Integer(1) && v[1] is Array {
                Ok(v[1]->Array_0@)
            } else if v.len() == 3 && v[0] == ScriptValue::Integer(0) {
                Err(reported_refusal(v[1], v[2]))
            } else {
                Err(None)
            }
        },
        _ => Err(None),
    }
}

/// Reads an outbox reply into its entries.
pub fn decode_outbox_reply(value: ScriptValue) -> (r: Result<Vec<ScriptValue>, ChannelStateStoreError>)
    ensures
        match (r, spec_outbox_reply(value)) {
            (Ok(entries), Ok(v)) => entries@ == v,
            (Err(e), Err(Some(v))) => err_view(e) == v,
            (Err(e), Err(None)) => e.kind_of() == StoreErrorKind::Internal,
            _ => false,
        },
{
    let ghost original = value;
    match value {
        ScriptValue::Array(mut values) => {
            if values.len() == 2 {
                if let ScriptValue::Integer(1) = &values[0] {
                    if let ScriptValue::Array(_) = &values[1] {
                        let last = values.pop();
                        match last {
                            Some(ScriptValue::Array(entries)) => {
                                return Ok(entries);
                            },
                            _ => {
                                return Err(invalid("invalid outbox reply"));
                            },
                        }
                    }
                }
            }
            if values.len() == 3 {
                if let ScriptValue::Integer(0) = &values[0] {
                    return Err(read_refusal(&values[1], &values[2]));
                }
            }
            Err(invalid("invalid outbox reply"))
        },
        _ => Err(invalid("invalid outbox reply")),
    }
}

/// An outbox entry: its stream identifier and its stored event record.
pub open spec fn spec_outbox_entry(entry: ScriptValue) -> Option<(Seq<char>, ScriptValue)> {
    match entry {
        ScriptValue::Array(fields) => if fields@.len() == 2 {
            match reply_text(fields@[0]) {
                Some(id) => Some((id, fields@[1])),
                None => None,
            }
        } else {
            None
        },
        _ => None,
    }
}

/// Reads an outbox entry.
pub fn decode_outbox_entry(entry: &ScriptValue) -> (r: Result<(String, &ScriptValue), ChannelStateStoreError>)
    ensures
        match (r, spec_outbox_entry(*entry)) {
            (Ok((id, payload)), Some((i, p))) => id@ == i && *payload == p,
            (Err(e), None) => e.kind_of() == StoreErrorKind::Internal,
            _ => false,
        },
{
    match entry {
        ScriptValue::Array(fields) => {
            if fields.len() != 2 {
                return Err(invalid("invalid outbox entry"));
            }
            match decode_text(&fields[0], "stream ID") {
                Ok(id) => Ok((id, &fields[1])),
                Err(e) => Err(e),
            }
        },
        _ => Err(invalid("invalid outbox entry")),
    }
}

/// A generation cleanup reply: the connection references of this batch and
/// whether the registry is finished, or the script's refusal.
pub open spec fn spec_reap_reply(value: ScriptValue) -> Result<(Seq<ScriptValue>, bool), Option<(StoreErrorKind, Seq<char>)>> {
    match value {
        ScriptValue::Array(values) => {
            let v = values@;
            if v.len() == 3 && v[0] == ScriptValue::Integer(1) && v[1] is Array && v[2] is Integer {
                Ok((v[1]->Array_0@, v[2]->Integer_0 == 1))
            } else if v.len() == 3 && v[0] == ScriptValue::Integer(0) {
                Err(reported_refusal(v[1], v[2]))
            } else {
                Err(None)
            }
        },
        _ => Err(None),
    }
}

/// Reads a generation cleanup reply.
pub fn decode_reap_reply(value: &ScriptValue) -> (r: Result<(&Vec<ScriptValue>, bool), ChannelStateStoreError>)
    ensures
        match (r, spec_reap_reply(*value)) {
            (Ok((connections, done)), Ok((c, d))) => connections@ == c && done == d,
            (Err(e), Err(Some(v))) => err_view(e) == v,
            (Err(e), Err(None)) => e.kind_of() == StoreErrorKind::Internal,
            _ => false,
        },
{
    let values = match value {
        ScriptValue::Array(values) => values,
        _ => {
            return Err(invalid("invalid generation cleanup reply"));
        },
    };
    if values.len() != 3 {
        return Err(invalid("invalid generation cleanup reply"));
    }
    match (&values[0], &values[1], &values[2]) {
        (ScriptValue::Integer(1), ScriptValue::Array(connections), ScriptValue::Integer(done)) => {
            Ok((connections, *done == 1))
        },
        (ScriptValue::Integer(0), code, message) => Err(read_refusal(code, message)),
        _ => Err(invalid("invalid generation cleanup reply")),
    }
}

/// The application and connection a cleanup reference names: two encoded
/// segments joined by a dot.
pub open spec fn spec_connection_reference(reference: ScriptValue) -> Option<(Seq<char>, Seq<char>)> {
    match reply_text(reference) {
        Some(text) => match split_once(text, '.') {
            Some((app, connection)) => match (segment_text(app), segment_text(connection)) {
                (Some(a), Some(c)) => Some((a, c)),
                _ => None,
            },
            None => None,
        },
        None => None,
    }
}

/// A segment reads back as the text it encodes.
pub proof fn lemma_segment_round_trip(text: Seq<char>)
    requires
        base64_url_bytes(base64_url(text)) == Some(encode_utf8(text)),
    ensures
        segment_text(base64_url(text)) == Some(text),
{
    vstd::utf8::encode_utf8_valid_utf8(text);
    vstd::utf8::encode_utf8_decode_utf8(text);
}

/// A connection reference as the cleanup script lists it, the encoded
/// application, a dot and the encoded connection, reads back as that
/// application and connection.
pub proof fn lemma_connection_reference_round_trip(
    reference: ScriptValue,
    app: Seq<char>,
    connection: Seq<char>,
)
    requires
        url_safe(base64_url(app)),
        base64_url_bytes(base64_url(app)) == Some(encode_utf8(app)),
        base64_url_bytes(base64_url(connection)) == Some(encode_utf8(connection)),
        reply_text(reference) == Some(base64_url(app) + "."@ + base64_url(connection)),
    ensures
        spec_connection_reference(reference) == Some((app, connection)),
{
    let a = base64_url(app);
    let text = a + "."@ + base64_url(connection);
    reveal_strlit(".");
    assert(text[a.len() as int] == '.');
    assert forall|j: int| 0 <= j < a.len() implies text[j] != '.' by {
        assert(text[j] == a[j]);
        assert(url_safe_char(a[j]));
    }
    lemma_first_index(text, '.', a.len() as int);
    assert(text.take(a.len() as int) =~= a);
    assert(text.skip(a.len() as int + 1) =~= base64_url(connection));
    lemma_segment_round_trip(app);
    lemma_segment_round_trip(connection);
}

/// Reads a connection reference of a generation cleanup.
pub fn decode_connection_reference(reference: &ScriptValue) -> (r: Result<
    (ApplicationId, ConnectionId),
    ChannelStateStoreError,
>)
    ensures
        match (r, spec_connection_reference(*reference)) {
            (Ok((app, connection)), Some((a, c))) => app@ == a && connection@ == c,
            (Err(e), None) => e.kind_of() == StoreErrorKind::Internal,
            _ => false,
        },
{
    let text = match decode_text(reference, "connection reference") {
        Ok(text) => text,
        Err(e) => {
            return Err(e);
        },
    };
    let (app, connection) = match split_once_at(text.as_str(), '.') {
        Some(parts) => parts,
        None => {
            return Err(invalid("invalid generation cleanup reply"));
        },
    };
    let connection_text = match decode_segment_text(
        connection.as_str(),
        "invalid generation cleanup reply: ",
        "invalid generation cleanup reply: ",
    ) {
        Ok(text) => text,
        Err(_) => {
            return Err(invalid("invalid generation cleanup reply"));
        },
    };
    let app_text = match decode_segment_text(
        app.as_str(),
        "invalid generation cleanup reply: ",
        "invalid generation cleanup reply: ",
    ) {
        Ok(text) => text,
        Err(_) => {
            return Err(invalid("invalid generation cleanup reply"));
        },
    };
    Ok((ApplicationId(app_text), ConnectionId(connection_text)))
}

/// The entries of an expired generations reply: each generation identifier
/// with its metadata JSON.
pub open spec fn generation_entries(values: Seq<ScriptValue>, count: nat) -> Option<Seq<(Seq<char>, Seq<char>)>>
    decreases count,
{
    if count == 0 {
        Some(Seq::empty())
    } else {
        match (generation_entries(values, (count - 1) as nat), values[count - 1]) {
            (Some(entries), ScriptValue::Array(pair)) => if pair@.len() == 2 {
                match (reply_text(pair@[0]), reply_text(pair@[1])) {
                    (Some(id), Some(metadata)) => Some(entries.push((id, metadata))),
                    _ => None,
                }
            } else {
                None
            },
            _ => None,
        }
    }
}

/// The entries of an expired generations reply, when it is well formed.
pub open spec fn spec_expired_generations(value: ScriptValue) -> Option<Seq<(Seq<char>, Seq<char>)>> {
    match value {
        ScriptValue::Array(values) => generation_entries(values@, values@.len()),
        _ => None,
    }
}

/// Reads an expired generations reply into identifiers and metadata JSON.
pub fn decode_expired_generation_entries(value: &ScriptValue) -> (r: Result<
    Vec<(String, String)>,
    ChannelStateStoreError,
>)
    ensures
        match (r, spec_expired_generations(*value)) {
            (Ok(entries), Some(v)) => entries@.map_values(|e: (String, String)| (e.0@, e.1@)) == v,
            (Err(e), None) => e.kind_of() == StoreErrorKind::Internal,
            _ => false,
        },
{
    let values = match value {
        ScriptValue::Array(values) => values,
        _ => {
            return Err(invalid("invalid expired_generations Lua reply"));
        },
    };
    let mut entries: Vec<(String, String)> = Vec::new();
    let mut k: usize = 0;
    assert(entries@.map_values(|e: (String, String)| (e.0@, e.1@)) =~= Seq::<(Seq<char>, Seq<char>)>::empty());
    while k < values.len()
        invariant
            k <= values@.len(),
            *value == ScriptValue::Array(*values),
            generation_entries(values@, k as nat) == Some(
                entries@.map_values(|e: (String, String)| (e.0@, e.1@)),
            ),
        decreases values@.len() - k,
    {
        let pair = match &values[k] {
            ScriptValue::Array(pair) => pair,
            _ => {
                proof {
                    lemma_generation_entries_missing(values@, (k + 1) as nat, values@.len());
                }
                return Err(invalid("invalid expired generation entry"));
            },
        };
        if pair.len() != 2 {
            proof {
                lemma_generation_entries_missing(values@, (k + 1) as nat, values@.len());
            }
            return Err(invalid("invalid expired generation entry"));
        }
        let metadata = match decode_text(&pair[1], "generation metadata") {
            Ok(text) => text,
            Err(e) => {
                proof {
                    lemma_generation_entries_missing(values@, (k + 1) as nat, values@.len());
                }
                return Err(e);
            },
        };
        let id = match decode_text(&pair[0], "generation") {
            Ok(text) => text,
            Err(e) => {
                proof {
                    lemma_generation_entries_missing(values@, (k + 1) as nat, values@.len());
                }
                return Err(e);
            },
        };
        let ghost before = entries@.map_values(|e: (String, String)| (e.0@, e.1@));
        let ghost entry = (id@, metadata@);
        entries.push((id, metadata));
        proof {
            assert(entries@.map_values(|e: (String, String)| (e.0@, e.1@)) =~= before.push(entry));
        }
        k = k + 1;
    }
    Ok(entries)
}

/// Once an entry is malformed, more of them are too.
proof fn lemma_generation_entries_missing(values: Seq<ScriptValue>, k: nat, m: nat)
    requires
        k <= m,
        generation_entries(values, k) is None,
    ensures
        generation_entries(values, m) is None,
    decreases m - k,
{
    if k < m {
        lemma_generation_entries_missing(values, k, (m - 1) as nat);
    }
}

/// Checks that each expired generation's metadata names the run of its
/// identifier, and gives the runs.
pub fn check_generation_entries(entries: Vec<(String, NodeInstance)>) -> (r: Result<
    Vec<NodeInstance>,
    ChannelStateStoreError,
>)
    ensures
        match r {
            Ok(runs) => {
                &&& runs@.len() == entries@.len()
                &&& forall|k: int|
                    0 <= k < entries@.len() ==> #[trigger] runs@[k] == entries@[k].1 && entries@[k].0@
                        == generation_id(entries@[k].1.node_id@, entries@[k].1.boot_generation)
            },
            Err(e) => {
                &&& err_view(e) == (StoreErrorKind::Internal, "generation metadata does not match its index entry"@)
                &&& exists|k: int|
                    0 <= k < entries@.len() && entries@[k].0@ != generation_id(
                        #[trigger] entries@[k].1.node_id@,
                        entries@[k].1.boot_generation,
                    )
            },
        },
{
    let mut runs: Vec<NodeInstance> = Vec::new();
    let mut k: usize = 0;
    while k < entries.len()
        invariant
            k <= entries@.len(),
            runs@.len() == k,
            forall|j: int|
                0 <= j < k ==> #[trigger] runs@[j] == entries@[j].1 && entries@[j].0@
                    == generation_id(entries@[j].1.node_id@, entries@[j].1.boot_generation),
        decreases entries@.len() - k,
    {
        let (id, run) = &entries[k];
        let expected = generation(run);
        if !same_text(expected.as_str(), id.as_str()) {
            return Err(invalid("generation metadata does not match its index entry"));
        }
        runs.push(run.clone());
        k = k + 1;
    }
    Ok(runs)
}
} // verus!
