use vstd::prelude::*;

use crate::error::{ChannelStateStoreError, StoreErrorKind};
use crate::ids::{ChannelKey, ConnectionId, NodeInstance, Timestamp};
use crate::outcomes::{server_message_id, server_message_text};
use crate::protocol::{
    changes_view, ChannelChangeView, CommittedPresenceEvent, EventView, MemberChangeView,
    OccupancyChange, OccupancyMetrics, PresenceChangeAction, PresenceChannelChanged,
    PresenceMemberChange,
};
use crate::reply::{
    decode_categories, decode_fields, field_position, field_text, field_text_of, field_u64,
    field_u64_of, fields_view, fields_well_formed, has_field, invalid, spec_categories,
    spec_fields, ReplyField, ScriptValue,
};
use crate::text::{
    decimal, lemma_text_lt_asymmetric, lemma_text_lt_total, lemma_text_lt_transitive, push_decimal,
    push_str, same_text, text_less, text_lt,
};

verus! {

/// The layout of a stored event.
#[derive(PartialEq, Eq, Structural, Clone, Copy, Debug)]
pub enum OutboxFormat {
    /// `attach.v2`: a save, with the attachment and the members it removed.
    Attach,
    /// `detach.v1`: a detach, with the node run and the members it removed.
    Detach,
    /// `presence.v2`: a Presence batch, with its changes.
    Presence,
}

/// The format with a given name, if any.
pub open spec fn format_named(name: Seq<char>) -> Option<OutboxFormat> {
    if name == "attach.v2"@ {
        Some(OutboxFormat::Attach)
    } else if name == "detach.v1"@ {
        Some(OutboxFormat::Detach)
    } else if name == "presence.v2"@ {
        Some(OutboxFormat::Presence)
    } else {
        None
    }
}

/// The name of the event of a committed change of a channel.
pub open spec fn presence_event_name() -> Seq<char> {
    "realtime.presence_channel_changed"@
}

/// The schema version of that event.
pub open spec fn presence_event_version() -> u64 {
    1
}

/// The change action with a given name, if any.
pub open spec fn action_named(name: Seq<char>) -> Option<PresenceChangeAction> {
    if name == "enter"@ {
        Some(PresenceChangeAction::Enter)
    } else if name == "update"@ {
        Some(PresenceChangeAction::Update)
    } else if name == "leave"@ {
        Some(PresenceChangeAction::Leave)
    } else {
        None
    }
}

/// One change of a stored Presence batch, with its JSON parts as text.
#[derive(Debug)]
pub struct ChangeFrame {
    pub action: PresenceChangeAction,
    pub member_json: String,
    pub previous_json: Option<String>,
}

/// Mathematical content of [`ChangeFrame`].
pub struct ChangeFrameView {
    pub action: PresenceChangeAction,
    pub member_json: Seq<char>,
    pub previous_json: Option<Seq<char>>,
}

impl View for ChangeFrame {
    type V = ChangeFrameView;

    open spec fn view(&self) -> ChangeFrameView {
        ChangeFrameView {
            action: self.action,
            member_json: self.member_json@,
            previous_json: match self.previous_json {
                Some(text) => Some(text@),
                None => None,
            },
        }
    }
}

/// A stored event read from its record, with its JSON parts still as text.
#[derive(Debug)]
pub struct OutboxFrame {
    pub format: OutboxFormat,
    pub event_id: u128,
    pub occurred_at: u64,
    pub presence_revision: Option<u64>,
    pub occupancy_version: u64,
    pub occupancy: Option<OccupancyChange>,
    pub channel_json: String,
    /// The attachment for `attach.v2`, the node run otherwise.
    pub origin_json: String,
    /// The removed members, in record order.
    pub removed_json: Vec<String>,
    pub changes: Vec<ChangeFrame>,
}

/// Mathematical content of [`OutboxFrame`].
pub struct OutboxFrameView {
    pub format: OutboxFormat,
    pub event_id: u128,
    pub occurred_at: u64,
    pub presence_revision: Option<u64>,
    pub occupancy_version: u64,
    pub occupancy: Option<OccupancyChange>,
    pub channel_json: Seq<char>,
    pub origin_json: Seq<char>,
    pub removed_json: Seq<Seq<char>>,
    pub changes: Seq<ChangeFrameView>,
}

impl View for OutboxFrame {
    type V = OutboxFrameView;

    open spec fn view(&self) -> OutboxFrameView {
        OutboxFrameView {
            format: self.format,
            event_id: self.event_id,
            occurred_at: self.occurred_at,
            presence_revision: self.presence_revision,
            occupancy_version: self.occupancy_version,
            occupancy: self.occupancy,
            channel_json: self.channel_json@,
            origin_json: self.origin_json@,
            removed_json: self.removed_json@.map_values(|t: String| t@),
            changes: self.changes@.map_values(|c: ChangeFrame| c@),
        }
    }
}

/// The 128-bit value of a UUID written in one of the forms `uuid` accepts.
pub uninterp spec fn uuid_from_text(text: Seq<char>) -> Option<u128>;

/// Reads a UUID.
///
/// Calls `uuid::Uuid::parse_str`; the contract names the value it reads. On a
/// refusal it gives the error's text, of which nothing is claimed.
#[verifier::external_body]
fn parse_uuid(text: &str) -> (r: Result<u128, String>)
    ensures
        match r {
            Ok(value) => uuid_from_text(text@) == Some(value),
            Err(_) => uuid_from_text(text@) is None,
        },
{
    match uuid::Uuid::parse_str(text) {
        Ok(value) => Ok(value.as_u128()),
        Err(error) => Err(error.to_string()),
    }
}

/// The name `<prefix><index>`.
pub open spec fn indexed(prefix: Seq<char>, index: nat) -> Seq<char> {
    prefix + decimal(index)
}

/// The texts of the removed members `removed.1` to `removed.<count>`.
pub open spec fn removed_texts(
    values: Seq<ScriptValue>,
    fields: Seq<(Seq<char>, int)>,
    count: nat,
) -> Option<Seq<Seq<char>>>
    decreases count,
{
    if count == 0 {
        Some(Seq::empty())
    } else {
        match (
            removed_texts(values, fields, (count - 1) as nat),
            field_text(values, fields, indexed("removed."@, count)),
        ) {
            (Some(texts), Some(text)) => Some(texts.push(text)),
            _ => None,
        }
    }
}

/// Change `index` of a stored batch.
pub open spec fn change_frame(
    values: Seq<ScriptValue>,
    fields: Seq<(Seq<char>, int)>,
    index: nat,
) -> Option<ChangeFrameView> {
    let prefix = indexed("change."@, index) + "."@;
    match (
        field_text(values, fields, prefix + "action"@),
        field_text(values, fields, prefix + "member"@),
    ) {
        (Some(action), Some(member)) => match action_named(action) {
            Some(a) => if field_position(fields, prefix + "previous"@) is Some {
                match field_text(values, fields, prefix + "previous"@) {
                    Some(previous) => Some(
                        ChangeFrameView { action: a, member_json: member, previous_json: Some(previous) },
                    ),
                    None => None,
                }
            } else {
                Some(ChangeFrameView { action: a, member_json: member, previous_json: None })
            },
            None => None,
        },
        _ => None,
    }
}

/// Changes 1 to `count` of a stored batch.
pub open spec fn change_frames(
    values: Seq<ScriptValue>,
    fields: Seq<(Seq<char>, int)>,
    count: nat,
) -> Option<Seq<ChangeFrameView>>
    decreases count,
{
    if count == 0 {
        Some(Seq::empty())
    } else {
        match (change_frames(values, fields, (count - 1) as nat), change_frame(values, fields, count)) {
            (Some(changes), Some(change)) => Some(changes.push(change)),
            _ => None,
        }
    }
}

/// The Occupancy counters of a stored event.
pub open spec fn stored_metrics(values: Seq<ScriptValue>, fields: Seq<(Seq<char>, int)>) -> Option<
    OccupancyMetrics,
> {
    match (
        field_u64(values, fields, "connections"@),
        field_u64(values, fields, "publishers"@),
        field_u64(values, fields, "subscribers"@),
        field_u64(values, fields, "presence_connections"@),
        field_u64(values, fields, "presence_subscribers"@),
        field_u64(values, fields, "presence_members"@),
    ) {
        (Some(a), Some(b), Some(c), Some(d), Some(e), Some(f)) => Some(
            OccupancyMetrics {
                connections: a,
                publishers: b,
                subscribers: c,
                presence_connections: d,
                presence_subscribers: e,
                presence_members: f,
            },
        ),
        _ => None,
    }
}

/// The stored Presence revision: empty text for none.
pub open spec fn stored_revision(values: Seq<ScriptValue>, fields: Seq<(Seq<char>, int)>) -> Option<
    Option<u64>,
> {
    match field_text(values, fields, "presence_revision"@) {
        Some(text) => if text.len() == 0 {
            Some(None)
        } else {
            match field_u64(values, fields, "presence_revision"@) {
                Some(n) => Some(Some(n)),
                None => None,
            }
        },
        None => None,
    }
}

/// The removed members and origin of a save or detach, or the changes and
/// origin of a batch.
pub open spec fn stored_body(
    values: Seq<ScriptValue>,
    fields: Seq<(Seq<char>, int)>,
    format: OutboxFormat,
    revision: Option<u64>,
) -> Option<(Seq<Seq<char>>, Seq<ChangeFrameView>, Seq<char>)> {
    if format != OutboxFormat::Presence {
        match field_u64(values, fields, "removed_count"@) {
            Some(count) => match (
                removed_texts(values, fields, count as nat),
                field_text(
                    values,
                    fields,
                    if format == OutboxFormat::Attach {
                        "attachment_json"@
                    } else {
                        "node_instance_json"@
                    },
                ),
            ) {
                (Some(removed), Some(origin)) => Some((removed, Seq::empty(), origin)),
                _ => None,
            },
            None => None,
        }
    } else if revision is None {
        None
    } else {
        match field_u64(values, fields, "change_count"@) {
            Some(count) => if count == 0 {
                None
            } else {
                match (
                    change_frames(values, fields, count as nat),
                    field_text(values, fields, "node_instance_json"@),
                ) {
                    (Some(changes), Some(origin)) => Some((Seq::empty(), changes, origin)),
                    _ => None,
                }
            },
            None => None,
        }
    }
}

/// The frame of a stored event, when its record is well formed.
pub open spec fn outbox_frame_of(values: Seq<ScriptValue>, fields: Seq<(Seq<char>, int)>) -> Option<
    OutboxFrameView,
> {
    match field_text(values, fields, "format"@) {
        Some(format_text) => match format_named(format_text) {
            Some(format) => if field_text(values, fields, "event_name"@) != Some(
                presence_event_name(),
            ) || field_u64(values, fields, "schema_version"@) != Some(presence_event_version()) {
                None
            } else {
                match (
                    field_text(values, fields, "event_id"@),
                    field_u64(values, fields, "occurred_at_ms"@),
                    stored_revision(values, fields),
                ) {
                    (Some(id_text), Some(occurred_at), Some(revision)) => match uuid_from_text(
                        id_text,
                    ) {
                        Some(event_id) => match (
                            stored_body(values, fields, format, revision),
                            stored_metrics(values, fields),
                            spec_categories(values, fields, "changed."@),
                            spec_categories(values, fields, "boundary."@),
                            field_text(values, fields, "channel_json"@),
                            field_u64(values, fields, "occupancy_version"@),
                        ) {
                            (
                                Some((removed, changes, origin)),
                                Some(metrics),
                                Some(changed),
                                Some(boundary),
                                Some(channel),
                                Some(version),
                            ) => Some(
                                OutboxFrameView {
                                    format,
                                    event_id,
                                    occurred_at,
                                    presence_revision: revision,
                                    occupancy_version: version,
                                    occupancy: if changed.spec_is_empty() {
                                        None
                                    } else {
                                        Some(
                                            OccupancyChange {
                                                metrics,
                                                changed_categories: changed,
                                                zero_boundary_categories: boundary,
                                            },
                                        )
                                    },
                                    channel_json: channel,
                                    origin_json: origin,
                                    removed_json: removed,
                                    changes,
                                },
                            ),
                            _ => None,
                        },
                        None => None,
                    },
                    _ => None,
                }
            },
            None => None,
        },
        None => None,
    }
}

/// The frame of a stored event record, when it is well formed.
pub open spec fn spec_outbox_frame(value: ScriptValue) -> Option<OutboxFrameView> {
    match (value, spec_fields(value)) {
        (ScriptValue::Array(values), Ok(fields)) => outbox_frame_of(values@, fields),
        _ => None,
    }
}


/// Once a removed member is missing, more of them are missing too.
proof fn lemma_removed_missing(values: Seq<ScriptValue>, fields: Seq<(Seq<char>, int)>, k: nat, m: nat)
    requires
        k <= m,
        removed_texts(values, fields, k) is None,
    ensures
        removed_texts(values, fields, m) is None,
    decreases m - k,
{
    if k < m {
        lemma_removed_missing(values, fields, k, (m - 1) as nat);
    }
}

/// Once a change is malformed, more of them are too.
proof fn lemma_changes_malformed(values: Seq<ScriptValue>, fields: Seq<(Seq<char>, int)>, k: nat, m: nat)
    requires
        k <= m,
        change_frames(values, fields, k) is None,
    ensures
        change_frames(values, fields, m) is None,
    decreases m - k,
{
    if k < m {
        lemma_changes_malformed(values, fields, k, (m - 1) as nat);
    }
}

fn indexed_name(prefix: &str, index: u64) -> (r: String)
    ensures
        r@ == indexed(prefix@, index as nat),
{
    let mut name = prefix.to_owned();
    push_decimal(&mut name, index);
    name
}

fn suffixed(base: &String, suffix: &str) -> (r: String)
    ensures
        r@ == base@ + suffix@,
{
    let mut name = base.clone();
    push_str(&mut name, suffix);
    name
}

fn format_of(name: &str) -> (r: Option<OutboxFormat>)
    ensures
        r == format_named(name@),
{
    if same_text(name, "attach.v2") {
        Some(OutboxFormat::Attach)
    } else if same_text(name, "detach.v1") {
        Some(OutboxFormat::Detach)
    } else if same_text(name, "presence.v2") {
        Some(OutboxFormat::Presence)
    } else {
        None
    }
}

fn action_of(name: &str) -> (r: Option<PresenceChangeAction>)
    ensures
        r == action_named(name@),
{
    if same_text(name, "enter") {
        Some(PresenceChangeAction::Enter)
    } else if same_text(name, "update") {
        Some(PresenceChangeAction::Update)
    } else if same_text(name, "leave") {
        Some(PresenceChangeAction::Leave)
    } else {
        None
    }
}

fn unsupported_schema() -> (r: ChannelStateStoreError)
    ensures
        r.kind_of() == StoreErrorKind::Internal,
{
    invalid("unsupported outbox format or event schema")
}

/// Reads one change of a stored batch.
fn read_change(values: &Vec<ScriptValue>, fields: &Vec<ReplyField>, index: u64) -> (r: Result<
    ChangeFrame,
    ChannelStateStoreError,
>)
    requires
        fields_well_formed(values@, fields@),
    ensures
        match (r, change_frame(values@, fields_view(fields@), index as nat)) {
            (Ok(change), Some(c)) => change@ == c,
            (Err(e), None) => e.kind_of() == StoreErrorKind::Internal,
            _ => false,
        },
{
    let base = indexed_name("change.", index);
    let prefix = suffixed(&base, ".");
    let action_text = match field_text_of(values, fields, suffixed(&prefix, "action").as_str()) {
        Ok(text) => text,
        Err(e) => {
            return Err(e);
        },
    };
    let action = match action_of(action_text.as_str()) {
        Some(action) => action,
        None => {
            proof {
                let f = fields_view(fields@);
                let p = indexed("change."@, index as nat) + "."@;
                if field_text(values@, f, p + "member"@) is Some {
                    assert(change_frame(values@, f, index as nat) is None);
                }
            }
            return Err(invalid("invalid Presence action in outbox"));
        },
    };
    let member_json = match field_text_of(values, fields, suffixed(&prefix, "member").as_str()) {
        Ok(text) => text,
        Err(e) => {
            return Err(e);
        },
    };
    let previous_name = suffixed(&prefix, "previous");
    let previous_json = if has_field(fields, previous_name.as_str()) {
        match field_text_of(values, fields, previous_name.as_str()) {
            Ok(text) => Some(text),
            Err(e) => {
                return Err(e);
            },
        }
    } else {
        None
    };
    Ok(ChangeFrame { action, member_json, previous_json })
}

/// Reads the removed members, or the changes, and the origin of a stored event.
fn read_body(
    values: &Vec<ScriptValue>,
    fields: &Vec<ReplyField>,
    format: OutboxFormat,
    revision: Option<u64>,
) -> (r: Result<(Vec<String>, Vec<ChangeFrame>, String), ChannelStateStoreError>)
    requires
        fields_well_formed(values@, fields@),
    ensures
        match (r, stored_body(values@, fields_view(fields@), format, revision)) {
            (Ok((removed, changes, origin)), Some((rv, cv, ov))) => {
                &&& removed@.map_values(|t: String| t@) == rv
                &&& changes@.map_values(|c: ChangeFrame| c@) == cv
                &&& origin@ == ov
            },
            (Err(e), None) => e.kind_of() == StoreErrorKind::Internal,
            _ => false,
        },
{
    let ghost f = fields_view(fields@);
    if format != OutboxFormat::Presence {
        let count = match field_u64_of(values, fields, "removed_count") {
            Ok(count) => count,
            Err(e) => {
                return Err(e);
            },
        };
        let mut removed: Vec<String> = Vec::new();
        let mut done: u64 = 0;
        assert(removed@.map_values(|t: String| t@) =~= Seq::<Seq<char>>::empty());
        while done < count
            invariant
                fields_well_formed(values@, fields@),
                f == fields_view(fields@),
                done <= count,
                format != OutboxFormat::Presence,
                field_u64(values@, f, "removed_count"@) == Some(count),
                removed_texts(values@, f, done as nat) == Some(removed@.map_values(|t: String| t@)),
            decreases count - done,
        {
            let index = done + 1;
            let name = indexed_name("removed.", index);
            let text = match field_text_of(values, fields, name.as_str()) {
                Ok(text) => text,
                Err(e) => {
                    proof {
                        lemma_removed_missing(values@, f, index as nat, count as nat);
                    }
                    return Err(e);
                },
            };
            let ghost before = removed@.map_values(|t: String| t@);
            let ghost text_view = text@;
            removed.push(text);
            proof {
                assert(removed@.map_values(|t: String| t@) =~= before.push(text_view));
            }
            done = index;
        }
        let origin_name = if format == OutboxFormat::Attach {
            "attachment_json"
        } else {
            "node_instance_json"
        };
        let origin = match field_text_of(values, fields, origin_name) {
            Ok(text) => text,
            Err(e) => {
                return Err(e);
            },
        };
        let changes: Vec<ChangeFrame> = Vec::new();
        proof {
            assert(changes@.map_values(|c: ChangeFrame| c@) =~= Seq::<ChangeFrameView>::empty());
        }
        Ok((removed, changes, origin))
    } else {
        if revision.is_none() {
            return Err(invalid("missing Presence revision in outbox"));
        }
        let count = match field_u64_of(values, fields, "change_count") {
            Ok(count) => count,
            Err(e) => {
                return Err(e);
            },
        };
        if count == 0 {
            return Err(invalid("empty Presence batch in outbox"));
        }
        let mut changes: Vec<ChangeFrame> = Vec::new();
        let mut done: u64 = 0;
        assert(changes@.map_values(|c: ChangeFrame| c@) =~= Seq::<ChangeFrameView>::empty());
        while done < count
            invariant
                fields_well_formed(values@, fields@),
                f == fields_view(fields@),
                done <= count,
                format == OutboxFormat::Presence,
                revision is Some,
                count != 0,
                field_u64(values@, f, "change_count"@) == Some(count),
                change_frames(values@, f, done as nat) == Some(changes@.map_values(|c: ChangeFrame| c@)),
            decreases count - done,
        {
            let index = done + 1;
            let change = match read_change(values, fields, index) {
                Ok(change) => change,
                Err(e) => {
                    proof {
                        lemma_changes_malformed(values@, f, index as nat, count as nat);
                    }
                    return Err(e);
                },
            };
            let ghost before = changes@.map_values(|c: ChangeFrame| c@);
            let ghost change_view = change@;
            changes.push(change);
            proof {
                assert(changes@.map_values(|c: ChangeFrame| c@) =~= before.push(change_view));
            }
            done = index;
        }
        let origin = match field_text_of(values, fields, "node_instance_json") {
            Ok(text) => text,
            Err(e) => {
                return Err(e);
            },
        };
        let removed: Vec<String> = Vec::new();
        proof {
            assert(removed@.map_values(|t: String| t@) =~= Seq::<Seq<char>>::empty());
        }
        Ok((removed, changes, origin))
    }
}

/// Reads a stored event record into its frame: format and schema, event
/// identifier, versions, Occupancy counters and flags, and the JSON texts of
/// its channel, origin and members.
pub fn decode_outbox_frame(value: &ScriptValue) -> (r: Result<OutboxFrame, ChannelStateStoreError>)
    ensures
        match (r, spec_outbox_frame(*value)) {
            (Ok(frame), Some(v)) => frame@ == v,
            (Err(e), None) => e.kind_of() == StoreErrorKind::Internal,
            _ => false,
        },
{
    let fields = match decode_fields(value) {
        Ok(fields) => fields,
        Err(e) => {
            return Err(e.into_internal());
        },
    };
    let values = match value {
        ScriptValue::Array(values) => values,
        _ => {
            return Err(invalid("expected field/value pairs in Lua reply"));
        },
    };
    let ghost f = fields_view(fields@);
    let format_text = match field_text_of(values, &fields, "format") {
        Ok(text) => text,
        Err(e) => {
            return Err(e);
        },
    };
    let format = match format_of(format_text.as_str()) {
        Some(format) => format,
        None => {
            return Err(unsupported_schema());
        },
    };
    let event_name = match field_text_of(values, &fields, "event_name") {
        Ok(text) => text,
        Err(e) => {
            return Err(e);
        },
    };
    if !same_text(event_name.as_str(), "realtime.presence_channel_changed") {
        return Err(unsupported_schema());
    }
    let schema = match field_u64_of(values, &fields, "schema_version") {
        Ok(n) => n,
        Err(e) => {
            return Err(e);
        },
    };
    if schema != 1 {
        return Err(unsupported_schema());
    }
    let id_text = match field_text_of(values, &fields, "event_id") {
        Ok(text) => text,
        Err(e) => {
            return Err(e);
        },
    };
    let event_id = match parse_uuid(id_text.as_str()) {
        Ok(id) => id,
        Err(reason) => {
            let mut message = "invalid outbox event_id: ".to_owned();
            push_str(&mut message, reason.as_str());
            return Err(ChannelStateStoreError::conflict(message).into_internal());
        },
    };
    let occurred_at = match field_u64_of(values, &fields, "occurred_at_ms") {
        Ok(n) => n,
        Err(e) => {
            return Err(e);
        },
    };
    let revision_text = match field_text_of(values, &fields, "presence_revision") {
        Ok(text) => text,
        Err(e) => {
            return Err(e);
        },
    };
    let presence_revision = if revision_text.as_str().is_empty() {
        None
    } else {
        match field_u64_of(values, &fields, "presence_revision") {
            Ok(n) => Some(n),
            Err(e) => {
                return Err(e);
            },
        }
    };
    let (removed_json, changes, origin_json) = match read_body(
        values,
        &fields,
        format,
        presence_revision,
    ) {
        Ok(body) => body,
        Err(e) => {
            return Err(e);
        },
    };
    let connections = match field_u64_of(values, &fields, "connections") {
        Ok(n) => n,
        Err(e) => {
            return Err(e);
        },
    };
    let publishers = match field_u64_of(values, &fields, "publishers") {
        Ok(n) => n,
        Err(e) => {
            return Err(e);
        },
    };
    let subscribers = match field_u64_of(values, &fields, "subscribers") {
        Ok(n) => n,
        Err(e) => {
            return Err(e);
        },
    };
    let presence_connections = match field_u64_of(values, &fields, "presence_connections") {
        Ok(n) => n,
        Err(e) => {
            return Err(e);
        },
    };
    let presence_subscribers = match field_u64_of(values, &fields, "presence_subscribers") {
        Ok(n) => n,
        Err(e) => {
            return Err(e);
        },
    };
    let presence_members = match field_u64_of(values, &fields, "presence_members") {
        Ok(n) => n,
        Err(e) => {
            return Err(e);
        },
    };
    let changed = match decode_categories(values, &fields, "changed.") {
        Ok(c) => c,
        Err(e) => {
            return Err(e);
        },
    };
    let boundary = match decode_categories(values, &fields, "boundary.") {
        Ok(c) => c,
        Err(e) => {
            return Err(e);
        },
    };
    let channel_json = match field_text_of(values, &fields, "channel_json") {
        Ok(text) => text,
        Err(e) => {
            return Err(e);
        },
    };
    let occupancy_version = match field_u64_of(values, &fields, "occupancy_version") {
        Ok(n) => n,
        Err(e) => {
            return Err(e);
        },
    };
    let metrics = OccupancyMetrics {
        connections,
        publishers,
        subscribers,
        presence_connections,
        presence_subscribers,
        presence_members,
    };
    let occupancy = if changed.is_empty() {
        None
    } else {
        Some(
            OccupancyChange {
                metrics,
                changed_categories: changed,
                zero_boundary_categories: boundary,
            },
        )
    };
    Ok(
        OutboxFrame {
            format,
            event_id,
            occurred_at,
            presence_revision,
            occupancy_version,
            occupancy,
            channel_json,
            origin_json,
            removed_json,
            changes,
        },
    )
}

/// A member as the script stores it; its revision and timestamp are kept
/// apart.
#[derive(Debug)]
pub struct MemberPayload {
    pub connection_id: ConnectionId,
    pub client_id: String,
    pub node_instance: NodeInstance,
    pub data_json: Option<String>,
    pub last_message_id: String,
}

/// Whether `serde_json` reads a text as one JSON document.
pub uninterp spec fn json_accepts(text: Seq<char>) -> bool;

/// The JSON document `serde_json` reads from a text, when it accepts it.
pub uninterp spec fn json_document(text: Seq<char>) -> serde_json::Value;

/// The data a stored member carries: the document of its data text, if it
/// has one.
pub open spec fn stored_data(member: MemberPayload) -> Option<serde_json::Value> {
    match member.data_json {
        Some(text) => Some(json_document(text@)),
        None => None,
    }
}

/// Whether the data text of a stored member, if it has one, is a JSON
/// document.
pub open spec fn data_accepted(member: MemberPayload) -> bool {
    member.data_json matches Some(text) ==> json_accepts(text@)
}

/// Reads JSON text into a document.
///
/// Calls `serde_json::from_str` for `serde_json::Value`. The contract claims
/// that whether the text is read, and the document read, depend on the text
/// alone (`json_accepts`, `json_document`); the document itself is not
/// described, and a refusal gives the error's text.
#[verifier::external_body]
fn parse_json(text: &str) -> (r: Result<serde_json::Value, String>)
    ensures
        r is Ok <==> json_accepts(text@),
        r matches Ok(document) ==> document == json_document(text@),
{
    serde_json::from_str(text).map_err(|error| error.to_string())
}

/// Reads the data of a stored member: none stays none, JSON text becomes a
/// document, and text that is no JSON document is refused as `Internal`.
pub fn decode_member_data(member: &MemberPayload) -> (r: Result<
    Option<serde_json::Value>,
    ChannelStateStoreError,
>)
    ensures
        member.data_json is None ==> r == Ok::<Option<serde_json::Value>, ChannelStateStoreError>(None),
        r matches Ok(data) ==> data == stored_data(*member),
        member.data_json matches Some(text) ==> match r {
            Ok(data) => data == Some(json_document(text@)) && json_accepts(text@),
            Err(e) => e.kind_of() == StoreErrorKind::Internal && !json_accepts(text@),
        },
{
    match &member.data_json {
        None => Ok(None),
        Some(text) => match parse_json(text.as_str()) {
            Ok(data) => Ok(Some(data)),
            Err(reason) => {
                let mut message = "invalid Presence member data: ".to_owned();
                push_str(&mut message, reason.as_str());
                Err(ChannelStateStoreError::conflict(message).into_internal())
            },
        },
    }
}

/// Payloads in order of client identifier; equal identifiers in any order.
pub open spec fn payloads_by_client(payloads: Seq<MemberPayload>) -> bool {
    forall|i: int, j: int|
        0 <= i < j < payloads.len() ==> !text_lt(
            (#[trigger] payloads[j]).client_id@,
            (#[trigger] payloads[i]).client_id@,
        )
}

/// Orders payloads by client identifier, as an unstable sort may.
pub fn sort_payloads(payloads: Vec<MemberPayload>) -> (r: Vec<MemberPayload>)
    ensures
        payloads_by_client(r@),
        r@.to_multiset() == payloads@.to_multiset(),
{
    broadcast use vstd::seq_lib::group_to_multiset_ensures;

    let mut rest = payloads;
    let mut sorted: Vec<MemberPayload> = Vec::new();
    proof {
        assert(rest@ =~= payloads@);
    }
    while rest.len() > 0
        invariant
            payloads_by_client(sorted@),
            sorted@.to_multiset().add(rest@.to_multiset()) == payloads@.to_multiset(),
        decreases rest@.len(),
    {
        let ghost before = sorted@;
        let ghost rest_before = rest@;
        let m = rest.remove(0);
        let mut p: usize = 0;
        while p < sorted.len() && !text_less(m.client_id.as_str(), sorted[p].client_id.as_str())
            invariant
                p <= sorted@.len(),
                before == sorted@,
                forall|k: int| 0 <= k < p ==> !text_lt(m.client_id@, (#[trigger] before[k]).client_id@),
            decreases sorted@.len() - p,
        {
            p = p + 1;
        }
        proof {
            if p < before.len() {
                assert(text_lt(m.client_id@, before[p as int].client_id@));
                assert forall|k: int| p <= k < before.len() implies text_lt(
                    m.client_id@,
                    (#[trigger] before[k]).client_id@,
                ) by {
                    if k > p {
                        assert(!text_lt(before[k].client_id@, before[p as int].client_id@));
                        lemma_text_lt_total(before[k].client_id@, before[p as int].client_id@);
                        if before[k].client_id@ != before[p as int].client_id@ {
                            lemma_text_lt_transitive(
                                m.client_id@,
                                before[p as int].client_id@,
                                before[k].client_id@,
                            );
                        }
                    }
                }
            }
        }
        let ghost mv = m;
        sorted.insert(p, m);
        proof {
            let after = sorted@;
            assert(after =~= before.insert(p as int, mv));
            assert forall|i: int, j: int| 0 <= i < j < after.len() implies !text_lt(
                (#[trigger] after[j]).client_id@,
                (#[trigger] after[i]).client_id@,
            ) by {
                if j < p {
                } else if j == p {
                    assert(after[i] == before[i]);
                } else if i < p {
                    assert(after[i] == before[i]);
                    assert(after[j] == before[j - 1]);
                    assert(!text_lt(mv.client_id@, before[i].client_id@));
                    assert(text_lt(mv.client_id@, before[j - 1].client_id@));
                    if text_lt(after[j].client_id@, after[i].client_id@) {
                        lemma_text_lt_transitive(mv.client_id@, after[j].client_id@, after[i].client_id@);
                    }
                } else if i == p {
                    assert(after[j] == before[j - 1]);
                    assert(text_lt(mv.client_id@, before[j - 1].client_id@));
                    lemma_text_lt_asymmetric(mv.client_id@, before[j - 1].client_id@);
                } else {
                    assert(after[i] == before[i - 1]);
                    assert(after[j] == before[j - 1]);
                }
            }
            assert(rest_before =~= rest@.insert(0, mv));
            vstd::seq_lib::to_multiset_insert(rest@, 0, mv);
            vstd::seq_lib::to_multiset_insert(before, p as int, mv);
            assert(rest_before.to_multiset() == rest@.to_multiset().insert(mv));
            assert(after.to_multiset() == before.to_multiset().insert(mv));
            assert(after.to_multiset().add(rest@.to_multiset()) =~= before.to_multiset().add(
                rest_before.to_multiset(),
            ));
        }
    }
    sorted
}

/// The identifiers of the members of changes.
pub open spec fn change_ids(changes: Seq<MemberChangeView>) -> Seq<(Seq<char>, Seq<char>)> {
    changes.map_values(|c: MemberChangeView| (c.connection_id, c.client_id))
}

/// The identifiers of payloads.
pub open spec fn payload_ids(payloads: Seq<MemberPayload>) -> Seq<(Seq<char>, Seq<char>)> {
    payloads.map_values(|m: MemberPayload| (m.connection_id@, m.client_id@))
}

/// The identifiers in order of client identifier.
pub open spec fn ids_by_client(ids: Seq<(Seq<char>, Seq<char>)>) -> bool {
    forall|i: int, j: int| 0 <= i < j < ids.len() ==> !text_lt((#[trigger] ids[j]).1, (#[trigger] ids[i]).1)
}

/// Identifiers of changes, each with the data the change carries.
pub open spec fn change_entries(changes: Seq<MemberChangeView>) -> Seq<
    (Seq<char>, Seq<char>, Option<serde_json::Value>),
> {
    changes.map_values(|c: MemberChangeView| (c.connection_id, c.client_id, c.data))
}

/// Identifiers of payloads, each with the data the payload stores.
pub open spec fn payload_entries(payloads: Seq<MemberPayload>) -> Seq<
    (Seq<char>, Seq<char>, Option<serde_json::Value>),
> {
    payloads.map_values(|m: MemberPayload| (m.connection_id@, m.client_id@, stored_data(m)))
}

/// The member whose data a batch change carries: the member before the
/// change when one is stored, else the member after it.
pub open spec fn data_source(change: (MemberPayload, Option<MemberPayload>)) -> MemberPayload {
    match change.1 {
        Some(previous) => previous,
        None => change.0,
    }
}

/// Whether the members read from a stored record make an event: every data
/// text that is read is a JSON document, and a batch has one member read
/// for each of its changes.
pub open spec fn outbox_members_readable(
    frame: OutboxFrameView,
    removed: Seq<MemberPayload>,
    changes: Seq<(MemberPayload, Option<MemberPayload>)>,
) -> bool {
    if frame.format != OutboxFormat::Presence {
        forall|k: int| 0 <= k < removed.len() ==> data_accepted(#[trigger] removed[k])
    } else {
        &&& changes.len() == frame.changes.len()
        &&& forall|k: int| 0 <= k < changes.len() ==> data_accepted(data_source(#[trigger] changes[k]))
    }
}

/// The change of the event of a stored record, when its members were read.
pub open spec fn assembled_event(
    frame: OutboxFrameView,
    channel: ChannelKey,
    origin: NodeInstance,
    changes: Seq<MemberChangeView>,
) -> EventView {
    EventView {
        event_id: frame.event_id,
        change: ChannelChangeView {
            channel: channel@,
            origin: origin@,
            presence_revision: frame.presence_revision,
            occupancy_version: frame.occupancy_version,
            member_changes: changes,
            occupancy: frame.occupancy,
            occurred_at: Timestamp { millis: frame.occurred_at },
        },
    }
}

/// Builds the event of a stored record from its frame and its JSON parts.
///
/// A save or detach publishes a server-generated `Leave` for each removed
/// member, in order of client identifier, with that member's data; a batch
/// publishes its changes in order, each with the data of the member before
/// it when one is stored, else with the data of the member after it.
pub fn assemble_outbox_event(
    frame: OutboxFrame,
    channel: ChannelKey,
    origin: NodeInstance,
    removed: Vec<MemberPayload>,
    changes: Vec<(MemberPayload, Option<MemberPayload>)>,
) -> (r: Result<CommittedPresenceEvent, ChannelStateStoreError>)
    ensures
        r is Ok <==> outbox_members_readable(frame@, removed@, changes@),
        match r {
            Ok(event) => {
                &&& event@ == assembled_event(frame@, channel, origin, event@.change.member_changes)
                &&& if frame.format != OutboxFormat::Presence {
                    let made = event@.change.member_changes;
                    &&& made.len() == removed@.len()
                    &&& ids_by_client(change_ids(made))
                    &&& change_ids(made).to_multiset() == payload_ids(removed@).to_multiset()
                    &&& change_entries(made).to_multiset() == payload_entries(removed@).to_multiset()
                    &&& forall|k: int|
                        0 <= k < made.len() ==> {
                            &&& (#[trigger] made[k]).action == PresenceChangeAction::Leave
                            &&& made[k].message_id == server_message_id(frame.event_id, k as nat)
                            &&& made[k].timestamp == Timestamp { millis: frame.occurred_at }
                        }
                } else {
                    let made = event@.change.member_changes;
                    &&& made.len() == changes@.len()
                    &&& forall|k: int|
                        0 <= k < made.len() ==> {
                            &&& (#[trigger] made[k]).action == frame.changes@[k].action
                            &&& made[k].connection_id == changes@[k].0.connection_id@
                            &&& made[k].client_id == changes@[k].0.client_id@
                            &&& made[k].data == stored_data(data_source(changes@[k]))
                            &&& made[k].message_id == changes@[k].0.last_message_id@
                            &&& made[k].timestamp == Timestamp { millis: frame.occurred_at }
                        }
                }
            },
            Err(e) => e.kind_of() == StoreErrorKind::Internal,
        },
{
    let occurred_at = Timestamp { millis: frame.occurred_at };
    let mut member_changes: Vec<PresenceMemberChange> = Vec::new();
    if frame.format != OutboxFormat::Presence {
        let sorted = sort_payloads(removed);
        proof {
            lemma_all_accepted_multiset(sorted@, removed@);
        }
        let mut k: usize = 0;
        while k < sorted.len()
            invariant
                k <= sorted@.len(),
                frame.format != OutboxFormat::Presence,
                sorted@.to_multiset() == removed@.to_multiset(),
                member_changes@.len() == k,
                forall|j: int| 0 <= j < k ==> data_accepted(#[trigger] sorted@[j]),
                forall|j: int|
                    0 <= j < k ==> {
                        &&& (#[trigger] member_changes@[j]).action == PresenceChangeAction::Leave
                        &&& member_changes@[j].connection_id@ == sorted@[j].connection_id@
                        &&& member_changes@[j].client_id@ == sorted@[j].client_id@
                        &&& member_changes@[j].data == stored_data(sorted@[j])
                        &&& member_changes@[j].message_id@ == server_message_id(frame.event_id, j as nat)
                        &&& member_changes@[j].timestamp == occurred_at
                    },
            decreases sorted@.len() - k,
        {
            let member = &sorted[k];
            let data = match decode_member_data(member) {
                Ok(data) => data,
                Err(e) => {
                    proof {
                        assert(!data_accepted(sorted@[k as int]));
                        lemma_all_accepted_multiset(sorted@, removed@);
                    }
                    return Err(e);
                },
            };
            let message_id = server_message_text(frame.event_id, k);
            member_changes.push(
                PresenceMemberChange {
                    action: PresenceChangeAction::Leave,
                    connection_id: member.connection_id.clone(),
                    client_id: member.client_id.clone(),
                    data,
                    message_id,
                    timestamp: occurred_at,
                },
            );
            k = k + 1;
        }
        proof {
            let made = changes_view(member_changes@);
            assert(change_ids(made) =~= payload_ids(sorted@));
            assert(change_entries(made) =~= payload_entries(sorted@));
            assert(payload_ids(sorted@).to_multiset() == payload_ids(removed@).to_multiset()) by {
                lemma_ids_multiset(sorted@, removed@);
            }
            assert(payload_entries(sorted@).to_multiset() == payload_entries(removed@).to_multiset())
                by {
                lemma_entries_multiset(sorted@, removed@);
            }
            assert(ids_by_client(change_ids(made))) by {
                assert forall|i: int, j: int| 0 <= i < j < change_ids(made).len() implies !text_lt(
                    (#[trigger] change_ids(made)[j]).1,
                    (#[trigger] change_ids(made)[i]).1,
                ) by {
                    assert(change_ids(made)[i] == payload_ids(sorted@)[i]);
                    assert(change_ids(made)[j] == payload_ids(sorted@)[j]);
                    assert(!text_lt(sorted@[j].client_id@, sorted@[i].client_id@));
                }
            }
            assert(made.len() == removed@.len()) by {
                vstd::seq_lib::to_multiset_len(sorted@);
                vstd::seq_lib::to_multiset_len(removed@);
            }
        }
    } else {
        if changes.len() != frame.changes.len() {
            return Err(invalid("invalid Presence batch in outbox"));
        }
        let mut k: usize = 0;
        while k < changes.len()
            invariant
                k <= changes@.len(),
                frame.format == OutboxFormat::Presence,
                changes@.len() == frame.changes@.len(),
                member_changes@.len() == k,
                forall|j: int| 0 <= j < k ==> data_accepted(data_source(#[trigger] changes@[j])),
                forall|j: int|
                    0 <= j < k ==> {
                        &&& (#[trigger] member_changes@[j]).action == frame.changes@[j].action
                        &&& member_changes@[j].connection_id@ == changes@[j].0.connection_id@
                        &&& member_changes@[j].client_id@ == changes@[j].0.client_id@
                        &&& member_changes@[j].data == stored_data(data_source(changes@[j]))
                        &&& member_changes@[j].message_id@ == changes@[j].0.last_message_id@
                        &&& member_changes@[j].timestamp == occurred_at
                    },
            decreases changes@.len() - k,
        {
            let (member, previous) = &changes[k];
            let data = match previous {
                Some(previous) => decode_member_data(previous),
                None => decode_member_data(member),
            };
            let data = match data {
                Ok(data) => data,
                Err(e) => {
                    proof {
                        assert(!data_accepted(data_source(changes@[k as int])));
                    }
                    return Err(e);
                },
            };
            member_changes.push(
                PresenceMemberChange {
                    action: frame.changes[k].action,
                    connection_id: member.connection_id.clone(),
                    client_id: member.client_id.clone(),
                    data,
                    message_id: member.last_message_id.clone(),
                    timestamp: occurred_at,
                },
            );
            k = k + 1;
        }
    }
    let event = CommittedPresenceEvent::new(
        frame.event_id,
        PresenceChannelChanged {
            channel,
            origin,
            presence_revision: frame.presence_revision,
            occupancy_version: frame.occupancy_version,
            member_changes,
            occupancy: frame.occupancy,
            occurred_at,
        },
    );
    Ok(event)
}

/// Mapping two arrangements of the same items gives arrangements of the same
/// images.
pub proof fn lemma_map_multiset<A, B>(a: Seq<A>, b: Seq<A>, f: spec_fn(A) -> B)
    requires
        a.to_multiset() == b.to_multiset(),
    ensures
        a.map_values(f).to_multiset() == b.map_values(f).to_multiset(),
    decreases a.len(),
{
    broadcast use vstd::seq_lib::group_to_multiset_ensures;
    broadcast use vstd::multiset::group_multiset_axioms;

    if a.len() == 0 {
        assert(b.to_multiset().len() == 0);
        assert(b.len() == 0);
        assert(a.map_values(f) =~= b.map_values(f));
    } else {
        let x = a.last();
        let rest = a.drop_last();
        assert(a =~= rest.push(x));
        assert(a.to_multiset() == rest.to_multiset().insert(x));
        assert(b.to_multiset().count(x) > 0);
        assert(b.contains(x));
        let i = choose|i: int| 0 <= i < b.len() && b[i] == x;
        let other = b.remove(i);
        assert(other.to_multiset() == b.to_multiset().remove(x));
        assert(rest.to_multiset() =~= other.to_multiset());
        lemma_map_multiset(rest, other, f);
        assert(a.map_values(f) =~= rest.map_values(f).push(f(x)));
        assert(b =~= other.insert(i, x));
        assert(b.map_values(f) =~= other.map_values(f).insert(i, f(x)));
    }
}

/// Sequences with the same multiset of payloads have the same multiset of
/// identifiers.
proof fn lemma_ids_multiset(a: Seq<MemberPayload>, b: Seq<MemberPayload>)
    requires
        a.to_multiset() == b.to_multiset(),
    ensures
        payload_ids(a).to_multiset() == payload_ids(b).to_multiset(),
{
    lemma_map_multiset(a, b, |m: MemberPayload| (m.connection_id@, m.client_id@));
}

/// Sequences with the same multiset of payloads have the same multiset of
/// identifiers with data.
proof fn lemma_entries_multiset(a: Seq<MemberPayload>, b: Seq<MemberPayload>)
    requires
        a.to_multiset() == b.to_multiset(),
    ensures
        payload_entries(a).to_multiset() == payload_entries(b).to_multiset(),
{
    lemma_map_multiset(
        a,
        b,
        |m: MemberPayload| (m.connection_id@, m.client_id@, stored_data(m)),
    );
}

/// Two arrangements of the same payloads have readable data in all of one
/// exactly when in all of the other.
proof fn lemma_all_accepted_multiset(a: Seq<MemberPayload>, b: Seq<MemberPayload>)
    requires
        a.to_multiset() == b.to_multiset(),
    ensures
        (forall|k: int| 0 <= k < a.len() ==> data_accepted(#[trigger] a[k])) <==> (forall|k: int|
            0 <= k < b.len() ==> data_accepted(#[trigger] b[k])),
{
    broadcast use vstd::seq_lib::group_to_multiset_ensures;

    if forall|k: int| 0 <= k < a.len() ==> data_accepted(#[trigger] a[k]) {
        assert forall|k: int| 0 <= k < b.len() implies data_accepted(#[trigger] b[k]) by {
            assert(b.contains(b[k]));
            assert(a.to_multiset().count(b[k]) > 0);
            assert(a.contains(b[k]));
        }
    }
    if forall|k: int| 0 <= k < b.len() ==> data_accepted(#[trigger] b[k]) {
        assert forall|k: int| 0 <= k < a.len() implies data_accepted(#[trigger] a[k]) by {
            assert(a.contains(a[k]));
            assert(b.to_multiset().count(a[k]) > 0);
            assert(b.contains(a[k]));
        }
    }
}
} // verus!
