use vstd::prelude::*;

use crate::channel::{err_view, ErrView};
use crate::error::{ChannelStateStoreError, StoreErrorKind};
use crate::ids::Timestamp;
use crate::outbox::{data_accepted, decode_member_data, lemma_map_multiset, stored_data, MemberPayload};
use crate::protocol::{members_view, MemberView, OccupancyMetrics, PresenceMember, PresenceSnapshot};
use crate::reply::{
    decode_metrics, decode_text, decode_u64, invalid, invalid_text_error, invalid_u64_error,
    reply_text, reply_u64, spec_metrics, ScriptValue,
};
use crate::sorting::{members_by_connection, sort_by_connection};

verus! {

/// One member of a snapshot reply, its payload still JSON text.
#[derive(Debug)]
pub struct MemberRecord {
    pub payload_json: String,
    pub presence_revision: u64,
    pub updated_at: u64,
}

/// Mathematical content of a [`MemberRecord`].
pub struct MemberRecordView {
    pub payload_json: Seq<char>,
    pub presence_revision: u64,
    pub updated_at: u64,
}

impl View for MemberRecord {
    type V = MemberRecordView;

    open spec fn view(&self) -> MemberRecordView {
        MemberRecordView {
            payload_json: self.payload_json@,
            presence_revision: self.presence_revision,
            updated_at: self.updated_at,
        }
    }
}

/// A snapshot reply: its members, versions and Occupancy counters.
#[derive(Debug)]
pub struct SnapshotFrame {
    pub members: Vec<MemberRecord>,
    pub presence_revision: u64,
    pub occupancy_version: u64,
    pub occupancy: OccupancyMetrics,
}

/// Mathematical content of a [`SnapshotFrame`].
pub struct SnapshotFrameView {
    pub members: Seq<MemberRecordView>,
    pub presence_revision: u64,
    pub occupancy_version: u64,
    pub occupancy: OccupancyMetrics,
}

impl View for SnapshotFrame {
    type V = SnapshotFrameView;

    open spec fn view(&self) -> SnapshotFrameView {
        SnapshotFrameView {
            members: self.members@.map_values(|m: MemberRecord| m@),
            presence_revision: self.presence_revision,
            occupancy_version: self.occupancy_version,
            occupancy: self.occupancy,
        }
    }
}

/// The error of a snapshot reply of the wrong shape.
pub open spec fn invalid_snapshot_error() -> ErrView {
    (StoreErrorKind::Internal, "invalid snapshot in Lua reply"@)
}

/// One member of a snapshot reply: payload text, revision and update time.
pub open spec fn spec_member_record(value: ScriptValue) -> Result<MemberRecordView, ErrView> {
    match value {
        ScriptValue::Array(record) => if record@.len() == 3 {
            match reply_text(record@[0]) {
                None => Err(invalid_text_error("member"@)),
                Some(payload) => match reply_u64(record@[1]) {
                    None => Err(invalid_u64_error("member revision"@)),
                    Some(revision) => match reply_u64(record@[2]) {
                        None => Err(invalid_u64_error("member timestamp"@)),
                        Some(at) => Ok(
                            MemberRecordView {
                                payload_json: payload,
                                presence_revision: revision,
                                updated_at: at,
                            },
                        ),
                    },
                },
            }
        } else {
            Err(invalid_snapshot_error())
        },
        _ => Err(invalid_snapshot_error()),
    }
}

/// The first `count` members of a snapshot reply, or the first error.
pub open spec fn member_records(values: Seq<ScriptValue>, count: nat) -> Result<
    Seq<MemberRecordView>,
    ErrView,
>
    decreases count,
{
    if count == 0 {
        Ok(Seq::empty())
    } else {
        match member_records(values, (count - 1) as nat) {
            Err(e) => Err(e),
            Ok(records) => match spec_member_record(values[count - 1]) {
                Ok(record) => Ok(records.push(record)),
                Err(e) => Err(e),
            },
        }
    }
}

/// A snapshot reply: members, then Presence revision, Occupancy version and
/// counters, each read in that order.
pub open spec fn spec_snapshot_frame(value: ScriptValue) -> Result<SnapshotFrameView, ErrView> {
    match value {
        ScriptValue::Array(values) => {
            let v = values@;
            if v.len() == 4 && v[0] is Array {
                let raw = v[0]->Array_0@;
                match member_records(raw, raw.len()) {
                    Err(e) => Err(e),
                    Ok(records) => match reply_u64(v[1]) {
                        None => Err(invalid_u64_error("presence_revision"@)),
                        Some(presence_revision) => match reply_u64(v[2]) {
                            None => Err(invalid_u64_error("occupancy_version"@)),
                            Some(occupancy_version) => match spec_metrics(v[3]) {
                                Err(e) => Err(e),
                                Ok(occupancy) => Ok(
                                    SnapshotFrameView {
                                        members: records,
                                        presence_revision,
                                        occupancy_version,
                                        occupancy,
                                    },
                                ),
                            },
                        },
                    },
                }
            } else {
                Err(invalid_snapshot_error())
            }
        },
        _ => Err(invalid_snapshot_error()),
    }
}

/// Reads one member of a snapshot reply.
fn decode_member_record(value: &ScriptValue) -> (r: Result<MemberRecord, ChannelStateStoreError>)
    ensures
        match (r, spec_member_record(*value)) {
            (Ok(record), Ok(v)) => record@ == v,
            (Err(e), Err(v)) => err_view(e) == v,
            _ => false,
        },
{
    let record = match value {
        ScriptValue::Array(record) => record,
        _ => {
            return Err(invalid("invalid snapshot in Lua reply"));
        },
    };
    if record.len() != 3 {
        return Err(invalid("invalid snapshot in Lua reply"));
    }
    let payload_json = match decode_text(&record[0], "member") {
        Ok(text) => text,
        Err(e) => {
            return Err(e);
        },
    };
    let presence_revision = match decode_u64(&record[1], "member revision") {
        Ok(n) => n,
        Err(e) => {
            return Err(e);
        },
    };
    let updated_at = match decode_u64(&record[2], "member timestamp") {
        Ok(n) => n,
        Err(e) => {
            return Err(e);
        },
    };
    Ok(MemberRecord { payload_json, presence_revision, updated_at })
}

/// Once a member fails, the members after it give the same error.
proof fn lemma_member_records_error(values: Seq<ScriptValue>, k: nat, m: nat)
    requires
        k <= m,
        member_records(values, k) is Err,
    ensures
        member_records(values, m) == member_records(values, k),
    decreases m - k,
{
    if k < m {
        lemma_member_records_error(values, k, (m - 1) as nat);
    }
}

/// Reads the members of a snapshot reply in reply order.
fn decode_member_records(raw: &Vec<ScriptValue>) -> (r: Result<Vec<MemberRecord>, ChannelStateStoreError>)
    ensures
        match (r, member_records(raw@, raw@.len())) {
            (Ok(list), Ok(v)) => list@.map_values(|m: MemberRecord| m@) == v,
            (Err(e), Err(v)) => err_view(e) == v,
            _ => false,
        },
{
    let mut records: Vec<MemberRecord> = Vec::new();
    let mut k: usize = 0;
    assert(records@.map_values(|m: MemberRecord| m@) =~= Seq::<MemberRecordView>::empty());
    while k < raw.len()
        invariant
            k <= raw@.len(),
            member_records(raw@, k as nat) == Ok::<Seq<MemberRecordView>, ErrView>(
                records@.map_values(|m: MemberRecord| m@),
            ),
        decreases raw@.len() - k,
    {
        let record = match decode_member_record(&raw[k]) {
            Ok(record) => record,
            Err(e) => {
                proof {
                    lemma_member_records_error(raw@, (k + 1) as nat, raw@.len());
                }
                return Err(e);
            },
        };
        let ghost before = records@.map_values(|m: MemberRecord| m@);
        let ghost view = record@;
        records.push(record);
        proof {
            assert(records@.map_values(|m: MemberRecord| m@) =~= before.push(view));
        }
        k = k + 1;
    }
    Ok(records)
}

/// Reads a snapshot reply: its members with their payloads as JSON text, its
/// versions and its Occupancy counters.
pub fn decode_snapshot_frame(value: &ScriptValue) -> (r: Result<SnapshotFrame, ChannelStateStoreError>)
    ensures
        match (r, spec_snapshot_frame(*value)) {
            (Ok(frame), Ok(v)) => frame@ == v,
            (Err(e), Err(v)) => err_view(e) == v,
            _ => false,
        },
{
    let values = match value {
        ScriptValue::Array(values) => values,
        _ => {
            return Err(invalid("invalid snapshot in Lua reply"));
        },
    };
    if values.len() != 4 {
        return Err(invalid("invalid snapshot in Lua reply"));
    }
    let raw = match &values[0] {
        ScriptValue::Array(raw) => raw,
        _ => {
            return Err(invalid("invalid snapshot in Lua reply"));
        },
    };
    let members = match decode_member_records(raw) {
        Ok(members) => members,
        Err(e) => {
            return Err(e);
        },
    };
    let presence_revision = match decode_u64(&values[1], "presence_revision") {
        Ok(n) => n,
        Err(e) => {
            return Err(e);
        },
    };
    let occupancy_version = match decode_u64(&values[2], "occupancy_version") {
        Ok(n) => n,
        Err(e) => {
            return Err(e);
        },
    };
    let occupancy = match decode_metrics(&values[3]) {
        Ok(metrics) => metrics,
        Err(e) => {
            return Err(e);
        },
    };
    Ok(SnapshotFrame { members, presence_revision, occupancy_version, occupancy })
}

/// What a snapshot member holds.
pub type MemberShape = (
    Seq<char>,
    Seq<char>,
    (Seq<char>, u128, u64),
    Seq<char>,
    u64,
    u64,
    Option<serde_json::Value>,
);

/// The shape of a member.
pub open spec fn member_shape(m: MemberView) -> MemberShape {
    (
        m.connection_id,
        m.client_id,
        m.node_instance,
        m.last_message_id,
        m.presence_revision,
        m.updated_at.millis,
        m.data,
    )
}

/// The shape of the member a stored record and its read payload give.
pub open spec fn stored_shape(record: MemberRecordView, payload: MemberPayload) -> MemberShape {
    (
        payload.connection_id@,
        payload.client_id@,
        payload.node_instance@,
        payload.last_message_id@,
        record.presence_revision,
        record.updated_at,
        stored_data(payload),
    )
}

/// The shapes of the stored members, in reply order.
pub open spec fn stored_shapes(records: Seq<MemberRecordView>, payloads: Seq<MemberPayload>) -> Seq<
    MemberShape,
> {
    Seq::new(records.len(), |k: int| stored_shape(records[k], payloads[k]))
}

/// Builds the snapshot of a reply from its frame and the payload read from
/// each member's JSON text, in the same order. Members come out in order of
/// connection identifier, then client identifier.
pub fn assemble_snapshot(frame: SnapshotFrame, payloads: Vec<MemberPayload>) -> (r: Result<
    PresenceSnapshot,
    ChannelStateStoreError,
>)
    requires
        payloads@.len() == frame.members@.len(),
    ensures
        r is Ok <==> forall|k: int| 0 <= k < payloads@.len() ==> data_accepted(#[trigger] payloads@[k]),
        match r {
            Ok(snapshot) => {
                &&& snapshot.presence_revision == frame.presence_revision
                &&& snapshot.occupancy_version == frame.occupancy_version
                &&& snapshot.occupancy == frame.occupancy
                &&& members_by_connection(members_view(snapshot.members@))
                &&& members_view(snapshot.members@).map_values(|m: MemberView| member_shape(m)).to_multiset()
                    == stored_shapes(frame@.members, payloads@).to_multiset()
            },
            Err(e) => e.kind_of() == StoreErrorKind::Internal,
        },
{
    let mut members: Vec<PresenceMember> = Vec::new();
    let mut k: usize = 0;
    while k < payloads.len()
        invariant
            payloads@.len() == frame.members@.len(),
            k <= payloads@.len(),
            members@.len() == k,
            forall|j: int| 0 <= j < k ==> data_accepted(#[trigger] payloads@[j]),
            forall|j: int|
                0 <= j < k ==> member_shape((#[trigger] members@[j])@) == stored_shape(
                    frame.members@[j]@,
                    payloads@[j],
                ),
        decreases payloads@.len() - k,
    {
        let payload = &payloads[k];
        let record = &frame.members[k];
        let data = match decode_member_data(payload) {
            Ok(data) => data,
            Err(e) => {
                proof {
                    assert(!data_accepted(payloads@[k as int]));
                }
                return Err(e);
            },
        };
        members.push(
            PresenceMember {
                connection_id: payload.connection_id.clone(),
                client_id: payload.client_id.clone(),
                node_instance: payload.node_instance.clone(),
                data,
                last_message_id: payload.last_message_id.clone(),
                presence_revision: record.presence_revision,
                updated_at: Timestamp { millis: record.updated_at },
            },
        );
        k = k + 1;
    }
    let ghost listed = members@;
    let sorted = sort_by_connection(members);
    proof {
        let shape = |m: PresenceMember| member_shape(m@);
        lemma_map_multiset(sorted@, listed, shape);
        assert(members_view(sorted@).map_values(|m: MemberView| member_shape(m)) =~= sorted@.map_values(shape));
        assert(listed.map_values(shape) =~= stored_shapes(frame@.members, payloads@));
    }
    Ok(
        PresenceSnapshot {
            members: sorted,
            presence_revision: frame.presence_revision,
            occupancy_version: frame.occupancy_version,
            occupancy: frame.occupancy,
        },
    )
}

} // verus!
