use vstd::prelude::*;

use crate::channel::{
    count_mode, attachment_slot, connection_members, detached_state, other_members, presence_attached,
    removes_on_save, saved_state, spec_apply_presence_batch, spec_detach, spec_save_attachment,
    unique_connections, ChannelStateView,
};
use crate::commands::{
    AttachCommand, DetachCommand, DisconnectConnectionCommand, PresenceBatchCommand,
    PresenceLedgerPolicy,
};
use crate::error::StoreErrorKind;
use crate::ids::{ConnectionActor, Timestamp};
use crate::ledger::{lemma_record_then_lookup, record_slot, LookupView, RecordView};
use crate::outcomes::server_event;
use crate::presence_plan::{member_slot, plan_step, unique_clients, PlanState};
use crate::protocol::{
    AttachmentTracking, AttachmentView, ChannelModes, MemberView, PresenceChangeAction,
    PresenceMutationAction, RejectionView,
};
use crate::redis_store::{actor_refusal, attach_refusal, generation_refusal, RedisStoreView};
use crate::sorting::{name_key, strictly_sorted};
use crate::store::{
    by_channel_name, closed_connection_message, connection_name, detach_all, detach_error,
    detach_step, is_first_failure, journal_lookup, lemma_by_channel_name, ledger_or_fresh,
    spec_apply_presence, spec_attach, spec_detach_channel, spec_disconnect, swept, ChannelName,
    ConnectionName, StoreView,
};
use crate::text::{lemma_text_lt_asymmetric, text_lt};
use crate::transition::{OutcomeView, ReceiptView, TransitionView};

verus! {


/// After a save, the connection's attachment is the saved one.
pub proof fn lemma_saved_slot(s: ChannelStateView, a: AttachmentView)
    requires
        s.wf(),
    ensures
        attachment_slot(saved_state(s, a).attachments, a.connection_id) is Some,
        saved_state(s, a).attachments[attachment_slot(
            saved_state(s, a).attachments,
            a.connection_id,
        )->0] == a,
{
    let n = saved_state(s, a).attachments;
    match attachment_slot(s.attachments, a.connection_id) {
        Some(i) => {
            assert(n[i] == a);
            let j = choose|j: int| 0 <= j < n.len() && n[j].connection_id == a.connection_id;
            if j != i {
                assert(s.attachments[j].connection_id != s.attachments[i].connection_id);
            }
        },
        None => {
            let last = s.attachments.len() as int;
            assert(n[last] == a);
            let j = choose|j: int| 0 <= j < n.len() && n[j].connection_id == a.connection_id;
            if j != last {
                assert(s.attachments[j].connection_id == a.connection_id);
            }
        },
    }
}

/// A connection detached from a channel has no attachment and no member there.
pub proof fn lemma_detached_clean(s: ChannelStateView, connection: Seq<char>)
    requires
        s.wf(),
        attachment_slot(s.attachments, connection) is Some,
    ensures
        attachment_slot(detached_state(s, connection).attachments, connection) is None,
        connection_members(detached_state(s, connection).members, connection).len() == 0,
{
    broadcast use vstd::seq_lib::group_filter_ensures;

    let i = attachment_slot(s.attachments, connection)->0;
    let n = detached_state(s, connection);
    assert(s.attachments[i].connection_id == connection);
    assert forall|j: int| 0 <= j < n.attachments.len() implies n.attachments[j].connection_id
        != connection by {
        let j0 = if j < i { j } else { j + 1 };
        assert(n.attachments[j] == s.attachments[j0]);
        assert(s.attachments[j0].connection_id != s.attachments[i].connection_id);
    }
    lemma_no_members_after_removal(s.members, connection);
}

/// Members of a connection are gone once they were filtered out.
pub proof fn lemma_no_members_after_removal(members: Seq<MemberView>, connection: Seq<char>)
    ensures
        connection_members(other_members(members, connection), connection).len() == 0,
{
    broadcast use vstd::seq_lib::group_filter_ensures;

    let rest = other_members(members, connection);
    let left = connection_members(rest, connection);
    if left.len() > 0 {
        let x = left[0];
        assert(x.connection_id == connection);
        assert(left.contains(x));
        rest.lemma_filter_contains_rev(|m: MemberView| m.connection_id == connection, x);
        let k = choose|k: int| 0 <= k < rest.len() && rest[k] == x;
        assert(rest[k].connection_id != connection);
    }
}

/// Saving the same attachment again changes nothing.
pub proof fn lemma_save_again(s: ChannelStateView, a: AttachmentView)
    requires
        s.wf(),
        spec_save_attachment(s, a) is Ok,
        saved_state(s, a).occupancy_version != u64::MAX,
    ensures
        spec_save_attachment(saved_state(s, a), a) == Ok::<ChannelStateView, (StoreErrorKind, Seq<char>)>(saved_state(s, a)),
{
    let n = saved_state(s, a);
    lemma_saved_slot(s, a);
    let j = attachment_slot(n.attachments, a.connection_id)->0;
    if removes_on_save(s, a) {
        lemma_no_members_after_removal(s.members, a.connection_id);
    }
    assert(!removes_on_save(n, a));
    let again = saved_state(n, a);
    assert(again.attachments =~= n.attachments);
    assert(again.members == n.members);
    assert(again == n);
}

/// Attaching again is idempotent: a retry of an attach that succeeded, the
/// same attachment of the same connection to the same channel (its event
/// identifier and request time may differ), leaves the store as it is,
/// publishes nothing and gives the same snapshot back.
///
/// Left out: a channel whose Occupancy version reached `u64::MAX`, where every
/// save is refused as an overflow.
pub proof fn lemma_attach_idempotent(s: StoreView, command: &AttachCommand, retry: &AttachCommand)
    requires
        s.wf(),
        spec_attach(s, command) is Ok,
        (spec_attach(s, command)->Ok_0).0.channel(command.channel@).occupancy_version != u64::MAX,
        retry.channel@ == command.channel@,
        retry.actor.application_id@ == command.actor.application_id@,
        retry.spec_attachment() == command.spec_attachment(),
    ensures
        spec_attach((spec_attach(s, command)->Ok_0).0, retry) is Ok,
        ({
            let (first, outcome) = spec_attach(s, command)->Ok_0;
            let (second, again) = spec_attach(first, retry)->Ok_0;
            &&& second == first
            &&& again.snapshot == outcome.snapshot
            &&& again.attachment == outcome.attachment
            &&& again.transition == TransitionView::Unchanged {
                occupancy_version: first.channel(command.channel@).occupancy_version,
            }
        }),
{
    let channel = command.channel@;
    let connection = connection_name(&command.actor);
    let a = command.spec_attachment();
    let before = s.channel(channel);
    assert(before.wf()) by {
        if s.channels.contains_key(channel) {
        } else {
            assert(ChannelStateView::empty().attachments =~= Seq::<AttachmentView>::empty());
            assert(ChannelStateView::empty().members =~= Seq::<MemberView>::empty());
        }
    }
    let (first, outcome) = spec_attach(s, command)->Ok_0;
    let n = saved_state(before, a);
    assert(first.channel(channel) == n);
    assert(first.ledgers == s.ledgers);
    lemma_save_again(before, a);
    assert(first.channels.insert(channel, n) =~= first.channels);
    assert(first.channels_of(connection).insert(channel) =~= first.channels_of(connection));
    assert(first.connection_channels.insert(connection, first.channels_of(connection))
        =~= first.connection_channels);
    assert(connection_name(&retry.actor) == connection);
    let (second, again) = spec_attach(first, retry)->Ok_0;
    assert(second == first);
}

/// Detaching again after a successful detach succeeds without changes.
pub proof fn lemma_detach_idempotent(s: StoreView, command: &DetachCommand)
    requires
        s.wf(),
        spec_detach_channel(s, command) is Ok,
    ensures
        spec_detach_channel((spec_detach_channel(s, command)->Ok_0).0, command) == Ok::<(StoreView, TransitionView), (StoreErrorKind, Seq<char>)>(
            (
                (spec_detach_channel(s, command)->Ok_0).0,
                TransitionView::Unchanged {
                    occupancy_version: (spec_detach_channel(s, command)->Ok_0).0.channel(
                        command.channel@,
                    ).occupancy_version,
                },
            ),
        ),
{
    let channel = command.channel@;
    let connection = connection_name(&command.actor);
    let conn = command.actor.connection_id@;
    let first = (spec_detach_channel(s, command)->Ok_0).0;
    if s.channels.contains_key(channel) {
        let before = s.channels[channel];
        let n = spec_detach(before, &command.actor)->Ok_0;
        if attachment_slot(before.attachments, conn) is Some {
            lemma_detached_clean(before, conn);
        }
        assert(attachment_slot(n.attachments, conn) is None);
        assert(first.channels[channel] == n);
        assert(first.channels.insert(channel, n) =~= first.channels);
    }
    if first.connection_channels.contains_key(connection) {
        assert(!first.connection_channels[connection].contains(channel));
        assert(first.connection_channels[connection].remove(channel) =~= first.connection_channels[connection]);
        assert(first.connection_channels.insert(connection, first.connection_channels[connection])
            =~= first.connection_channels);
    }
    assert(detach_step(first, &command.actor, channel) == first);
}

/// Detaching from several channels changes no journal.
pub proof fn lemma_detach_all_keeps_ledgers(
    s: StoreView,
    actor: &crate::ids::ConnectionActor,
    order: Seq<ChannelName>,
)
    ensures
        detach_all(s, actor, order).ledgers == s.ledgers,
        detach_all(s, actor, order).ledger_policy == s.ledger_policy,
    decreases order.len(),
{
    if order.len() > 0 {
        lemma_detach_all_keeps_ledgers(s, actor, order.drop_last());
    }
}

/// A repeated disconnect succeeds with no transitions.
pub proof fn lemma_disconnect_twice(
    s: StoreView,
    first: &DisconnectConnectionCommand,
    second: &DisconnectConnectionCommand,
)
    requires
        s.wf(),
        spec_disconnect(s, first) is Ok,
        connection_name(&second.actor) == connection_name(&first.actor),
    ensures
        spec_disconnect((spec_disconnect(s, first)->Ok_0).0, second) is Ok,
        (spec_disconnect((spec_disconnect(s, first)->Ok_0).0, second)->Ok_0).1 == Seq::<
            TransitionView,
        >::empty(),
{
    let after = (spec_disconnect(s, first)->Ok_0).0;
    let connection = connection_name(&first.actor);
    assert(!after.connection_channels.contains_key(connection));
    let none = Seq::<ChannelName>::empty();
    assert(none.to_set() =~= Set::<ChannelName>::empty());
    assert(strictly_sorted(none, name_key()));
    lemma_by_channel_name(none, after.channels_of(connection));
    assert(!exists|i: int| is_first_failure(after, &second.actor, none, i));
    assert((spec_disconnect(after, second)->Ok_0).1 =~= Seq::<TransitionView>::empty());
}

/// A disconnected connection cannot attach again while its journal is kept.
///
/// Left out: a connection whose journal was closed before, which the sweep of
/// this disconnect may already have removed.
pub proof fn lemma_attach_after_disconnect(
    s: StoreView,
    disconnect: &DisconnectConnectionCommand,
    attach: &AttachCommand,
)
    requires
        s.wf(),
        spec_disconnect(s, disconnect) is Ok,
        !s.is_closed(connection_name(&disconnect.actor)),
        connection_name(&attach.actor) == connection_name(&disconnect.actor),
        attach.accounting == crate::protocol::AttachmentTracking::Individual,
        attach.channel.application_id@ == attach.actor.application_id@,
    ensures
        spec_attach((spec_disconnect(s, disconnect)->Ok_0).0, attach) == Err::<
            (StoreView, crate::commands::AttachOutcomeView),
            (StoreErrorKind, Seq<char>),
        >((StoreErrorKind::Conflict, closed_connection_message(attach.actor.connection_id@))),
{
    let connection = connection_name(&disconnect.actor);
    let order = by_channel_name(s.channels_of(connection));
    let detached = detach_all(s, &disconnect.actor, order);
    lemma_detach_all_keeps_ledgers(s, &disconnect.actor, order);
    let after = (spec_disconnect(s, disconnect)->Ok_0).0;
    assert(after.ledgers.contains_key(connection));
    assert(after.is_closed(connection));
}


/// A repeated Presence command gets the outcome of its first run, marked as
/// replayed, and changes nothing.
///
/// Left out: commands refused by the journal itself (those are not recorded),
/// and a full journal where the command has the smallest serial, which is
/// forgotten as soon as it is recorded.
pub proof fn lemma_presence_replay(s: StoreView, command: &PresenceBatchCommand)
    requires
        s.wf(),
        spec_apply_presence(s, command) is Ok,
        journal_lookup(s, command) is Miss || journal_lookup(s, command) is Replay,
        ({
            let journal = ledger_or_fresh(s, connection_name(&command.actor.connection_actor));
            journal.records.len() < journal.capacity || exists|i: int|
                0 <= i < journal.records.len() && journal.records[i].serial < command.msg_serial
        }),
    ensures
        journal_lookup((spec_apply_presence(s, command)->Ok_0).0, command) == LookupView::Replay(
            (spec_apply_presence(s, command)->Ok_0).1.outcome,
        ),
        spec_apply_presence((spec_apply_presence(s, command)->Ok_0).0, command) == Ok::<
            (StoreView, ReceiptView),
            (StoreErrorKind, Seq<char>),
        >(
            (
                (spec_apply_presence(s, command)->Ok_0).0,
                ReceiptView {
                    outcome: (spec_apply_presence(s, command)->Ok_0).1.outcome,
                    replayed: true,
                },
            ),
        ),
{
    let connection = connection_name(&command.actor.connection_actor);
    let journal = ledger_or_fresh(s, connection);
    let (first, receipt) = spec_apply_presence(s, command)->Ok_0;
    if journal_lookup(s, command) is Miss {
        assert(journal.wf()) by {
            if !s.ledgers.contains_key(connection) {
                assert(journal.records =~= Seq::<RecordView>::empty());
            }
        }
        let record = RecordView {
            serial: command.msg_serial,
            fingerprint: command.request_fingerprint@,
            outcome: receipt.outcome,
        };
        assert(record_slot(journal.records, command.msg_serial) is None) by {
            if !s.ledgers.contains_key(connection) {
                assert(journal.records =~= Seq::<RecordView>::empty());
            }
        }
        lemma_record_then_lookup(journal, record);
        assert(first.ledgers[connection] == journal.record(record));
        assert(journal_lookup(first, command) == LookupView::Replay(receipt.outcome));
    }
}

/// A second Presence command under the serial of one that ran, while the
/// journal keeps it: the same operation (same fingerprint) gets the first
/// outcome as a replay, any other operation is refused as a conflicting
/// replay, and neither changes the store, so the first outcome still replays.
///
/// Left out: as for `lemma_presence_replay`, commands refused by the journal
/// itself and a full journal where the command has the smallest serial.
pub proof fn lemma_presence_same_serial(
    s: StoreView,
    command: &PresenceBatchCommand,
    second: &PresenceBatchCommand,
)
    requires
        s.wf(),
        spec_apply_presence(s, command) is Ok,
        journal_lookup(s, command) is Miss || journal_lookup(s, command) is Replay,
        ({
            let journal = ledger_or_fresh(s, connection_name(&command.actor.connection_actor));
            journal.records.len() < journal.capacity || exists|i: int|
                0 <= i < journal.records.len() && journal.records[i].serial < command.msg_serial
        }),
        connection_name(&second.actor.connection_actor) == connection_name(
            &command.actor.connection_actor,
        ),
        second.msg_serial == command.msg_serial,
        second.channel@.0 == second.actor.connection_actor.application_id@,
    ensures
        ({
            let (first, receipt) = spec_apply_presence(s, command)->Ok_0;
            &&& second.request_fingerprint@ == command.request_fingerprint@ ==> spec_apply_presence(
                first,
                second,
            ) == Ok::<(StoreView, ReceiptView), (StoreErrorKind, Seq<char>)>(
                (first, ReceiptView { outcome: receipt.outcome, replayed: true }),
            )
            &&& second.request_fingerprint@ != command.request_fingerprint@ ==> spec_apply_presence(
                first,
                second,
            ) == Ok::<(StoreView, ReceiptView), (StoreErrorKind, Seq<char>)>(
                (
                    first,
                    ReceiptView {
                        outcome: OutcomeView::Rejected(RejectionView::ConflictingReplay),
                        replayed: false,
                    },
                ),
            )
            &&& spec_apply_presence(first, command) == Ok::<
                (StoreView, ReceiptView),
                (StoreErrorKind, Seq<char>),
            >((first, ReceiptView { outcome: receipt.outcome, replayed: true }))
        }),
{
    lemma_presence_replay(s, command);
    let (first, receipt) = spec_apply_presence(s, command)->Ok_0;
    let connection = connection_name(&command.actor.connection_actor);
    assert(first.ledgers.contains_key(connection));
    let journal = first.ledgers[connection];
    assert(journal.lookup(command.msg_serial, command.request_fingerprint@) == LookupView::Replay(
        receipt.outcome,
    ));
}

/// Where some channel's detach would fail, a first such channel exists.
pub proof fn lemma_first_failure(
    s: StoreView,
    actor: &ConnectionActor,
    order: Seq<ChannelName>,
    i: int,
)
    requires
        0 <= i < order.len(),
        detach_error(s, actor, order[i]) is Some,
    ensures
        exists|f: int| is_first_failure(s, actor, order, f),
    decreases i,
{
    if exists|j: int| 0 <= j < i && detach_error(s, actor, #[trigger] order[j]) is Some {
        let j = choose|j: int| 0 <= j < i && detach_error(s, actor, #[trigger] order[j]) is Some;
        lemma_first_failure(s, actor, order, j);
    } else {
        assert(is_first_failure(s, actor, order, i));
    }
}

/// The connection has neither an attachment nor a member in the channel.
pub open spec fn free_of(channel: ChannelStateView, connection: Seq<char>) -> bool {
    &&& attachment_slot(channel.attachments, connection) is None
    &&& connection_members(channel.members, connection).len() == 0
}

/// A successful detach leaves the channel free of the connection.
pub proof fn lemma_detach_frees(s: ChannelStateView, actor: &ConnectionActor)
    requires
        s.wf(),
        spec_detach(s, actor) is Ok,
    ensures
        free_of(spec_detach(s, actor)->Ok_0, actor.connection_id@),
{
    broadcast use vstd::seq_lib::group_filter_ensures;

    let connection = actor.connection_id@;
    if attachment_slot(s.attachments, connection) is Some {
        lemma_detached_clean(s, connection);
    } else {
        let left = connection_members(s.members, connection);
        if left.len() > 0 {
            let x = left[0];
            assert(x.connection_id == connection);
            assert(left.contains(x));
            s.members.lemma_filter_contains_rev(|m: MemberView| m.connection_id == connection, x);
            let k = choose|k: int| 0 <= k < s.members.len() && s.members[k] == x;
            assert(presence_attached(s.attachments, s.members[k].connection_id));
            let w = choose|w: int|
                0 <= w < s.attachments.len() && #[trigger] s.attachments[w].connection_id
                    == connection && s.attachments[w].effective_modes.presence;
            assert(s.attachments[w].connection_id == connection);
        }
    }
}

/// Detaching from every channel of `order` leaves each of them free of the
/// connection, when none of the detaches fails.
pub proof fn lemma_detach_all_frees(s: StoreView, actor: &ConnectionActor, order: Seq<ChannelName>)
    requires
        s.wf(),
        order.no_duplicates(),
        forall|j: int| 0 <= j < order.len() ==> detach_error(s, actor, #[trigger] order[j]) is None,
    ensures
        forall|j: int|
            0 <= j < order.len() ==> free_of(
                detach_all(s, actor, order).channel(#[trigger] order[j]),
                actor.connection_id@,
            ),
    decreases order.len(),
{
    if order.len() > 0 {
        let rest = order.drop_last();
        let last = order.last();
        assert forall|j: int| 0 <= j < rest.len() implies detach_error(s, actor, #[trigger] rest[j]) is None by {
            assert(rest[j] == order[j]);
        }
        assert(rest.no_duplicates());
        lemma_detach_all_frees(s, actor, rest);
        let mid = detach_all(s, actor, rest);
        assert(!rest.contains(last)) by {
            if rest.contains(last) {
                let j = choose|j: int| 0 <= j < rest.len() && rest[j] == last;
                assert(order[j] == order[order.len() - 1]);
            }
        }
        crate::store::lemma_detach_all_frame(s, actor, rest, last);
        assert(detach_error(s, actor, order[order.len() - 1]) is None);
        let after = detach_all(s, actor, order);
        if s.channels.contains_key(last) {
            lemma_detach_frees(s.channels[last], actor);
        } else {
            assert(ChannelStateView::empty().attachments =~= Seq::<AttachmentView>::empty());
            assert(ChannelStateView::empty().members.filter(|m: MemberView| m.connection_id == actor.connection_id@) =~= Seq::<MemberView>::empty()) by {
                reveal(Seq::filter);
            }
        }
        assert forall|j: int| 0 <= j < order.len() implies free_of(
            after.channel(#[trigger] order[j]),
            actor.connection_id@,
        ) by {
            if j < rest.len() {
                assert(rest[j] == order[j]);
                assert(order[j] != last);
            }
        }
    }
}

/// After a disconnect the connection is attached to no channel, and every
/// channel it was attached to holds neither its attachment nor its members.
pub proof fn lemma_disconnect_clears_connection(s: StoreView, command: &DisconnectConnectionCommand)
    requires
        s.wf(),
        spec_disconnect(s, command) is Ok,
    ensures
        ({
            let after = (spec_disconnect(s, command)->Ok_0).0;
            let connection = connection_name(&command.actor);
            &&& after.channels_of(connection) == Set::<ChannelName>::empty()
            &&& forall|channel: ChannelName| #[trigger]
                s.channels_of(connection).contains(channel) ==> free_of(
                    after.channel(channel),
                    command.actor.connection_id@,
                )
        }),
{
    let connection = connection_name(&command.actor);
    let set = s.channels_of(connection);
    let order = by_channel_name(set);
    let after = (spec_disconnect(s, command)->Ok_0).0;
    assert(set.finite()) by {
        if !s.connection_channels.contains_key(connection) {
            assert(set =~= Set::<ChannelName>::empty());
        }
    }
    assert forall|x: ChannelName, y: ChannelName|
        set.contains(x) && set.contains(y) && x.1 == y.1 implies x == y by {
        assert(x.0 == connection.0);
        assert(y.0 == connection.0);
    }
    crate::store::lemma_by_channel_name_exists(set);
    assert(strictly_sorted(order, name_key()) && order.to_set() == set);
    assert forall|j: int| 0 <= j < order.len() implies detach_error(s, &command.actor, #[trigger] order[j]) is None by {
        if detach_error(s, &command.actor, order[j]) is Some {
            lemma_first_failure(s, &command.actor, order, j);
        }
    }
    assert(order.no_duplicates()) by {
        assert forall|i: int, j: int| 0 <= i < order.len() && 0 <= j < order.len() && i != j implies order[i] != order[j] by {
            if i < j {
                assert(text_lt(name_key()(order[i]), name_key()(order[j])));
                lemma_text_lt_asymmetric(order[i].1, order[i].1);
            } else {
                assert(text_lt(name_key()(order[j]), name_key()(order[i])));
                lemma_text_lt_asymmetric(order[j].1, order[j].1);
            }
        }
    }
    lemma_detach_all_frees(s, &command.actor, order);
    let detached = detach_all(s, &command.actor, order);
    assert forall|channel: ChannelName| #[trigger] set.contains(channel) implies free_of(
        after.channel(channel),
        command.actor.connection_id@,
    ) by {
        assert(order.to_set().contains(channel));
        let j = choose|j: int| 0 <= j < order.len() && order[j] == channel;
        assert(free_of(detached.channel(order[j]), command.actor.connection_id@));
        assert(after.channels == detached.channels);
    }
    assert(after.channels_of(connection) =~= Set::<ChannelName>::empty());
}

/// No channel's Occupancy version or Presence revision went down from
/// `before` to `after`.
pub open spec fn versions_kept(before: StoreView, after: StoreView) -> bool {
    forall|channel: ChannelName|
        #![trigger after.channel(channel)]
        after.channel(channel).occupancy_version >= before.channel(channel).occupancy_version
            && after.channel(channel).presence_revision >= before.channel(
            channel,
        ).presence_revision
}

/// A successful detach does not lower a channel's versions.
pub proof fn lemma_detach_step_versions(s: StoreView, actor: &ConnectionActor, channel: ChannelName)
    requires
        detach_error(s, actor, channel) is None,
    ensures
        versions_kept(s, detach_step(s, actor, channel)),
        detach_step(s, actor, channel).ledgers == s.ledgers,
{
    let after = detach_step(s, actor, channel);
    assert forall|k: ChannelName| #![trigger after.channel(k)]
        after.channel(k).occupancy_version >= s.channel(k).occupancy_version
            && after.channel(k).presence_revision >= s.channel(k).presence_revision by {
        if k == channel && s.channels.contains_key(channel) {
            assert(after.channels[k] == spec_detach(s.channels[channel], actor)->Ok_0);
        } else if s.channels.contains_key(channel) {
            assert(after.channels == s.channels.insert(channel, spec_detach(s.channels[channel], actor)->Ok_0));
        }
    }
}

/// An attach does not lower any channel's versions.
pub proof fn lemma_attach_keeps_versions(s: StoreView, command: &AttachCommand)
    requires
        spec_attach(s, command) is Ok,
    ensures
        versions_kept(s, (spec_attach(s, command)->Ok_0).0),
{
    let after = (spec_attach(s, command)->Ok_0).0;
    assert forall|k: ChannelName| #![trigger after.channel(k)]
        after.channel(k).occupancy_version >= s.channel(k).occupancy_version
            && after.channel(k).presence_revision >= s.channel(k).presence_revision by {
        if k != command.channel@ {
            assert(after.channels == s.channels.insert(command.channel@, after.channels[command.channel@]));
        }
    }
}

/// A detach does not lower any channel's versions.
pub proof fn lemma_detach_keeps_versions(s: StoreView, command: &DetachCommand)
    requires
        spec_detach_channel(s, command) is Ok,
    ensures
        versions_kept(s, (spec_detach_channel(s, command)->Ok_0).0),
{
    lemma_detach_step_versions(s, &command.actor, command.channel@);
}

/// A Presence command does not lower any channel's versions.
pub proof fn lemma_apply_presence_keeps_versions(s: StoreView, command: &PresenceBatchCommand)
    requires
        spec_apply_presence(s, command) is Ok,
    ensures
        versions_kept(s, (spec_apply_presence(s, command)->Ok_0).0),
{
    let after = (spec_apply_presence(s, command)->Ok_0).0;
    let channel = command.channel@;
    assert forall|k: ChannelName| #![trigger after.channel(k)]
        after.channel(k).occupancy_version >= s.channel(k).occupancy_version
            && after.channel(k).presence_revision >= s.channel(k).presence_revision by {
        if journal_lookup(s, command) is Miss && s.channels.contains_key(channel) {
            let n = (spec_apply_presence_batch(s.channels[channel], command)->Ok_0).0;
            assert(after.channels == s.channels.insert(channel, n));
        }
    }
}

/// Detaching from every channel of `order`, none of which fails, does not
/// lower any channel's versions.
pub proof fn lemma_detach_all_versions(s: StoreView, actor: &ConnectionActor, order: Seq<ChannelName>)
    requires
        order.no_duplicates(),
        forall|j: int| 0 <= j < order.len() ==> detach_error(s, actor, #[trigger] order[j]) is None,
    ensures
        versions_kept(s, detach_all(s, actor, order)),
    decreases order.len(),
{
    if order.len() > 0 {
        let rest = order.drop_last();
        let last = order.last();
        assert forall|j: int| 0 <= j < rest.len() implies detach_error(s, actor, #[trigger] rest[j]) is None by {
            assert(rest[j] == order[j]);
        }
        lemma_detach_all_versions(s, actor, rest);
        let mid = detach_all(s, actor, rest);
        assert(!rest.contains(last)) by {
            if rest.contains(last) {
                let j = choose|j: int| 0 <= j < rest.len() && rest[j] == last;
                assert(order[j] == order[order.len() - 1]);
            }
        }
        crate::store::lemma_detach_all_frame(s, actor, rest, last);
        assert(detach_error(s, actor, order[order.len() - 1]) is None);
        assert(detach_error(mid, actor, last) == detach_error(s, actor, last));
        lemma_detach_step_versions(mid, actor, last);
        let after = detach_all(s, actor, order);
        assert forall|k: ChannelName| #![trigger after.channel(k)]
            after.channel(k).occupancy_version >= s.channel(k).occupancy_version
                && after.channel(k).presence_revision >= s.channel(k).presence_revision by {
            assert(after.channel(k).occupancy_version >= mid.channel(k).occupancy_version);
            assert(mid.channel(k).occupancy_version >= s.channel(k).occupancy_version);
        }
    }
}

/// A disconnect does not lower any channel's versions.
pub proof fn lemma_disconnect_keeps_versions(s: StoreView, command: &DisconnectConnectionCommand)
    requires
        s.wf(),
        spec_disconnect(s, command) is Ok,
    ensures
        versions_kept(s, (spec_disconnect(s, command)->Ok_0).0),
{
    let connection = connection_name(&command.actor);
    let set = s.channels_of(connection);
    let order = by_channel_name(set);
    assert(set.finite()) by {
        if !s.connection_channels.contains_key(connection) {
            assert(set =~= Set::<ChannelName>::empty());
        }
    }
    assert forall|x: ChannelName, y: ChannelName|
        set.contains(x) && set.contains(y) && x.1 == y.1 implies x == y by {
        assert(x.0 == connection.0);
        assert(y.0 == connection.0);
    }
    crate::store::lemma_by_channel_name_exists(set);
    assert forall|j: int| 0 <= j < order.len() implies detach_error(s, &command.actor, #[trigger] order[j]) is None by {
        if detach_error(s, &command.actor, order[j]) is Some {
            lemma_first_failure(s, &command.actor, order, j);
        }
    }
    assert(order.no_duplicates()) by {
        assert forall|i: int, j: int| 0 <= i < order.len() && 0 <= j < order.len() && i != j implies order[i] != order[j] by {
            if i < j {
                assert(text_lt(name_key()(order[i]), name_key()(order[j])));
                lemma_text_lt_asymmetric(order[i].1, order[i].1);
            } else {
                assert(text_lt(name_key()(order[j]), name_key()(order[i])));
                lemma_text_lt_asymmetric(order[j].1, order[j].1);
            }
        }
    }
    lemma_detach_all_versions(s, &command.actor, order);
    let after = (spec_disconnect(s, command)->Ok_0).0;
    let detached = detach_all(s, &command.actor, order);
    assert(after.channels == detached.channels);
    assert forall|k: ChannelName| #![trigger after.channel(k)]
        after.channel(k).occupancy_version >= s.channel(k).occupancy_version
            && after.channel(k).presence_revision >= s.channel(k).presence_revision by {
        assert(after.channel(k) == detached.channel(k));
        assert(detached.channel(k).occupancy_version >= s.channel(k).occupancy_version);
    }
}

/// A batch of Presence actions is committed whole with exactly one new
/// revision, which its event carries, or refused without any change.
pub proof fn lemma_batch_all_or_nothing(s: ChannelStateView, command: &PresenceBatchCommand)
    requires
        spec_apply_presence_batch(s, command) is Ok,
    ensures
        ({
            let (after, outcome) = spec_apply_presence_batch(s, command)->Ok_0;
            match outcome {
                OutcomeView::Rejected(_) => after == s,
                OutcomeView::Committed(transition) => {
                    &&& after.presence_revision == s.presence_revision + 1
                    &&& transition.presence_revision() == Some(after.presence_revision)
                    &&& after.attachments == s.attachments
                },
            }
        }),
{
}
/// A stopped Redis store refuses every request it checks: the run check
/// answers with a conflict, and an attach, a detach or a Presence batch is
/// refused too, whatever the request.
pub proof fn lemma_stopped_store_refuses(
    store: RedisStoreView,
    accounting: AttachmentTracking,
    modes: ChannelModes,
    channel_application: Seq<char>,
    actor_application: Seq<char>,
    actor_run: (Seq<char>, u128, u64),
)
    requires
        !store.available,
    ensures
        generation_refusal(store, actor_run) matches Some(v) && v.0 == StoreErrorKind::Conflict,
        actor_refusal(store, channel_application, actor_application, actor_run) is Some,
        attach_refusal(store, accounting, modes, channel_application, actor_application, actor_run) is Some,
{
}
/// Whether a connection holds an attachment in a channel of its application.
pub open spec fn attached_in(s: StoreView, connection: ConnectionName, channel: ChannelName) -> bool {
    channel.0 == connection.0 && attachment_slot(s.channel(channel).attachments, connection.1) is Some
}

/// The index of each connection's channels lists exactly the channels of its
/// application where it holds an attachment.
pub open spec fn index_matches(s: StoreView) -> bool {
    forall|connection: ConnectionName, channel: ChannelName|
        #![trigger s.channels_of(connection).contains(channel)]
        #![trigger attached_in(s, connection, channel)]
        s.channels_of(connection).contains(channel) <==> attached_in(s, connection, channel)
}

/// After a save, a connection holds an attachment exactly when it held one
/// before or it is the saved one's.
proof fn lemma_slot_after_save(s: ChannelStateView, a: AttachmentView, x: Seq<char>)
    ensures
        attachment_slot(saved_state(s, a).attachments, x) is Some <==> (attachment_slot(
            s.attachments,
            x,
        ) is Some || x == a.connection_id),
{
    let atts = s.attachments;
    let after = saved_state(s, a).attachments;
    match attachment_slot(atts, a.connection_id) {
        Some(i) => {
            assert(0 <= i < atts.len() && atts[i].connection_id == a.connection_id);
            assert(after == atts.update(i, a));
            if x == a.connection_id {
                assert(after[i].connection_id == x);
            } else {
                if attachment_slot(atts, x) is Some {
                    let j = choose|j: int| 0 <= j < atts.len() && atts[j].connection_id == x;
                    assert(after[j].connection_id == x);
                }
                if attachment_slot(after, x) is Some {
                    let j = choose|j: int| 0 <= j < after.len() && after[j].connection_id == x;
                    assert(j != i);
                    assert(atts[j].connection_id == x);
                }
            }
        },
        None => {
            assert(after == atts.push(a));
            if x == a.connection_id {
                assert(after[atts.len() as int].connection_id == x);
            } else {
                if attachment_slot(atts, x) is Some {
                    let j = choose|j: int| 0 <= j < atts.len() && atts[j].connection_id == x;
                    assert(after[j].connection_id == x);
                }
                if attachment_slot(after, x) is Some {
                    let j = choose|j: int| 0 <= j < after.len() && after[j].connection_id == x;
                    assert(j != atts.len());
                    assert(atts[j].connection_id == x);
                }
            }
        },
    }
}

/// After a detach, a connection holds an attachment exactly when it held one
/// before and it is not the detached one.
proof fn lemma_slot_after_detach(s: ChannelStateView, connection: Seq<char>, x: Seq<char>)
    requires
        unique_connections(s.attachments),
        attachment_slot(s.attachments, connection) is Some,
    ensures
        attachment_slot(detached_state(s, connection).attachments, x) is Some <==> (attachment_slot(
            s.attachments,
            x,
        ) is Some && x != connection),
{
    let atts = s.attachments;
    let i = attachment_slot(atts, connection)->0;
    assert(0 <= i < atts.len() && atts[i].connection_id == connection);
    let after = detached_state(s, connection).attachments;
    assert(after == atts.remove(i));
    if attachment_slot(atts, x) is Some && x != connection {
        let j = choose|j: int| 0 <= j < atts.len() && atts[j].connection_id == x;
        assert(j != i);
        if j < i {
            assert(after[j].connection_id == x);
        } else {
            assert(after[j - 1].connection_id == x);
        }
    }
    if attachment_slot(after, x) is Some {
        let j = choose|j: int| 0 <= j < after.len() && after[j].connection_id == x;
        let k = if j < i {
            j
        } else {
            j + 1
        };
        assert(atts[k].connection_id == x);
        assert(k != i);
        if x == connection {
            assert(atts[k].connection_id == atts[i].connection_id);
        }
    }
}

/// A Presence batch leaves the attachments of its channel as they were.
proof fn lemma_batch_keeps_attachments(s: ChannelStateView, command: &PresenceBatchCommand)
    requires
        spec_apply_presence_batch(s, command) is Ok,
    ensures
        (spec_apply_presence_batch(s, command)->Ok_0).0.attachments == s.attachments,
{
}

/// The store before any operation has a matching index.
pub proof fn lemma_initial_index(ledger_policy: PresenceLedgerPolicy)
    ensures
        index_matches(StoreView::initial(ledger_policy)),
{
    let s = StoreView::initial(ledger_policy);
    assert forall|connection: ConnectionName, channel: ChannelName|
        #![trigger s.channels_of(connection).contains(channel)]
        #![trigger attached_in(s, connection, channel)]
        s.channels_of(connection).contains(channel) <==> attached_in(s, connection, channel) by {
        assert(s.channel(channel) == ChannelStateView::empty());
    }
}

/// An attach keeps the index of channels by connection matching the
/// attachments.
pub proof fn lemma_attach_keeps_index(s: StoreView, command: &AttachCommand)
    requires
        index_matches(s),
        spec_attach(s, command) is Ok,
    ensures
        index_matches((spec_attach(s, command)->Ok_0).0),
{
    let ch = command.channel@;
    let conn = connection_name(&command.actor);
    let a = command.spec_attachment();
    let n = saved_state(s.channel(ch), a);
    let t = (spec_attach(s, command)->Ok_0).0;
    assert(t.channels == s.channels.insert(ch, n));
    assert forall|c: ConnectionName, k: ChannelName|
        #![trigger t.channels_of(c).contains(k)]
        #![trigger attached_in(t, c, k)]
        t.channels_of(c).contains(k) <==> attached_in(t, c, k) by {
        assert(s.channels_of(c).contains(k) <==> attached_in(s, c, k));
        lemma_slot_after_save(s.channel(ch), a, c.1);
        if c == conn {
            assert(t.channels_of(c) == s.channels_of(c).insert(ch));
        } else {
            assert(t.channels_of(c) == s.channels_of(c));
        }
        if k == ch {
            assert(t.channel(k) == n);
        } else {
            assert(t.channel(k) == s.channel(k));
        }
    }
}

/// Detaching from one channel, where that detach is not refused, keeps the
/// index matching the attachments.
proof fn lemma_step_keeps_index(s: StoreView, actor: &ConnectionActor, ch: ChannelName)
    requires
        index_matches(s),
        s.channels.contains_key(ch) ==> s.channels[ch].wf(),
        detach_error(s, actor, ch) is None,
    ensures
        index_matches(detach_step(s, actor, ch)),
{
    let conn = connection_name(actor);
    let t = detach_step(s, actor, ch);
    assert(ch.0 == conn.0);
    assert forall|c: ConnectionName, k: ChannelName|
        #![trigger t.channels_of(c).contains(k)]
        #![trigger attached_in(t, c, k)]
        t.channels_of(c).contains(k) <==> attached_in(t, c, k) by {
        assert(s.channels_of(c).contains(k) <==> attached_in(s, c, k));
        assert(s.channels_of(conn).contains(ch) <==> attached_in(s, conn, ch));
        if c == conn {
            assert(t.channels_of(c) =~= s.channels_of(c).remove(ch));
        } else {
            assert(t.channels_of(c) == s.channels_of(c));
        }
        if s.channels.contains_key(ch) {
            let before = s.channels[ch];
            if attachment_slot(before.attachments, conn.1) is Some {
                lemma_slot_after_detach(before, conn.1, c.1);
            }
            if k == ch {
                assert(t.channel(k) == spec_detach(before, actor)->Ok_0);
            } else {
                assert(t.channel(k) == s.channel(k));
            }
        } else {
            assert(t.channel(k) == s.channel(k));
            assert(s.channel(ch) == ChannelStateView::empty());
        }
    }
}

/// A detach keeps the index of channels by connection matching the
/// attachments.
pub proof fn lemma_detach_keeps_index(s: StoreView, command: &DetachCommand)
    requires
        s.wf(),
        index_matches(s),
        spec_detach_channel(s, command) is Ok,
    ensures
        index_matches((spec_detach_channel(s, command)->Ok_0).0),
{
    lemma_step_keeps_index(s, &command.actor, command.channel@);
}

/// Detaching from every channel of `order`, none of which is refused, keeps
/// the index matching the attachments.
proof fn lemma_detach_all_index(s: StoreView, actor: &ConnectionActor, order: Seq<ChannelName>)
    requires
        s.wf(),
        index_matches(s),
        order.no_duplicates(),
        forall|j: int| 0 <= j < order.len() ==> detach_error(s, actor, #[trigger] order[j]) is None,
    ensures
        index_matches(detach_all(s, actor, order)),
    decreases order.len(),
{
    if order.len() > 0 {
        let rest = order.drop_last();
        let last = order.last();
        assert forall|j: int| 0 <= j < rest.len() implies detach_error(s, actor, #[trigger] rest[j]) is None by {
            assert(rest[j] == order[j]);
        }
        assert(rest.no_duplicates());
        lemma_detach_all_index(s, actor, rest);
        assert(!rest.contains(last)) by {
            if rest.contains(last) {
                let j = choose|j: int| 0 <= j < rest.len() && rest[j] == last;
                assert(order[j] == order[order.len() - 1]);
            }
        }
        crate::store::lemma_detach_all_frame(s, actor, rest, last);
        let mid = detach_all(s, actor, rest);
        assert(detach_error(s, actor, order[order.len() - 1]) is None);
        assert(detach_error(mid, actor, last) == detach_error(s, actor, last));
        lemma_step_keeps_index(mid, actor, last);
    }
}

/// The order in which a disconnect detaches: each channel of the connection
/// once, none of them refused.
proof fn lemma_disconnect_order(s: StoreView, command: &DisconnectConnectionCommand)
    requires
        s.wf(),
        spec_disconnect(s, command) is Ok,
    ensures
        ({
            let set = s.channels_of(connection_name(&command.actor));
            let order = by_channel_name(set);
            &&& order.no_duplicates()
            &&& order.to_set() == set
            &&& forall|j: int|
                0 <= j < order.len() ==> detach_error(s, &command.actor, #[trigger] order[j]) is None
        }),
{
    let connection = connection_name(&command.actor);
    let set = s.channels_of(connection);
    let order = by_channel_name(set);
    assert(set.finite()) by {
        if !s.connection_channels.contains_key(connection) {
            assert(set =~= Set::<ChannelName>::empty());
        }
    }
    assert forall|x: ChannelName, y: ChannelName|
        set.contains(x) && set.contains(y) && x.1 == y.1 implies x == y by {
        assert(x.0 == connection.0);
        assert(y.0 == connection.0);
    }
    crate::store::lemma_by_channel_name_exists(set);
    assert(strictly_sorted(order, name_key()) && order.to_set() == set);
    assert forall|j: int| 0 <= j < order.len() implies detach_error(s, &command.actor, #[trigger] order[j]) is None by {
        if detach_error(s, &command.actor, order[j]) is Some {
            lemma_first_failure(s, &command.actor, order, j);
        }
    }
    assert(order.no_duplicates()) by {
        assert forall|i: int, j: int| 0 <= i < order.len() && 0 <= j < order.len() && i != j implies order[i] != order[j] by {
            if i < j {
                assert(text_lt(name_key()(order[i]), name_key()(order[j])));
                lemma_text_lt_asymmetric(order[i].1, order[i].1);
            } else {
                assert(text_lt(name_key()(order[j]), name_key()(order[i])));
                lemma_text_lt_asymmetric(order[j].1, order[j].1);
            }
        }
    }
}

/// A disconnect keeps the index of channels by connection matching the
/// attachments.
pub proof fn lemma_disconnect_keeps_index(s: StoreView, command: &DisconnectConnectionCommand)
    requires
        s.wf(),
        index_matches(s),
        spec_disconnect(s, command) is Ok,
    ensures
        index_matches((spec_disconnect(s, command)->Ok_0).0),
{
    let conn = connection_name(&command.actor);
    let set = s.channels_of(conn);
    let order = by_channel_name(set);
    lemma_disconnect_order(s, command);
    lemma_detach_all_index(s, &command.actor, order);
    lemma_detach_all_frees(s, &command.actor, order);
    let mid = detach_all(s, &command.actor, order);
    let t = (spec_disconnect(s, command)->Ok_0).0;
    assert(t.channels == mid.channels);
    assert forall|c: ConnectionName, k: ChannelName|
        #![trigger t.channels_of(c).contains(k)]
        #![trigger attached_in(t, c, k)]
        t.channels_of(c).contains(k) <==> attached_in(t, c, k) by {
        assert(t.channel(k) == mid.channel(k));
        assert(mid.channels_of(c).contains(k) <==> attached_in(mid, c, k));
        if c == conn {
            assert(t.channels_of(c) =~= Set::<ChannelName>::empty());
            if order.contains(k) {
                let j = choose|j: int| 0 <= j < order.len() && order[j] == k;
                assert(free_of(mid.channel(order[j]), command.actor.connection_id@));
            } else {
                assert(!order.to_set().contains(k));
                assert(s.channels_of(conn).contains(k) <==> attached_in(s, conn, k));
                crate::store::lemma_detach_all_frame(s, &command.actor, order, k);
                assert(mid.channel(k) == s.channel(k));
            }
        } else {
            assert(t.channels_of(c) == mid.channels_of(c));
        }
    }
}

/// A Presence command keeps the index of channels by connection matching
/// the attachments.
pub proof fn lemma_apply_presence_keeps_index(s: StoreView, command: &PresenceBatchCommand)
    requires
        index_matches(s),
        spec_apply_presence(s, command) is Ok,
    ensures
        index_matches((spec_apply_presence(s, command)->Ok_0).0),
{
    let ch = command.channel@;
    let t = (spec_apply_presence(s, command)->Ok_0).0;
    if journal_lookup(s, command) == LookupView::Miss && s.channels.contains_key(ch) {
        lemma_batch_keeps_attachments(s.channels[ch], command);
    }
    assert forall|c: ConnectionName, k: ChannelName|
        #![trigger t.channels_of(c).contains(k)]
        #![trigger attached_in(t, c, k)]
        t.channels_of(c).contains(k) <==> attached_in(t, c, k) by {
        assert(s.channels_of(c).contains(k) <==> attached_in(s, c, k));
        assert(t.connection_channels == s.connection_channels);
        assert(t.channel(k).attachments == s.channel(k).attachments);
    }
}

/// Sweeping journals keeps the index of channels by connection matching the
/// attachments.
pub proof fn lemma_sweep_keeps_index(s: StoreView, now: Timestamp)
    requires
        index_matches(s),
    ensures
        index_matches(swept(s, now)),
{
    let t = swept(s, now);
    assert forall|c: ConnectionName, k: ChannelName|
        #![trigger t.channels_of(c).contains(k)]
        #![trigger attached_in(t, c, k)]
        t.channels_of(c).contains(k) <==> attached_in(t, c, k) by {
        assert(s.channels_of(c).contains(k) <==> attached_in(s, c, k));
        assert(t.channel(k) == s.channel(k));
    }
}

/// A disconnect keeps the connection's journal and closes it: the journal
/// still holds every operation it held.
///
/// Left out: a journal closed by an earlier disconnect, which this
/// disconnect's sweep may remove.
pub proof fn lemma_disconnect_keeps_journal(s: StoreView, command: &DisconnectConnectionCommand)
    requires
        s.wf(),
        spec_disconnect(s, command) is Ok,
        !s.is_closed(connection_name(&command.actor)),
    ensures
        ({
            let after = (spec_disconnect(s, command)->Ok_0).0;
            let connection = connection_name(&command.actor);
            &&& after.is_closed(connection)
            &&& after.ledgers[connection].records == ledger_or_fresh(s, connection).records
        }),
{
    let connection = connection_name(&command.actor);
    let order = by_channel_name(s.channels_of(connection));
    lemma_detach_all_keeps_ledgers(s, &command.actor, order);
    let after = (spec_disconnect(s, command)->Ok_0).0;
    assert(after.ledgers.contains_key(connection));
}

/// A connection whose journal is closed gets, for a Presence command, the
/// outcome the journal holds for its serial, marked as replayed; a different
/// command under that serial is refused as a conflicting replay, and a serial
/// the journal does not hold is refused as coming from a closed connection.
/// Nothing changes either way.
pub proof fn lemma_closed_journal_answers(s: StoreView, command: &PresenceBatchCommand)
    requires
        s.is_closed(connection_name(&command.actor.connection_actor)),
        command.channel.application_id@ == command.actor.connection_actor.application_id@,
    ensures
        ({
            let journal = s.ledgers[connection_name(&command.actor.connection_actor)];
            spec_apply_presence(s, command) == Ok::<(StoreView, ReceiptView), (StoreErrorKind, Seq<char>)>(
                (
                    s,
                    match record_slot(journal.records, command.msg_serial) {
                        Some(i) => if journal.records[i].fingerprint == command.request_fingerprint@ {
                            ReceiptView { outcome: journal.records[i].outcome, replayed: true }
                        } else {
                            ReceiptView {
                                outcome: OutcomeView::Rejected(RejectionView::ConflictingReplay),
                                replayed: false,
                            }
                        },
                        None => ReceiptView {
                            outcome: OutcomeView::Rejected(RejectionView::ConnectionClosed),
                            replayed: false,
                        },
                    },
                ),
            )
        }),
{
}


/// A `LEAVE` of a present member removes that member and publishes one
/// `Leave` for it, which carries the item's data when the item has some and
/// otherwise the data the member had.
pub proof fn lemma_leave_carries_member_data(
    command: &PresenceBatchCommand,
    revision: u64,
    index: nat,
    state: PlanState,
    slot: int,
)
    requires
        index < command.items@.len(),
        0 <= slot < state.members.len(),
        unique_clients(state.members),
        command.items@[index as int]@.action == PresenceMutationAction::Leave,
        command.items@[index as int]@.client_id == Some(state.members[slot].client_id),
        command.actor.client_id_policy@.permits(state.members[slot].client_id),
    ensures
        plan_step(command, revision, index, state) is Ok,
        ({
            let next = plan_step(command, revision, index, state)->Ok_0;
            let item = command.items@[index as int]@;
            let change = next.changes.last();
            &&& next.members == state.members.remove(slot)
            &&& next.changes.drop_last() == state.changes
            &&& change.action == PresenceChangeAction::Leave
            &&& change.client_id == state.members[slot].client_id
            &&& change.connection_id == command.actor.connection_actor.connection_id@
            &&& item.data is Some ==> change.data == item.data
            &&& item.data is None ==> change.data == state.members[slot].data
        }),
{
    let client = state.members[slot].client_id;
    assert(exists|i: int| 0 <= i < state.members.len() && state.members[i].client_id == client);
    let found = member_slot(state.members, client)->0;
    assert(found == slot) by {
        if found != slot {
            assert(state.members[found].client_id != state.members[slot].client_id);
        }
    }
    let next = plan_step(command, revision, index, state)->Ok_0;
    assert(next.changes.drop_last() =~= state.changes);
}

/// An `ENTER` publishes `Enter` exactly when no member of its client
/// identifier is present before it, and `Update` exactly when one is; it adds
/// a member only in the first case.
pub proof fn lemma_enter_enters_only_absent_members(
    command: &PresenceBatchCommand,
    revision: u64,
    index: nat,
    state: PlanState,
    client_id: Seq<char>,
)
    requires
        index < command.items@.len(),
        command.items@[index as int]@.action == PresenceMutationAction::Enter,
        command.items@[index as int]@.client_id == Some(client_id),
        command.actor.client_id_policy@.permits(client_id),
    ensures
        plan_step(command, revision, index, state) is Ok,
        ({
            let next = plan_step(command, revision, index, state)->Ok_0;
            let present = exists|i: int|
                0 <= i < state.members.len() && (#[trigger] state.members[i]).client_id == client_id;
            let change = next.changes.last();
            &&& next.changes.len() == state.changes.len() + 1
            &&& (change.action == PresenceChangeAction::Enter <==> !present)
            &&& (change.action == PresenceChangeAction::Update <==> present)
            &&& change.client_id == client_id
            &&& change.data == command.items@[index as int]@.data
            &&& next.members.len() == state.members.len() + if present {
                0int
            } else {
                1int
            }
            &&& exists|j: int|
                0 <= j < next.members.len() && (#[trigger] next.members[j]).client_id == client_id
                    && next.members[j].data == command.items@[index as int]@.data
        }),
{
    let next = plan_step(command, revision, index, state)->Ok_0;
    let slot = member_slot(state.members, client_id);
    match slot {
        Some(i) => {
            assert(next.members[i].client_id == client_id);
        },
        None => {
            assert(next.members[state.members.len() as int].client_id == client_id);
        },
    }
}

/// An `UPDATE` of a present member publishes an `Update` with the item's data
/// and rewrites that member with it; an `UPDATE` or `LEAVE` of a client
/// identifier with no member is refused as an invalid member state, before
/// any change.
pub proof fn lemma_update_and_leave_need_a_member(
    command: &PresenceBatchCommand,
    revision: u64,
    index: nat,
    state: PlanState,
    client_id: Seq<char>,
)
    requires
        index < command.items@.len(),
        command.items@[index as int]@.client_id == Some(client_id),
        command.actor.client_id_policy@.permits(client_id),
        command.items@[index as int]@.action != PresenceMutationAction::Enter,
    ensures
        ({
            let item = command.items@[index as int]@;
            let present = exists|i: int|
                0 <= i < state.members.len() && (#[trigger] state.members[i]).client_id == client_id;
            &&& !present ==> plan_step(command, revision, index, state) == Err::<
                PlanState,
                RejectionView,
            >(RejectionView::InvalidMemberState)
            &&& present ==> plan_step(command, revision, index, state) is Ok
            &&& present && item.action == PresenceMutationAction::Update ==> {
                let next = plan_step(command, revision, index, state)->Ok_0;
                &&& next.changes.last().action == PresenceChangeAction::Update
                &&& next.changes.last().client_id == client_id
                &&& next.changes.last().data == item.data
                &&& next.members.len() == state.members.len()
                &&& exists|j: int|
                    0 <= j < next.members.len() && (#[trigger] next.members[j]).client_id == client_id
                        && next.members[j].data == item.data
            }
        }),
{
    let slot = member_slot(state.members, client_id);
    if slot is Some {
        let next = plan_step(command, revision, index, state)->Ok_0;
        if command.items@[index as int]@.action == PresenceMutationAction::Update {
            assert(next.members[slot->0].client_id == client_id);
        }
    }
}

/// Each server-generated `Leave` of an event (a detach, a disconnect or a
/// save that narrows the modes) stands for the removed member at the same
/// place: same connection, client identifier and data.
pub proof fn lemma_server_leaves_carry_member_data(
    event_id: u128,
    channel: (Seq<char>, Seq<char>),
    origin: (Seq<char>, u128, u64),
    presence_revision: Option<u64>,
    occupancy_version: u64,
    removed: Seq<MemberView>,
    occupancy: crate::protocol::OccupancyChange,
    occurred_at: Timestamp,
)
    ensures
        ({
            let changes = server_event(
                event_id,
                channel,
                origin,
                presence_revision,
                occupancy_version,
                removed,
                occupancy,
                occurred_at,
            ).change.member_changes;
            &&& changes.len() == removed.len()
            &&& forall|k: int|
                0 <= k < changes.len() ==> {
                    &&& (#[trigger] changes[k]).action == PresenceChangeAction::Leave
                    &&& changes[k].connection_id == removed[k].connection_id
                    &&& changes[k].client_id == removed[k].client_id
                    &&& changes[k].data == removed[k].data
                }
        }),
{
}

/// The number of attachments whose modes satisfy `holds` is the number
/// counted for a mode that `holds` decides.
proof fn lemma_count_mode_filter(
    attachments: Seq<AttachmentView>,
    mode: crate::protocol::ChannelMode,
    holds: spec_fn(AttachmentView) -> bool,
)
    requires
        forall|a: AttachmentView| #[trigger] holds(a) == a.effective_modes.holds(mode),
    ensures
        count_mode(attachments, mode) == attachments.filter(holds).len(),
    decreases attachments.len(),
{
    if attachments.len() > 0 {
        let rest = attachments.drop_last();
        let last = attachments.last();
        lemma_count_mode_filter(rest, mode, holds);
        assert(holds(last) == last.effective_modes.holds(mode));
        assert(attachments =~= rest.push(last));
        rest.lemma_filter_len_push(holds, last);
    }
}

/// A channel's Occupancy counts its attachments, those that publish, those
/// that subscribe, those in Presence, those that subscribe to Presence, and
/// its Presence members.
pub proof fn lemma_occupancy_counts(s: ChannelStateView)
    ensures
        s.occupancy().connections == s.attachments.len() as u64,
        s.occupancy().publishers == s.attachments.filter(
            |a: AttachmentView| a.effective_modes.publish,
        ).len() as u64,
        s.occupancy().subscribers == s.attachments.filter(
            |a: AttachmentView| a.effective_modes.subscribe,
        ).len() as u64,
        s.occupancy().presence_connections == s.attachments.filter(
            |a: AttachmentView| a.effective_modes.presence,
        ).len() as u64,
        s.occupancy().presence_subscribers == s.attachments.filter(
            |a: AttachmentView| a.effective_modes.presence_subscribe,
        ).len() as u64,
        s.occupancy().presence_members == s.members.len() as u64,
{
    lemma_count_mode_filter(
        s.attachments,
        crate::protocol::ChannelMode::Publish,
        |a: AttachmentView| a.effective_modes.publish,
    );
    lemma_count_mode_filter(
        s.attachments,
        crate::protocol::ChannelMode::Subscribe,
        |a: AttachmentView| a.effective_modes.subscribe,
    );
    lemma_count_mode_filter(
        s.attachments,
        crate::protocol::ChannelMode::Presence,
        |a: AttachmentView| a.effective_modes.presence,
    );
    lemma_count_mode_filter(
        s.attachments,
        crate::protocol::ChannelMode::PresenceSubscribe,
        |a: AttachmentView| a.effective_modes.presence_subscribe,
    );
}

/// The code the Presence script writes for a refusal: the refusal's name in
/// camel case.
pub open spec fn presence_rejection_code(rejection: RejectionView) -> Seq<char> {
    match rejection {
        RejectionView::NotAttached => "notAttached"@,
        RejectionView::PresenceModeNotEnabled => "presenceModeNotEnabled"@,
        RejectionView::UnidentifiedConnection => "unidentifiedConnection"@,
        RejectionView::ClientIdNotAllowed { .. } => "clientIdNotAllowed"@,
        RejectionView::InvalidMemberState => "invalidMemberState"@,
        RejectionView::ConflictingReplay => "conflictingReplay"@,
        RejectionView::StaleOperation => "staleOperation"@,
        RejectionView::ConnectionClosed => "connectionClosed"@,
    }
}

/// Reading a Presence refusal undoes writing it: a reply whose code is the
/// name of a refusal (with the refused client identifier, for a refused
/// client identifier) is read as that refusal.
pub proof fn lemma_presence_rejection_round_trip(
    rejection: RejectionView,
    code: crate::reply::ScriptValue,
    client_id: Option<crate::reply::ScriptValue>,
)
    requires
        crate::reply::reply_text(code) == Some(presence_rejection_code(rejection)),
        rejection matches RejectionView::ClientIdNotAllowed { client_id: id } ==> (client_id matches Some(
            v,
        ) && crate::reply::reply_text(v) == Some(id)),
    ensures
        crate::replies::spec_presence_rejection(
            presence_rejection_code(rejection),
            match rejection {
                RejectionView::ClientIdNotAllowed { client_id: id } => Some(id),
                _ => None,
            },
        ) == Some(rejection),
        crate::replies::reply_presence_rejection(code, client_id) == Some(rejection),
{
    reveal_strlit("notAttached");
    reveal_strlit("presenceModeNotEnabled");
    reveal_strlit("unidentifiedConnection");
    reveal_strlit("clientIdNotAllowed");
    reveal_strlit("invalidMemberState");
    reveal_strlit("conflictingReplay");
    reveal_strlit("staleOperation");
    reveal_strlit("connectionClosed");
    let codes = seq![
        "notAttached"@,
        "presenceModeNotEnabled"@,
        "unidentifiedConnection"@,
        "clientIdNotAllowed"@,
        "invalidMemberState"@,
        "conflictingReplay"@,
        "staleOperation"@,
        "connectionClosed"@,
    ];
    assert forall|i: int, j: int| 0 <= i < j < 8 implies #[trigger] codes[i] != #[trigger] codes[j] by {
        if codes[i].len() == codes[j].len() {
            assert(codes[i][0] != codes[j][0] || codes[i][1] != codes[j][1] || codes[i][2] != codes[j][2]);
        }
    }
    assert(presence_rejection_code(rejection) == codes[0] || presence_rejection_code(rejection) == codes[1]
        || presence_rejection_code(rejection) == codes[2] || presence_rejection_code(rejection) == codes[3]
        || presence_rejection_code(rejection) == codes[4] || presence_rejection_code(rejection) == codes[5]
        || presence_rejection_code(rejection) == codes[6] || presence_rejection_code(rejection) == codes[7]);
}

} // verus!
