use vstd::prelude::*;

use crate::ids::Timestamp;
use crate::text::same_text;
use crate::transition::{OutcomeView, PresenceMutationOutcome};

verus! {

/// A processed Presence command: the digest of the original request and the
/// outcome to return when the command is repeated.
#[derive(Debug)]
pub struct PresenceOperationRecord {
    pub request_fingerprint: String,
    pub outcome: PresenceMutationOutcome,
}

impl PresenceOperationRecord {
    pub fn new(request_fingerprint: String, outcome: PresenceMutationOutcome) -> (r: Self)
        ensures
            r.request_fingerprint == request_fingerprint,
            r.outcome@ == outcome@,
    {
        PresenceOperationRecord { request_fingerprint, outcome }
    }
}

/// A stored operation: its serial, fingerprint and outcome.
pub struct RecordView {
    pub serial: u64,
    pub fingerprint: Seq<char>,
    pub outcome: OutcomeView,
}

/// What the journal knows of an operation.
#[derive(Debug)]
pub enum LedgerLookup {
    /// The same operation was processed: its stored outcome.
    Replay(PresenceMutationOutcome),
    /// Another operation was processed under this serial.
    Conflict,
    /// The serial lies below the remembered window.
    Evicted,
    /// The connection is closed and the operation is unknown.
    Closed,
    /// The operation is new.
    Miss,
}

/// Mathematical content of [`LedgerLookup`].
pub enum LookupView {
    Replay(OutcomeView),
    Conflict,
    Evicted,
    Closed,
    Miss,
}

impl View for LedgerLookup {
    type V = LookupView;

    open spec fn view(&self) -> LookupView {
        match self {
            LedgerLookup::Replay(outcome) => LookupView::Replay(outcome@),
            LedgerLookup::Conflict => LookupView::Conflict,
            LedgerLookup::Evicted => LookupView::Evicted,
            LedgerLookup::Closed => LookupView::Closed,
            LedgerLookup::Miss => LookupView::Miss,
        }
    }
}

/// Mathematical content of a journal.
pub struct LedgerView {
    pub capacity: nat,
    pub records: Seq<RecordView>,
    /// The highest serial dropped from the window.
    pub evicted_through: Option<u64>,
    /// When the connection was closed.
    pub closed_at: Option<Timestamp>,
}

/// Serials are distinct.
pub open spec fn unique_serials(records: Seq<RecordView>) -> bool {
    forall|i: int, j: int|
        0 <= i < records.len() && 0 <= j < records.len() && i != j ==> #[trigger] records[i].serial
            != #[trigger] records[j].serial
}

/// The position of the record of `serial`, if there is one.
pub open spec fn record_slot(records: Seq<RecordView>, serial: u64) -> Option<int> {
    if exists|i: int| 0 <= i < records.len() && records[i].serial == serial {
        Some(choose|i: int| 0 <= i < records.len() && records[i].serial == serial)
    } else {
        None
    }
}

/// The position of the smallest serial.
pub open spec fn oldest_slot(records: Seq<RecordView>) -> int {
    choose|i: int|
        #![trigger records[i]]
        0 <= i < records.len() && forall|j: int|
            0 <= j < records.len() ==> records[i].serial <= #[trigger] records[j].serial
}

proof fn lemma_push_unique(records: Seq<RecordView>, rv: RecordView)
    requires
        unique_serials(records),
        record_slot(records, rv.serial) is None,
    ensures
        unique_serials(records.push(rv)),
{
    let added = records.push(rv);
    assert forall|i: int, j: int|
        0 <= i < added.len() && 0 <= j < added.len() && i != j implies #[trigger] added[i].serial
        != #[trigger] added[j].serial by {
        if i == records.len() {
            assert(records[j].serial != rv.serial);
        } else if j == records.len() {
            assert(records[i].serial != rv.serial);
        }
    }
}

proof fn lemma_remove_unique(records: Seq<RecordView>, k: int)
    requires
        unique_serials(records),
        0 <= k < records.len(),
    ensures
        unique_serials(records.remove(k)),
{
    let rest = records.remove(k);
    assert forall|i: int, j: int|
        0 <= i < rest.len() && 0 <= j < rest.len() && i != j implies #[trigger] rest[i].serial
        != #[trigger] rest[j].serial by {
        let i0 = if i < k { i } else { i + 1 };
        let j0 = if j < k { j } else { j + 1 };
        assert(rest[i] == records[i0]);
        assert(rest[j] == records[j0]);
    }
}

proof fn lemma_oldest_slot(records: Seq<RecordView>, k: int)
    requires
        unique_serials(records),
        0 <= k < records.len(),
        forall|j: int| 0 <= j < records.len() ==> records[k].serial <= #[trigger] records[j].serial,
    ensures
        oldest_slot(records) == k,
{
    let o = oldest_slot(records);
    assert(records[k].serial <= records[o].serial);
    assert(records[o].serial <= records[k].serial);
    if o != k {
        assert(records[o].serial != records[k].serial);
    }
}

impl LedgerView {
    pub open spec fn wf(self) -> bool {
        &&& self.capacity >= 1
        &&& unique_serials(self.records)
        &&& self.records.len() <= self.capacity
    }

    pub open spec fn is_closed(self) -> bool {
        self.closed_at is Some
    }

    /// What the journal knows of operation `serial` with `fingerprint`.
    pub open spec fn lookup(self, serial: u64, fingerprint: Seq<char>) -> LookupView {
        match record_slot(self.records, serial) {
            Some(i) => if self.records[i].fingerprint == fingerprint {
                LookupView::Replay(self.records[i].outcome)
            } else {
                LookupView::Conflict
            },
            None => if self.closed_at is Some {
                LookupView::Closed
            } else if self.evicted_through matches Some(e) && serial <= e {
                LookupView::Evicted
            } else {
                LookupView::Miss
            },
        }
    }

    /// The journal after storing a new operation; beyond its capacity it
    /// forgets the operation with the smallest serial.
    pub open spec fn record(self, record: RecordView) -> LedgerView {
        let added = self.records.push(record);
        if added.len() > self.capacity {
            let k = oldest_slot(added);
            LedgerView {
                records: added.remove(k),
                evicted_through: match self.evicted_through {
                    Some(e) => Some(if e < added[k].serial { added[k].serial } else { e }),
                    None => Some(added[k].serial),
                },
                ..self
            }
        } else {
            LedgerView { records: added, ..self }
        }
    }

    /// The journal after the connection closed at `at`; an earlier close stands.
    pub open spec fn close(self, at: Timestamp) -> LedgerView {
        if self.closed_at is Some {
            self
        } else {
            LedgerView { closed_at: Some(at), ..self }
        }
    }

    /// The journal was closed more than `retention` milliseconds before `now`.
    pub open spec fn is_expired(self, now: Timestamp, retention_millis: u64) -> bool {
        match self.closed_at {
            Some(at) => at.millis + retention_millis < now.millis,
            None => false,
        }
    }

    /// A new open journal of the given capacity.
    pub open spec fn fresh(capacity: usize) -> LedgerView {
        LedgerView {
            capacity: if capacity == 0 { 1 } else { capacity as nat },
            records: Seq::empty(),
            evicted_through: None,
            closed_at: None,
        }
    }
}

/// The journal of processed Presence commands of one connection.
#[derive(Debug)]
pub struct PresenceOperationLedger {
    capacity: usize,
    serials: Vec<u64>,
    records: Vec<PresenceOperationRecord>,
    evicted_through: Option<u64>,
    closed_at: Option<Timestamp>,
}

impl View for PresenceOperationLedger {
    type V = LedgerView;

    closed spec fn view(&self) -> LedgerView {
        LedgerView {
            capacity: self.capacity as nat,
            records: Seq::new(
                self.records@.len(),
                |i: int|
                    RecordView {
                        serial: self.serials@[i],
                        fingerprint: self.records@[i].request_fingerprint@,
                        outcome: self.records@[i].outcome@,
                    },
            ),
            evicted_through: self.evicted_through,
            closed_at: self.closed_at,
        }
    }
}

impl PresenceOperationLedger {
    closed spec fn inv(&self) -> bool {
        self.serials@.len() == self.records@.len()
    }

    pub closed spec fn wf(&self) -> bool {
        self.inv() && self@.wf()
    }

    /// A well-formed journal has a well-formed view.
    pub proof fn lemma_view_wf(&self)
        requires
            self.wf(),
        ensures
            self@.wf(),
    {
    }

    /// A new open journal; a capacity of zero remembers one operation.
    pub fn new(capacity: usize) -> (r: Self)
        ensures
            r@ == LedgerView::fresh(capacity),
            r.wf(),
    {
        let r = PresenceOperationLedger {
            capacity: if capacity == 0 { 1 } else { capacity },
            serials: Vec::new(),
            records: Vec::new(),
            evicted_through: None,
            closed_at: None,
        };
        proof {
            assert(r@.records =~= Seq::<RecordView>::empty());
        }
        r
    }

    pub fn is_closed(&self) -> (r: bool)
        ensures
            r == self@.is_closed(),
    {
        self.closed_at.is_some()
    }

    fn find(&self, serial: u64) -> (r: Option<usize>)
        requires
            self.wf(),
        ensures
            match r {
                Some(i) => record_slot(self@.records, serial) == Some(i as int) && i
                    < self.records@.len(),
                None => record_slot(self@.records, serial) is None,
            },
    {
        let ghost view = self@.records;
        let mut i: usize = 0;
        while i < self.serials.len()
            invariant
                i <= self.serials@.len(),
                self.inv(),
                view == self@.records,
                unique_serials(view),
                forall|j: int| 0 <= j < i ==> #[trigger] view[j].serial != serial,
            decreases self.serials@.len() - i,
        {
            if self.serials[i] == serial {
                proof {
                    assert(view[i as int].serial == serial);
                    let k = choose|k: int| 0 <= k < view.len() && view[k].serial == serial;
                    assert(view[k].serial == serial);
                    if k != i as int {
                        assert(view[k].serial != view[i as int].serial);
                    }
                }
                return Some(i);
            }
            i = i + 1;
        }
        None
    }

    /// What the journal knows of operation `serial` with `fingerprint`.
    pub fn lookup(&self, serial: u64, fingerprint: &str) -> (r: LedgerLookup)
        requires
            self.wf(),
        ensures
            r@ == self@.lookup(serial, fingerprint@),
    {
        match self.find(serial) {
            Some(i) => {
                let record = &self.records[i];
                if same_text(record.request_fingerprint.as_str(), fingerprint) {
                    LedgerLookup::Replay(record.outcome.clone())
                } else {
                    LedgerLookup::Conflict
                }
            },
            None => {
                if self.closed_at.is_some() {
                    LedgerLookup::Closed
                } else {
                    match self.evicted_through {
                        Some(e) => if serial <= e {
                            LedgerLookup::Evicted
                        } else {
                            LedgerLookup::Miss
                        },
                        None => LedgerLookup::Miss,
                    }
                }
            },
        }
    }

    /// The position of the smallest serial.
    fn oldest_index(&self) -> (k: usize)
        requires
            self.inv(),
            self.serials@.len() > 0,
        ensures
            k < self.serials@.len(),
            forall|j: int| 0 <= j < self.serials@.len() ==> self.serials@[k as int] <= #[trigger] self.serials@[j],
    {
        let mut k: usize = 0;
        let mut i: usize = 1;
        while i < self.serials.len()
            invariant
                1 <= i <= self.serials@.len(),
                k < i,
                forall|j: int| 0 <= j < i ==> self.serials@[k as int] <= #[trigger] self.serials@[j],
            decreases self.serials@.len() - i,
        {
            if self.serials[i] < self.serials[k] {
                k = i;
            }
            i = i + 1;
        }
        k
    }

    /// Stores the outcome of a new operation.
    pub fn record(&mut self, serial: u64, record: PresenceOperationRecord)
        requires
            old(self).wf(),
            record_slot(old(self)@.records, serial) is None,
        ensures
            final(self).wf(),
            final(self)@ == old(self)@.record(
                RecordView {
                    serial,
                    fingerprint: record.request_fingerprint@,
                    outcome: record.outcome@,
                },
            ),
    {
        let ghost s = self@;
        let ghost rv = RecordView {
            serial,
            fingerprint: record.request_fingerprint@,
            outcome: record.outcome@,
        };
        self.serials.push(serial);
        self.records.push(record);
        let ghost added = s.records.push(rv);
        proof {
            assert(self@.records =~= added);
            lemma_push_unique(s.records, rv);
        }
        if self.serials.len() > self.capacity {
            let k = self.oldest_index();
            proof {
                assert forall|j: int| 0 <= j < added.len() implies added[k as int].serial
                    <= #[trigger] added[j].serial by {
                    assert(added[j].serial == self.serials@[j]);
                }
                lemma_oldest_slot(added, k as int);
            }
            let oldest = self.serials.remove(k);
            self.records.remove(k);
            self.evicted_through = match self.evicted_through {
                Some(e) => Some(if e < oldest { oldest } else { e }),
                None => Some(oldest),
            };
            proof {
                assert(self@.records =~= added.remove(k as int));
                lemma_remove_unique(added, k as int);
                assert(self@ == s.record(rv));
            }
        } else {
            proof {
                assert(self@ == s.record(rv));
            }
        }
    }

    /// Marks the connection closed at `at`; an earlier close stands.
    pub fn close(&mut self, at: Timestamp)
        requires
            old(self).wf(),
        ensures
            final(self).wf(),
            final(self)@ == old(self)@.close(at),
    {
        if self.closed_at.is_none() {
            self.closed_at = Some(at);
        }
        proof {
            assert(self@.records =~= old(self)@.records);
        }
    }

    /// The journal was closed more than `retention_millis` before `now`.
    pub fn is_expired(&self, now: Timestamp, retention_millis: u64) -> (r: bool)
        ensures
            r == self@.is_expired(now, retention_millis),
    {
        match self.closed_at {
            Some(at) => {
                let deadline = at.millis as u128 + retention_millis as u128;
                deadline < now.millis as u128
            },
            None => false,
        }
    }
}


/// A non-empty journal has an operation with the smallest serial.
proof fn lemma_oldest_exists(records: Seq<RecordView>)
    requires
        records.len() > 0,
    ensures
        exists|i: int|
            #![trigger records[i]]
            0 <= i < records.len() && forall|j: int|
                0 <= j < records.len() ==> records[i].serial <= #[trigger] records[j].serial,
    decreases records.len(),
{
    if records.len() == 1 {
        assert(forall|j: int| 0 <= j < records.len() ==> records[0].serial <= #[trigger] records[j].serial);
    } else {
        let rest = records.drop_last();
        lemma_oldest_exists(rest);
        let m = choose|i: int|
            #![trigger rest[i]]
            0 <= i < rest.len() && forall|j: int|
                0 <= j < rest.len() ==> rest[i].serial <= #[trigger] rest[j].serial;
        let last = records.len() - 1;
        if records[last].serial < rest[m].serial {
            assert forall|j: int| 0 <= j < records.len() implies records[last].serial
                <= #[trigger] records[j].serial by {
                if j < last {
                    assert(rest[j] == records[j]);
                }
            }
        } else {
            assert forall|j: int| 0 <= j < records.len() implies records[m].serial
                <= #[trigger] records[j].serial by {
                if j < last {
                    assert(rest[j] == records[j]);
                }
            }
        }
    }
}

/// The record of `serial` in journal records with distinct serials is the one at `i`.
proof fn lemma_record_slot_at(records: Seq<RecordView>, i: int)
    requires
        unique_serials(records),
        0 <= i < records.len(),
    ensures
        record_slot(records, records[i].serial) == Some(i),
{
    let serial = records[i].serial;
    assert(records[i].serial == serial);
    let j = choose|j: int| 0 <= j < records.len() && records[j].serial == serial;
    if j != i {
        assert(records[j].serial != records[i].serial);
    }
}

/// Once a new operation is recorded, looking it up gives its stored outcome.
///
/// Left out: a full journal where the new operation has the smallest serial,
/// which is forgotten at once.
pub proof fn lemma_record_then_lookup(journal: LedgerView, record: RecordView)
    requires
        journal.wf(),
        record_slot(journal.records, record.serial) is None,
        journal.records.len() < journal.capacity || exists|i: int|
            0 <= i < journal.records.len() && journal.records[i].serial < record.serial,
    ensures
        journal.record(record).wf(),
        journal.record(record).lookup(record.serial, record.fingerprint) == LookupView::Replay(
            record.outcome,
        ),
{
    let added = journal.records.push(record);
    lemma_push_unique(journal.records, record);
    let last = journal.records.len() as int;
    assert(added[last] == record);
    if added.len() > journal.capacity {
        let i = choose|i: int|
            0 <= i < journal.records.len() && journal.records[i].serial < record.serial;
        lemma_oldest_exists(added);
        let k = oldest_slot(added);
        assert(added[k].serial <= added[i].serial);
        assert(k != last);
        let kept = added.remove(k);
        lemma_remove_unique(added, k);
        assert(kept[last - 1] == record);
        lemma_record_slot_at(kept, last - 1);
    } else {
        lemma_record_slot_at(added, last);
    }
}
} // verus!
