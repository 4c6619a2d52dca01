//! What the operations on the catalog come to, row by row.
use crate::catalog::{RegistrationView, ScanView, SourceFingerprint, TombstoneGrace};
use crate::domain::{EventId, EventKind, EventView, IdentityView, LocationView, RecordId, RecordState};
use crate::ledger;
use crate::ledger::{CandidateView, LedgerView, ObservationView, RecordView, SourceRecordView};
use crate::records;
use crate::sources;
use vstd::prelude::*;

verus! {

/// Whether a record was active and is now deleted, at its next version, and otherwise as it was.
spec fn deleted_at(before: RecordView, after: RecordView, at_ms: i64) -> bool {
    &&& before.state == RecordState::Active
    &&& before.record_version < u64::MAX
    &&& after == (RecordView {
        state: RecordState::Tombstoned,
        record_version: (before.record_version + 1) as u64,
        updated_at_ms: at_ms,
        ..before
    })
}

proof fn lemma_without_candidate(m: LedgerView, record_id: RecordId)
    ensures
        ({
            let next = sources::without_candidate(m, record_id);
            &&& forall|c: int|
                0 <= c < m.candidates.len() && (#[trigger] m.candidates[c]).record_id != record_id
                    ==> next.candidates.contains(m.candidates[c])
            &&& forall|c: int|
                0 <= c < next.candidates.len() ==> (#[trigger] next.candidates[c]).record_id
                    != record_id && m.candidates.contains(next.candidates[c])
        }),
{
    let keeps = sources::is_no_candidate(record_id);
    let next = sources::without_candidate(m, record_id);
    assert forall|c: int|
        0 <= c < m.candidates.len() && (#[trigger] m.candidates[c]).record_id
            != record_id implies next.candidates.contains(m.candidates[c]) by {
        m.candidates.lemma_filter_contains(keeps, c);
    }
    assert forall|c: int| 0 <= c < next.candidates.len() implies (
    #[trigger] next.candidates[c]).record_id != record_id && m.candidates.contains(
        next.candidates[c],
    ) by {
        m.candidates.lemma_filter_pred(keeps, c);
        assert(m.candidates.filter(keeps).contains(next.candidates[c]));
        m.candidates.lemma_filter_contains_rev(keeps, next.candidates[c]);
    }
}

proof fn lemma_with_candidate(m: LedgerView, row: CandidateView)
    ensures
        ({
            let next = sources::with_candidate(m, row);
            &&& next.candidates.contains(row)
            &&& forall|c: int|
                0 <= c < m.candidates.len() && (#[trigger] m.candidates[c]).record_id
                    != row.record_id ==> next.candidates.contains(m.candidates[c])
            &&& forall|c: int|
                0 <= c < next.candidates.len() && (#[trigger] next.candidates[c]).record_id
                    != row.record_id ==> m.candidates.contains(next.candidates[c])
        }),
{
    let next = sources::with_candidate(m, row);
    let accepts = sources::is_candidate(row.record_id);
    ledger::lemma_find_first(m.candidates, accepts);
    match ledger::find_first(m.candidates, accepts) {
        Some(at) => {
            assert(next.candidates[at] == row);
            assert forall|c: int|
                0 <= c < m.candidates.len() && (#[trigger] m.candidates[c]).record_id
                    != row.record_id implies next.candidates.contains(m.candidates[c]) by {
                assert(next.candidates[c] == m.candidates[c]);
            }
            assert forall|c: int|
                0 <= c < next.candidates.len() && (#[trigger] next.candidates[c]).record_id
                    != row.record_id implies m.candidates.contains(next.candidates[c]) by {
                assert(next.candidates[c] == m.candidates[c]);
            }
        },
        None => {
            assert(next.candidates[m.candidates.len() as int] == row);
            assert forall|c: int|
                0 <= c < m.candidates.len() && (#[trigger] m.candidates[c]).record_id
                    != row.record_id implies next.candidates.contains(m.candidates[c]) by {
                assert(next.candidates[c] == m.candidates[c]);
            }
            assert forall|c: int|
                0 <= c < next.candidates.len() && (#[trigger] next.candidates[c]).record_id
                    != row.record_id implies m.candidates.contains(next.candidates[c]) by {
                assert(next.candidates[c] == m.candidates[c]);
            }
        },
    }
}

/// What a miss leaves as it was.
spec fn untouched_but(m: LedgerView, next: LedgerView, record_id: RecordId, at_ms: i64) -> bool {
    &&& sources::same_sources(m, next)
    &&& next.records.len() == m.records.len()
    &&& forall|i: int|
        #![trigger next.records[i]]
        #![trigger m.records[i]]
        0 <= i < m.records.len() ==> next.records[i] == m.records[i] || (m.records[i].id
            == record_id && deleted_at(m.records[i], next.records[i], at_ms))
    &&& forall|c: int|
        0 <= c < m.candidates.len() && (#[trigger] m.candidates[c]).record_id != record_id
            ==> next.candidates.contains(m.candidates[c])
    &&& forall|c: int|
        0 <= c < next.candidates.len() && (#[trigger] next.candidates[c]).record_id != record_id
            ==> m.candidates.contains(next.candidates[c])
}

proof fn lemma_miss(
    m: LedgerView,
    scan: ScanView,
    grace: TombstoneGrace,
    at_ms: i64,
    record_id: RecordId,
    event_id: EventId,
)
    ensures
        sources::miss(m, scan, grace, at_ms, record_id, event_id) matches Ok((next, events)) ==> {
            let row = sources::missed(m, scan, record_id, at_ms);
            &&& untouched_but(m, next, record_id, at_ms)
            &&& events.len() <= 1
            &&& forall|e: int|
                0 <= e < events.len() ==> (#[trigger] events[e]).kind == EventKind::RecordTombstoned
                    && events[e].record_id == record_id
            &&& next.events == m.events + events
            &&& sources::grace_over(row, grace, at_ms) ==> {
                &&& forall|c: int|
                    0 <= c < next.candidates.len() ==> (#[trigger] next.candidates[c]).record_id
                        != record_id
                &&& m.record_at(record_id) matches Some(at)
                &&& next.records[at].state == RecordState::Tombstoned
                &&& m.records[at].state == RecordState::Active ==> events.len() == 1
                    && events[0].record_version == m.records[at].record_version + 1
            }
            &&& !sources::grace_over(row, grace, at_ms) ==> next.candidates.contains(row)
                && next.records == m.records && events.len() == 0
        },
{
    let row = sources::missed(m, scan, record_id, at_ms);
    let counted = sources::with_candidate(m, row);
    lemma_with_candidate(m, row);
    ledger::lemma_find_first(m.candidates, sources::is_candidate(record_id));
    ledger::lemma_find_first(m.records, ledger::has_record_id(record_id));
    if let Ok((next, events)) = sources::miss(m, scan, grace, at_ms, record_id, event_id) {
        assert(next.events =~= m.events + events);
        if sources::grace_over(row, grace, at_ms) {
            let at = m.record_at(record_id)->Some_0;
            if counted.records[at].state == RecordState::Active {
                let change = records::deletion(counted.records[at], at_ms, event_id);
                let deleted = records::changed(counted, at, change);
                lemma_without_candidate(deleted, record_id);
                assert(deleted.candidates == counted.candidates);
            } else {
                lemma_without_candidate(counted, record_id);
            }
            assert forall|c: int|
                0 <= c < m.candidates.len() && (#[trigger] m.candidates[c]).record_id
                    != record_id implies next.candidates.contains(m.candidates[c]) by {
                assert(counted.candidates.contains(m.candidates[c]));
                let d = choose|d: int|
                    0 <= d < counted.candidates.len() && counted.candidates[d] == m.candidates[c];
                assert(counted.candidates[d].record_id != record_id);
            }
            assert forall|c: int|
                0 <= c < next.candidates.len() && (#[trigger] next.candidates[c]).record_id
                    != record_id implies m.candidates.contains(next.candidates[c]) by {
                assert(counted.candidates.contains(next.candidates[c]));
                let d = choose|d: int|
                    0 <= d < counted.candidates.len() && counted.candidates[d]
                        == next.candidates[c];
                assert(counted.candidates[d].record_id != record_id);
            }
        }
    }
}

/// Whether a row names this record.
spec fn names_record(missing: Seq<SourceRecordView>, id: RecordId) -> bool {
    exists|k: int| 0 <= k < missing.len() && (#[trigger] missing[k]).record_id == id
}

proof fn lemma_miss_all(
    m: LedgerView,
    scan: ScanView,
    grace: TombstoneGrace,
    at_ms: i64,
    missing: Seq<SourceRecordView>,
    event_ids: Seq<EventId>,
)
    ensures
        sources::miss_all(m, scan, grace, at_ms, missing, event_ids) matches Ok((next, events))
            ==> {
            &&& sources::same_sources(m, next)
            &&& next.records.len() == m.records.len()
            &&& forall|i: int|
                #![trigger next.records[i]]
                #![trigger m.records[i]]
                0 <= i < m.records.len() ==> next.records[i] == m.records[i] || (names_record(
                    missing,
                    m.records[i].id,
                ) && deleted_at(m.records[i], next.records[i], at_ms))
            &&& forall|c: int|
                0 <= c < m.candidates.len() && !names_record(
                    missing,
                    (#[trigger] m.candidates[c]).record_id,
                ) ==> next.candidates.contains(m.candidates[c])
            &&& forall|c: int|
                0 <= c < next.candidates.len() && !names_record(
                    missing,
                    (#[trigger] next.candidates[c]).record_id,
                ) ==> m.candidates.contains(next.candidates[c])
            &&& forall|e: int|
                0 <= e < events.len() ==> (#[trigger] events[e]).kind == EventKind::RecordTombstoned
                    && names_record(missing, events[e].record_id)
            &&& next.events == m.events + events
        },
    decreases missing.len(),
{
    if missing.len() > 0 {
        let front = missing.drop_last();
        let id = missing.last().record_id;
        lemma_miss_all(m, scan, grace, at_ms, front, event_ids);
        assert forall|other: RecordId| names_record(front, other) implies #[trigger] names_record(
            missing,
            other,
        ) by {
            let k = choose|k: int| 0 <= k < front.len() && (#[trigger] front[k]).record_id == other;
            assert(missing[k].record_id == other);
        }
        assert forall|other: RecordId|
            #[trigger] names_record(missing, other) implies names_record(front, other) || other
            == id by {
            let k = choose|k: int|
                0 <= k < missing.len() && (#[trigger] missing[k]).record_id == other;
            if k < front.len() {
                assert(front[k].record_id == other);
            }
        }
        assert(names_record(missing, id)) by {
            assert(missing[missing.len() - 1].record_id == id);
        }
        if let Ok((before, made)) = sources::miss_all(m, scan, grace, at_ms, front, event_ids) {
            lemma_miss(before, scan, grace, at_ms, id, event_ids[missing.len() - 1]);
            if let Ok((next, more)) = sources::miss(
                before,
                scan,
                grace,
                at_ms,
                id,
                event_ids[missing.len() - 1],
            ) {
                let events = made + more;
                assert(next.events =~= m.events + events);
                assert forall|i: int| 0 <= i < m.records.len() implies #[trigger] next.records[i]
                    == m.records[i] || (names_record(missing, m.records[i].id) && deleted_at(
                    m.records[i],
                    next.records[i],
                    at_ms,
                )) by {
                    assert(before.records[i] == m.records[i] || deleted_at(
                        m.records[i],
                        before.records[i],
                        at_ms,
                    ));
                }
                assert forall|c: int|
                    0 <= c < m.candidates.len() && !names_record(
                        missing,
                        (#[trigger] m.candidates[c]).record_id,
                    ) implies next.candidates.contains(m.candidates[c]) by {
                    assert(before.candidates.contains(m.candidates[c]));
                    let d = choose|d: int|
                        0 <= d < before.candidates.len() && before.candidates[d]
                            == m.candidates[c];
                    assert(before.candidates[d].record_id != id);
                }
                assert forall|c: int|
                    0 <= c < next.candidates.len() && !names_record(
                        missing,
                        (#[trigger] next.candidates[c]).record_id,
                    ) implies m.candidates.contains(next.candidates[c]) by {
                    assert(before.candidates.contains(next.candidates[c]));
                    let d = choose|d: int|
                        0 <= d < before.candidates.len() && before.candidates[d]
                            == next.candidates[c];
                    assert(!names_record(front, before.candidates[d].record_id));
                }
                assert forall|e: int| 0 <= e < events.len() implies (#[trigger] events[e]).kind
                    == EventKind::RecordTombstoned && names_record(
                    missing,
                    events[e].record_id,
                ) by {
                    if e < made.len() {
                        assert(events[e] == made[e]);
                    } else {
                        assert(events[e] == more[e - made.len()]);
                    }
                }
            }
        }
    } else {
        assert(m.events + Seq::<EventView>::empty() =~= m.events);
        assert forall|c: int| 0 <= c < m.candidates.len() implies m.candidates.contains(
            #[trigger] m.candidates[c],
        ) by {}
    }
}

/// What a scan's own missing records are.
proof fn lemma_missing_rows(m: LedgerView, scan: ScanView)
    ensures
        forall|id: RecordId|
            #[trigger] names_record(m.source_records.filter(sources::is_missing(scan)), id)
                <==> exists|k: int|
                0 <= k < m.source_records.len() && (#[trigger] m.source_records[k]).record_id == id
                    && m.source_records[k].source_id == scan.source_id
                    && m.source_records[k].last_seen_generation < scan.generation,
{
    let accepts = sources::is_missing(scan);
    let missing = m.source_records.filter(accepts);
    assert forall|id: RecordId| #[trigger] names_record(missing, id) implies exists|k: int|
        0 <= k < m.source_records.len() && (#[trigger] m.source_records[k]).record_id == id
            && m.source_records[k].source_id == scan.source_id
            && m.source_records[k].last_seen_generation < scan.generation by {
        let j = choose|j: int| 0 <= j < missing.len() && (#[trigger] missing[j]).record_id == id;
        m.source_records.lemma_filter_pred(accepts, j);
        assert(missing.contains(missing[j]));
        m.source_records.lemma_filter_contains_rev(accepts, missing[j]);
        let k = choose|k: int|
            0 <= k < m.source_records.len() && m.source_records[k] == missing[j];
        assert(m.source_records[k].record_id == id);
    }
    assert forall|id: RecordId|
        (exists|k: int|
            0 <= k < m.source_records.len() && (#[trigger] m.source_records[k]).record_id == id
                && m.source_records[k].source_id == scan.source_id
                && m.source_records[k].last_seen_generation
                < scan.generation) implies #[trigger] names_record(missing, id) by {
        let k = choose|k: int|
            0 <= k < m.source_records.len() && (#[trigger] m.source_records[k]).record_id == id
                && m.source_records[k].source_id == scan.source_id
                && m.source_records[k].last_seen_generation < scan.generation;
        m.source_records.lemma_filter_contains(accepts, k);
        let j = choose|j: int| 0 <= j < missing.len() && missing[j] == m.source_records[k];
        assert(missing[j].record_id == id);
    }
}

/// Completing a scan touches no record but those that belong to the scanned source and that this scan
/// did not see. Such a record is at most deleted, at its next version, where it lies and with its bytes.
/// Every other record, every event before, and whatever is pending for other records stay as they were,
/// and every event that is made is the deletion of such a record.
pub proof fn law_completion_deletes_only_what_its_source_misses(
    m: LedgerView,
    scan: ScanView,
    grace: Option<TombstoneGrace>,
    at_ms: i64,
    event_ids: Seq<EventId>,
)
    ensures
        sources::complete(m, scan, grace, at_ms, event_ids) matches Ok((next, events)) ==> {
            &&& next.records.len() == m.records.len()
            &&& forall|i: int|
                #![trigger next.records[i]]
                0 <= i < m.records.len() && next.records[i] != m.records[i] ==> {
                    &&& exists|k: int|
                        0 <= k < m.source_records.len() && (
                        #[trigger] m.source_records[k]).record_id == m.records[i].id
                            && m.source_records[k].source_id == scan.source_id
                            && m.source_records[k].last_seen_generation < scan.generation
                    &&& m.records[i].state == RecordState::Active
                    &&& next.records[i].state == RecordState::Tombstoned
                    &&& next.records[i].record_version == m.records[i].record_version + 1
                    &&& next.records[i].id == m.records[i].id
                    &&& next.records[i].identity == m.records[i].identity
                    &&& next.records[i].location == m.records[i].location
                    &&& next.records[i].current_revision_id == m.records[i].current_revision_id
                    &&& next.records[i].created_at_ms == m.records[i].created_at_ms
                    &&& next.records[i].updated_at_ms == at_ms
                }
            &&& forall|e: int|
                #![trigger events[e]]
                0 <= e < events.len() ==> {
                    &&& events[e].kind == EventKind::RecordTombstoned
                    &&& exists|k: int|
                        0 <= k < m.source_records.len() && (
                        #[trigger] m.source_records[k]).record_id == events[e].record_id
                            && m.source_records[k].source_id == scan.source_id
                            && m.source_records[k].last_seen_generation < scan.generation
                }
            &&& forall|c: int|
                #![trigger m.candidates[c]]
                0 <= c < m.candidates.len() && !(exists|k: int|
                    0 <= k < m.source_records.len() && (#[trigger] m.source_records[k]).record_id
                        == m.candidates[c].record_id && m.source_records[k].source_id
                        == scan.source_id && m.source_records[k].last_seen_generation
                        < scan.generation) ==> next.candidates.contains(m.candidates[c])
            &&& next.events == m.events + events
            &&& next.revisions == m.revisions
            &&& next.source_records == m.source_records
            &&& next.subscriptions == m.subscriptions
            &&& next.scrubs == m.scrubs
        },
{
    lemma_missing_rows(m, scan);
    if let Some(grace) = grace {
        lemma_miss_all(
            m,
            scan,
            grace,
            at_ms,
            m.source_records.filter(sources::is_missing(scan)),
            event_ids,
        );
    } else {
        assert(m.events + Seq::<EventView>::empty() =~= m.events);
    }
}

/// Whether this is all that is pending for a record.
spec fn pending(m: LedgerView, id: RecordId, known: Option<CandidateView>) -> bool {
    &&& known matches Some(row) ==> row.record_id == id && m.candidates.contains(row)
    &&& forall|c: int|
        0 <= c < m.candidates.len() && (#[trigger] m.candidates[c]).record_id == id ==> known
            == Some(m.candidates[c])
}

/// The row behind one more miss.
spec fn one_more_miss(
    known: Option<CandidateView>,
    scan: ScanView,
    id: RecordId,
    at_ms: i64,
) -> CandidateView {
    CandidateView {
        record_id: id,
        source_id: scan.source_id,
        first_missing_at_ms: match known {
            Some(row) => row.first_missing_at_ms,
            None => at_ms,
        },
        complete_guarded_scans: match known {
            Some(row) => (row.complete_guarded_scans + 1) as u64,
            None => 1,
        },
    }
}

proof fn lemma_missed(
    m: LedgerView,
    scan: ScanView,
    id: RecordId,
    at_ms: i64,
    known: Option<CandidateView>,
)
    requires
        pending(m, id, known),
    ensures
        sources::missed(m, scan, id, at_ms) == one_more_miss(known, scan, id, at_ms),
{
    let accepts = sources::is_candidate(id);
    ledger::lemma_find_first(m.candidates, accepts);
    if let Some(row) = known {
        let c = choose|c: int| 0 <= c < m.candidates.len() && m.candidates[c] == row;
        assert(accepts(m.candidates[c]));
    }
}

/// What came of a missing record.
spec fn miss_outcome(
    m: LedgerView,
    next: LedgerView,
    events: Seq<EventView>,
    row: CandidateView,
    grace: TombstoneGrace,
    at_ms: i64,
    i: int,
) -> bool {
    if sources::grace_over(row, grace, at_ms) {
        &&& forall|c: int|
            0 <= c < next.candidates.len() ==> (#[trigger] next.candidates[c]).record_id
                != row.record_id
        &&& next.records[i].state == RecordState::Tombstoned
        &&& m.records[i].state == RecordState::Active ==> exists|e: int|
            0 <= e < events.len() && (#[trigger] events[e]).record_id == row.record_id
                && events[e].record_version == m.records[i].record_version + 1
    } else {
        &&& next.candidates.contains(row)
        &&& next.records[i] == m.records[i]
        &&& forall|e: int|
            0 <= e < events.len() ==> (#[trigger] events[e]).record_id != row.record_id
    }
}

proof fn lemma_miss_outcome(
    m: LedgerView,
    scan: ScanView,
    grace: TombstoneGrace,
    at_ms: i64,
    missing: Seq<SourceRecordView>,
    event_ids: Seq<EventId>,
    k: int,
    i: int,
    known: Option<CandidateView>,
)
    requires
        0 <= k < missing.len(),
        forall|a: int, b: int|
            0 <= a < b < missing.len() ==> (#[trigger] missing[a]).record_id != (
            #[trigger] missing[b]).record_id,
        0 <= i < m.records.len(),
        m.records[i].id == missing[k].record_id,
        forall|a: int, b: int|
            0 <= a < b < m.records.len() ==> (#[trigger] m.records[a]).id != (
            #[trigger] m.records[b]).id,
        pending(m, missing[k].record_id, known),
    ensures
        sources::miss_all(m, scan, grace, at_ms, missing, event_ids) matches Ok((next, events))
            ==> miss_outcome(
            m,
            next,
            events,
            one_more_miss(known, scan, missing[k].record_id, at_ms),
            grace,
            at_ms,
            i,
        ),
    decreases missing.len(),
{
    let front = missing.drop_last();
    let id = missing[k].record_id;
    let last = missing.last().record_id;
    let row = one_more_miss(known, scan, id, at_ms);
    lemma_miss_all(m, scan, grace, at_ms, front, event_ids);
    if let Ok((before, made)) = sources::miss_all(m, scan, grace, at_ms, front, event_ids) {
        let fresh = event_ids[missing.len() - 1];
        lemma_miss(before, scan, grace, at_ms, last, fresh);
        if let Ok((next, more)) = sources::miss(before, scan, grace, at_ms, last, fresh) {
            let events = made + more;
            if k < front.len() {
                assert(front[k] == missing[k]);
                lemma_miss_outcome(
                    m,
                    scan,
                    grace,
                    at_ms,
                    front,
                    event_ids,
                    k,
                    i,
                    known,
                );
                assert(missing[k].record_id != missing[missing.len() - 1].record_id);
                assert(before.records[i].id == id);
                assert(next.records[i] == before.records[i]);
                if sources::grace_over(row, grace, at_ms) {
                    assert forall|c: int| 0 <= c < next.candidates.len() implies (
                    #[trigger] next.candidates[c]).record_id != id by {
                        if next.candidates[c].record_id == id {
                            assert(before.candidates.contains(next.candidates[c]));
                            let d = choose|d: int|
                                0 <= d < before.candidates.len() && before.candidates[d]
                                    == next.candidates[c];
                            assert(before.candidates[d].record_id != id);
                        }
                    }
                    if m.records[i].state == RecordState::Active {
                        let e = choose|e: int|
                            0 <= e < made.len() && (#[trigger] made[e]).record_id == id
                                && made[e].record_version == m.records[i].record_version + 1;
                        assert(events[e] == made[e]);
                    }
                } else {
                    let d = choose|d: int|
                        0 <= d < before.candidates.len() && before.candidates[d] == row;
                    assert(before.candidates[d].record_id == id);
                    assert(next.candidates.contains(before.candidates[d]));
                    assert forall|e: int| 0 <= e < events.len() implies (
                    #[trigger] events[e]).record_id != id by {
                        if e < made.len() {
                            assert(events[e] == made[e]);
                        } else {
                            assert(events[e] == more[e - made.len()]);
                        }
                    }
                }
            } else {
                assert(!names_record(front, id)) by {
                    assert forall|j: int| 0 <= j < front.len() implies (
                    #[trigger] front[j]).record_id != id by {
                        assert(missing[j].record_id != missing[k].record_id);
                    }
                }
                assert(pending(before, id, known)) by {
                    if let Some(held) = known {
                        let c = choose|c: int|
                            0 <= c < m.candidates.len() && m.candidates[c] == held;
                        assert(before.candidates.contains(m.candidates[c]));
                    }
                    assert forall|c: int|
                        0 <= c < before.candidates.len() && (
                        #[trigger] before.candidates[c]).record_id == id implies known == Some(
                        before.candidates[c],
                    ) by {
                        assert(m.candidates.contains(before.candidates[c]));
                        let d = choose|d: int|
                            0 <= d < m.candidates.len() && m.candidates[d]
                                == before.candidates[c];
                        assert(m.candidates[d].record_id == id);
                    }
                }
                lemma_missed(before, scan, id, at_ms, known);
                assert(before.records[i] == m.records[i]);
                assert(before.record_at(id) == Some(i)) by {
                    assert(ledger::is_first(before.records, ledger::has_record_id(id), i)) by {
                        assert forall|j: int| 0 <= j < i implies !ledger::has_record_id(id)(
                            #[trigger] before.records[j],
                        ) by {
                            assert(m.records[j].id != m.records[i].id);
                            assert(before.records[j].id == m.records[j].id);
                        }
                    }
                    ledger::lemma_found(before.records, ledger::has_record_id(id), i);
                }
                if sources::grace_over(row, grace, at_ms) {
                    if m.records[i].state == RecordState::Active {
                        assert(events[made.len() as int] == more[0]);
                    }
                } else {
                    assert forall|e: int| 0 <= e < events.len() implies (
                    #[trigger] events[e]).record_id != id by {
                        assert(events[e] == made[e]);
                    }
                }
            }
        }
    }
}

proof fn lemma_filter_keeps_distinct(rows: Seq<SourceRecordView>, keeps: spec_fn(SourceRecordView) -> bool)
    requires
        forall|a: int, b: int|
            0 <= a < b < rows.len() ==> (#[trigger] rows[a]).record_id != (
            #[trigger] rows[b]).record_id,
    ensures
        forall|a: int, b: int|
            0 <= a < b < rows.filter(keeps).len() ==> (#[trigger] rows.filter(keeps)[a]).record_id
                != (#[trigger] rows.filter(keeps)[b]).record_id,
    decreases rows.len(),
{
    if rows.len() > 0 {
        let front = rows.drop_last();
        lemma_filter_keeps_distinct(front, keeps);
        assert(rows =~= front.push(rows.last()));
        front.lemma_filter_push(rows.last(), keeps);
        let inner = front.filter(keeps);
        assert forall|a: int| 0 <= a < inner.len() implies (#[trigger] inner[a]).record_id
            != rows.last().record_id by {
            assert(inner.contains(inner[a]));
            front.lemma_filter_contains_rev(keeps, inner[a]);
            let j = choose|j: int| 0 <= j < front.len() && front[j] == inner[a];
            assert(rows[j].record_id != rows[rows.len() - 1].record_id);
        }
    } else {
        assert(rows.filter(keeps) =~= Seq::empty());
    }
}

/// What a complete, guarded scan makes of a record of its source that it did not see. The scans that
/// missed the record are counted from the first on, together with the time of the first. Once they are
/// as many as the grace asks, and as much time has passed, the record is deleted and nothing is pending
/// for it any more; until then it stays as it is, and one more miss is noted.
pub proof fn law_missing_record_is_deleted_once_its_grace_is_over(
    m: LedgerView,
    scan: ScanView,
    grace: TombstoneGrace,
    at_ms: i64,
    event_ids: Seq<EventId>,
    k: int,
    i: int,
    known: Option<CandidateView>,
)
    requires
        0 <= k < m.source_records.len(),
        m.source_records[k].source_id == scan.source_id,
        m.source_records[k].last_seen_generation < scan.generation,
        forall|a: int, b: int|
            0 <= a < b < m.source_records.len() ==> (#[trigger] m.source_records[a]).record_id != (
            #[trigger] m.source_records[b]).record_id,
        0 <= i < m.records.len(),
        m.records[i].id == m.source_records[k].record_id,
        forall|a: int, b: int|
            0 <= a < b < m.records.len() ==> (#[trigger] m.records[a]).id != (
            #[trigger] m.records[b]).id,
        known matches Some(row) ==> row.record_id == m.records[i].id && m.candidates.contains(row),
        forall|c: int|
            0 <= c < m.candidates.len() && (#[trigger] m.candidates[c]).record_id == m.records[i].id
                ==> known == Some(m.candidates[c]),
        known matches Some(row) ==> row.complete_guarded_scans < u64::MAX,
    ensures
        sources::complete(m, scan, Some(grace), at_ms, event_ids) matches Ok((next, events)) ==> {
            let id = m.records[i].id;
            let since = match known {
                Some(row) => row.first_missing_at_ms,
                None => at_ms,
            };
            let scans = match known {
                Some(row) => row.complete_guarded_scans + 1,
                None => 1int,
            };
            let waited = grace.min_elapsed_ms == 0 || (grace.min_elapsed_ms <= i64::MAX && at_ms
                - since >= grace.min_elapsed_ms);
            if scans >= grace.min_complete_scans && waited {
                &&& next.records[i].state == RecordState::Tombstoned
                &&& forall|c: int|
                    0 <= c < next.candidates.len() ==> (#[trigger] next.candidates[c]).record_id
                        != id
                &&& m.records[i].state == RecordState::Active ==> exists|e: int|
                    0 <= e < events.len() && (#[trigger] events[e]).record_id == id
                        && events[e].kind == EventKind::RecordTombstoned
                        && events[e].record_version == m.records[i].record_version + 1
            } else {
                &&& next.records[i] == m.records[i]
                &&& forall|e: int| 0 <= e < events.len() ==> (#[trigger] events[e]).record_id != id
                &&& exists|c: int|
                    0 <= c < next.candidates.len() && (#[trigger] next.candidates[c]).record_id
                        == id && next.candidates[c].source_id == scan.source_id
                        && next.candidates[c].first_missing_at_ms == since
                        && next.candidates[c].complete_guarded_scans == scans
            }
        },
{
    let accepts = sources::is_missing(scan);
    let missing = m.source_records.filter(accepts);
    m.source_records.lemma_filter_contains(accepts, k);
    let j = choose|j: int| 0 <= j < missing.len() && missing[j] == m.source_records[k];
    lemma_filter_keeps_distinct(m.source_records, accepts);
    lemma_miss_outcome(m, scan, grace, at_ms, missing, event_ids, j, i, known);
    lemma_miss_all(m, scan, grace, at_ms, missing, event_ids);
    let row = one_more_miss(known, scan, m.records[i].id, at_ms);
    if let Ok((next, events)) = sources::complete(m, scan, Some(grace), at_ms, event_ids) {
        if !sources::grace_over(row, grace, at_ms) {
            let c = choose|c: int| 0 <= c < next.candidates.len() && next.candidates[c] == row;
            assert(next.candidates[c].record_id == m.records[i].id);
        }
    }
}

/// Completing a scan marks it as the last complete one of its source and forgets what that source saw
/// before it and not again. Other sources, what they saw, and what this scan saw stay as they were.
pub proof fn law_completion_forgets_only_what_its_source_saw_before(
    m: LedgerView,
    scan: ScanView,
    grace: Option<TombstoneGrace>,
    at_ms: i64,
    event_ids: Seq<EventId>,
)
    ensures
        sources::complete(m, scan, grace, at_ms, event_ids) matches Ok((next, events)) ==> {
            &&& forall|i: int|
                #![trigger m.observations[i]]
                0 <= i < m.observations.len() ==> (next.observations.contains(m.observations[i])
                    <==> m.observations[i].source_id != scan.source_id
                    || m.observations[i].last_seen_generation >= scan.generation)
            &&& forall|row: ObservationView|
                next.observations.contains(row) ==> #[trigger] m.observations.contains(row)
            &&& next.sources.len() == m.sources.len()
            &&& forall|s: int|
                #![trigger next.sources[s]]
                0 <= s < m.sources.len() && m.sources[s].source_id != scan.source_id
                    ==> next.sources[s] == m.sources[s]
            &&& exists|s: int|
                0 <= s < m.sources.len() && (#[trigger] next.sources[s]).source_id == scan.source_id
                    && next.sources[s].last_complete_generation == scan.generation
                    && next.sources[s].next_generation == m.sources[s].next_generation
                    && next.sources[s].producer_id == m.sources[s].producer_id
        },
{
    let keeps = sources::is_fresh(scan);
    if let Some(grace) = grace {
        lemma_miss_all(
            m,
            scan,
            grace,
            at_ms,
            m.source_records.filter(sources::is_missing(scan)),
            event_ids,
        );
    }
    ledger::lemma_find_first(m.sources, ledger::has_source_id(scan.source_id));
    if let Ok((next, events)) = sources::complete(m, scan, grace, at_ms, event_ids) {
        assert(next.observations == m.observations.filter(keeps));
        assert forall|i: int| 0 <= i < m.observations.len() implies (next.observations.contains(
            #[trigger] m.observations[i],
        ) <==> m.observations[i].source_id != scan.source_id
            || m.observations[i].last_seen_generation >= scan.generation) by {
            if keeps(m.observations[i]) {
                m.observations.lemma_filter_contains(keeps, i);
            } else if next.observations.contains(m.observations[i]) {
                let j = choose|j: int|
                    0 <= j < next.observations.len() && next.observations[j] == m.observations[i];
                m.observations.lemma_filter_pred(keeps, j);
            }
        }
        assert forall|row: ObservationView|
            next.observations.contains(row) implies #[trigger] m.observations.contains(row) by {
            m.observations.lemma_filter_contains_rev(keeps, row);
        }
        let s = m.source_at(scan.source_id)->Some_0;
        assert(next.sources[s].source_id == scan.source_id);
    }
}

/// Beginning a scan gives its source the next generation, the first where the source is new, under the
/// registration that it was first given; a source that was registered otherwise is refused. Nothing
/// else changes.
pub proof fn law_begin_takes_the_next_generation(
    m: LedgerView,
    registration: RegistrationView,
    known: Option<int>,
)
    requires
        known matches Some(s) ==> 0 <= s < m.sources.len() && m.sources[s].source_id
            == registration.source_id,
        forall|s: int|
            0 <= s < m.sources.len() && (#[trigger] m.sources[s]).source_id
                == registration.source_id ==> known == Some(s),
    ensures
        match known {
            None => sources::begin(m, registration) matches Ok((next, generation)) && {
                &&& generation == 1
                &&& next.sources.len() == m.sources.len() + 1
                &&& next.sources.last().source_id == registration.source_id
                &&& next.sources.last().producer_id == registration.producer_id
                &&& next.sources.last().identity_schema_name == registration.identity_schema_name
                &&& next.sources.last().identity_schema_version
                    == registration.identity_schema_version
                &&& next.sources.last().next_generation == 1
                &&& next.sources.last().last_complete_generation == 0
                &&& next.sources.drop_last() == m.sources
                &&& next == (LedgerView { sources: next.sources, ..m })
            },
            Some(s) => {
                let same = m.sources[s].producer_id == registration.producer_id
                    && m.sources[s].identity_schema_name == registration.identity_schema_name
                    && m.sources[s].identity_schema_version == registration.identity_schema_version;
                &&& !same ==> sources::begin(m, registration) is Err
                &&& same && m.sources[s].next_generation < i64::MAX ==> sources::begin(
                    m,
                    registration,
                ) is Ok
                &&& sources::begin(m, registration) matches Ok((next, generation)) ==> {
                    &&& same
                    &&& generation == m.sources[s].next_generation + 1
                    &&& next.sources.len() == m.sources.len()
                    &&& next.sources[s].next_generation == generation
                    &&& next.sources[s].source_id == m.sources[s].source_id
                    &&& next.sources[s].producer_id == m.sources[s].producer_id
                    &&& next.sources[s].last_complete_generation
                        == m.sources[s].last_complete_generation
                    &&& forall|j: int|
                        0 <= j < m.sources.len() && j != s ==> #[trigger] next.sources[j]
                            == m.sources[j]
                    &&& next == (LedgerView { sources: next.sources, ..m })
                }
            },
        },
{
    let accepts = ledger::has_source_id(registration.source_id);
    ledger::lemma_find_first(m.sources, accepts);
    match known {
        None => {
            let next = sources::begin(m, registration)->Ok_0.0;
            assert(next.sources.drop_last() =~= m.sources);
        },
        Some(s) => {
            assert(accepts(m.sources[s]));
        },
    }
}

/// Seeing a record of a source in a scan marks it as that source's, seen in this generation, and
/// cancels its pending deletion. A record that belongs to another source is refused. What is known and
/// pending of other records stays as it was.
pub proof fn law_sighting_is_of_one_record(
    m: LedgerView,
    scan: ScanView,
    registration: RegistrationView,
    identity: IdentityView,
    i: int,
    known: Option<int>,
)
    requires
        0 <= i < m.records.len(),
        m.records[i].identity == identity,
        forall|a: int, b: int|
            0 <= a < b < m.records.len() ==> (#[trigger] m.records[a]).identity != (
            #[trigger] m.records[b]).identity,
        known matches Some(k) ==> 0 <= k < m.source_records.len() && m.source_records[k].record_id
            == m.records[i].id,
        forall|k: int|
            0 <= k < m.source_records.len() && (#[trigger] m.source_records[k]).record_id
                == m.records[i].id ==> known == Some(k),
    ensures
        known matches Some(k) ==> m.source_records[k].source_id != scan.source_id
            ==> sources::mark_seen(m, scan, registration, identity) is Err,
        identity.producer_id != registration.producer_id ==> sources::mark_seen(
            m,
            scan,
            registration,
            identity,
        ) is Err,
        sources::mark_seen(m, scan, registration, identity) matches Ok(next) ==> {
            let at = match known {
                Some(k) => k,
                None => m.source_records.len() as int,
            };
            &&& next.source_records.len() == m.source_records.len() + (if known is Some {
                0int
            } else {
                1int
            })
            &&& next.source_records[at] == (SourceRecordView {
                source_id: scan.source_id,
                record_id: m.records[i].id,
                last_seen_generation: scan.generation,
            })
            &&& forall|j: int|
                0 <= j < m.source_records.len() && j != at ==> #[trigger] next.source_records[j]
                    == m.source_records[j]
            &&& forall|c: int|
                0 <= c < m.candidates.len() && (#[trigger] m.candidates[c]).record_id
                    != m.records[i].id ==> next.candidates.contains(m.candidates[c])
            &&& forall|c: int|
                0 <= c < next.candidates.len() ==> (#[trigger] next.candidates[c]).record_id
                    != m.records[i].id && m.candidates.contains(next.candidates[c])
            &&& next == (LedgerView {
                source_records: next.source_records,
                candidates: next.candidates,
                ..m
            })
        },
{
    ledger::lemma_find_first(m.records, ledger::has_identity(identity));
    assert(ledger::has_identity(identity)(m.records[i]));
    let found = m.record_with(identity)->Some_0;
    assert(found == i) by {
        if found < i {
            assert(m.records[found].identity != m.records[i].identity);
        } else if i < found {
            assert(m.records[i].identity != m.records[found].identity);
        }
    }
    let id = m.records[i].id;
    ledger::lemma_find_first(m.source_records, sources::owns(id));
    if let Some(k) = known {
        assert(sources::owns(id)(m.source_records[k]));
    }
    lemma_without_candidate(m, id);
    if let Ok(next) = sources::mark_seen(m, scan, registration, identity) {
        assert(next.candidates == sources::without_candidate(m, id).candidates);
        if known is None {
            assert(ledger::find_first(m.source_records, sources::owns(id)) is None);
        }
    }
}

/// Looking at a file counts how often it was seen in a row under this fingerprint, and asks for its
/// bytes unless they were recorded under it. Another fingerprint starts over. Nothing that was seen
/// elsewhere, or by another source, changes.
pub proof fn law_look_counts_sightings_in_a_row(
    m: LedgerView,
    scan: ScanView,
    location: LocationView,
    fingerprint: SourceFingerprint,
    known: Option<int>,
)
    requires
        known matches Some(o) ==> 0 <= o < m.observations.len() && m.observations[o].source_id
            == scan.source_id && m.observations[o].location == location,
        forall|o: int|
            0 <= o < m.observations.len() && (#[trigger] m.observations[o]).source_id
                == scan.source_id && m.observations[o].location == location ==> known == Some(o),
        known matches Some(o) ==> m.observations[o].unchanged_observations < u64::MAX,
    ensures
        sources::look(m, scan, location, fingerprint).1 matches Ok(seen) ==> {
            let next = sources::look(m, scan, location, fingerprint).0;
            let at = match known {
                Some(o) => o,
                None => m.observations.len() as int,
            };
            let row = next.observations[at];
            let again = known is Some && m.observations[at].fingerprint == fingerprint;
            &&& again ==> seen.unchanged_observations == m.observations[at].unchanged_observations
                + 1 && seen.needs_hash == !m.observations[at].hash_admitted
            &&& !again ==> seen.unchanged_observations == 1 && seen.needs_hash
            &&& row.source_id == scan.source_id
            &&& row.location == location
            &&& row.fingerprint == fingerprint
            &&& row.unchanged_observations == seen.unchanged_observations
            &&& row.hash_admitted == !seen.needs_hash
            &&& row.last_seen_generation == scan.generation
            &&& next.observations.len() == m.observations.len() + (if known is Some {
                0int
            } else {
                1int
            })
            &&& forall|j: int|
                0 <= j < m.observations.len() && j != at ==> #[trigger] next.observations[j]
                    == m.observations[j]
            &&& next == (LedgerView { observations: next.observations, ..m })
        },
{
    let accepts = sources::seen_at(scan.source_id, location);
    ledger::lemma_find_first(m.observations, accepts);
    if let Some(o) = known {
        assert(accepts(m.observations[o]));
    }
}

/// Recording the bytes of a file that the scan saw notes them for that file alone: from then on, as long
/// as the file keeps its fingerprint, no look asks for its bytes.
pub proof fn law_recorded_bytes_are_not_asked_for(
    m: LedgerView,
    scan: ScanView,
    location: LocationView,
    o: int,
    again: ScanView,
)
    requires
        0 <= o < m.observations.len(),
        m.observations[o].source_id == scan.source_id,
        m.observations[o].location == location,
        m.observations[o].unchanged_observations < u64::MAX,
        forall|j: int|
            0 <= j < m.observations.len() && (#[trigger] m.observations[j]).source_id
                == scan.source_id && m.observations[j].location == location ==> j == o,
        again.source_id == scan.source_id,
    ensures
        sources::admit_hash(m, scan, location) matches Ok(next) ==> {
            &&& m.observations[o].last_seen_generation == scan.generation
            &&& next.observations == m.observations.update(
                o,
                (ObservationView { hash_admitted: true, ..m.observations[o] }),
            )
            &&& next == (LedgerView { observations: next.observations, ..m })
            &&& sources::look(next, again, location, m.observations[o].fingerprint).1 matches Ok(
                seen,
            ) ==> !seen.needs_hash
        },
{
    let now = sources::seen_in(scan, location);
    ledger::lemma_find_first(m.observations, now);
    if let Ok(next) = sources::admit_hash(m, scan, location) {
        let accepts = sources::seen_at(again.source_id, location);
        ledger::lemma_find_first(next.observations, accepts);
        assert(accepts(next.observations[o]));
        let found = ledger::find_first(next.observations, accepts)->Some_0;
        assert(m.observations[found].source_id == scan.source_id);
    }
}

/// A scan is current exactly where its source stands at its generation and has not completed it.
pub proof fn law_scan_is_current_until_it_completes(m: LedgerView, scan: ScanView, s: int)
    requires
        0 <= s < m.sources.len(),
        m.sources[s].source_id == scan.source_id,
        forall|j: int|
            0 <= j < m.sources.len() && (#[trigger] m.sources[j]).source_id == scan.source_id ==> j
                == s,
    ensures
        sources::scan_refusal(m, scan) is None <==> m.sources[s].next_generation == scan.generation
            && m.sources[s].last_complete_generation < scan.generation,
{
    ledger::lemma_find_first(m.sources, ledger::has_source_id(scan.source_id));
    assert(ledger::has_source_id(scan.source_id)(m.sources[s]));
}

} // verus!
