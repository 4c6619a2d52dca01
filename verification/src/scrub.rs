//! The durable position of the byte-budgeted integrity scrub.
use crate::catalog::{
    CatalogError, CatalogErrorView, ConstraintFault, ScrubView, SourceScrubProgress, MAX_STORED,
};
use crate::consistency;
use crate::domain::{
    copy_location, ArchiveEvent, CanonicalRevision, EventView, IdentityView, LocationView,
    LogicalLocation, RecordId, RecordIdentity, RevisionView,
};
use crate::ledger;
use crate::ledger::{Catalog, LedgerView, ScrubRow, ScrubRowView, SourceRecordView};
use crate::records;
use crate::records::ObservationIds;
use crate::sources;
use crate::text;
use crate::text::same_text;
use vstd::prelude::*;

verus! {

pub open spec fn scrubs(source_id: Seq<char>) -> spec_fn(ScrubRowView) -> bool {
    |row: ScrubRowView| row.source_id == source_id
}

/// How far the scrub of a source has come; one that never ran stands at the start.
pub open spec fn progress(m: LedgerView, source_id: Seq<char>) -> Result<
    ScrubView,
    CatalogErrorView,
> {
    if m.source_at(source_id) is None {
        Err(CatalogErrorView::SourceScanConflict("source is not registered"@))
    } else {
        match ledger::find_first(m.scrubs, scrubs(source_id)) {
            None => Ok(
                ScrubView {
                    source_id,
                    next_after: None,
                    completed_cycles: 0,
                    last_completed_at_ms: None,
                },
            ),
            Some(at) => Ok(
                ScrubView {
                    source_id,
                    next_after: m.scrubs[at].cursor,
                    completed_cycles: m.scrubs[at].completed_cycles,
                    last_completed_at_ms: m.scrubs[at].last_completed_at_ms,
                },
            ),
        }
    }
}

/// The scrub row of a source behind one more step.
pub open spec fn stepped(
    m: LedgerView,
    source_id: Seq<char>,
    next_after: Option<LocationView>,
    cycle_completed: bool,
    at_ms: i64,
) -> ScrubRowView {
    let known = ledger::find_first(m.scrubs, scrubs(source_id));
    ScrubRowView {
        source_id,
        cursor: next_after,
        completed_cycles: ((match known {
            Some(at) => m.scrubs[at].completed_cycles as int,
            None => 0int,
        }) + (if cycle_completed {
            1int
        } else {
            0int
        })) as u64,
        last_completed_at_ms: if cycle_completed {
            Some(at_ms)
        } else {
            match known {
                Some(at) => m.scrubs[at].last_completed_at_ms,
                None => None,
            }
        },
    }
}

/// What advancing the scrub of a source comes to.
pub open spec fn advance(
    m: LedgerView,
    source_id: Seq<char>,
    next_after: Option<LocationView>,
    cycle_completed: bool,
    at_ms: i64,
) -> Result<LedgerView, CatalogErrorView> {
    let row = stepped(m, source_id, next_after, cycle_completed, at_ms);
    if cycle_completed != next_after is None {
        Err(CatalogErrorView::Corrupt("source scrub completion must clear its cursor"@))
    } else if m.source_at(source_id) is None {
        Err(CatalogErrorView::SourceScanConflict("source is not registered"@))
    } else if row.completed_cycles > MAX_STORED {
        Err(CatalogErrorView::Constraint(ConstraintFault::NumberExhausted))
    } else {
        Ok(
            LedgerView {
                scrubs: match ledger::find_first(m.scrubs, scrubs(source_id)) {
                    Some(at) => m.scrubs.update(at, row),
                    None => m.scrubs.push(row),
                },
                ..m
            },
        )
    }
}

pub open spec fn owned_by(source_id: Seq<char>, record_id: RecordId) -> spec_fn(
    SourceRecordView,
) -> bool {
    |row: SourceRecordView| row.source_id == source_id && row.record_id == record_id
}

/// Whether the record with this identity is cataloged and belongs to this source.
pub open spec fn belongs(m: LedgerView, source_id: Seq<char>, identity: IdentityView) -> bool {
    match m.record_with(identity) {
        Some(at) => ledger::find_first(m.source_records, owned_by(source_id, m.records[at].id))
            is Some,
        None => false,
    }
}

/// What a scrub's observation of a record comes to: nothing where the record is not the source's.
pub open spec fn observe_scrubbed(
    m: LedgerView,
    source_id: Seq<char>,
    identity: IdentityView,
    location: LocationView,
    revision: RevisionView,
    at_ms: i64,
    ids: ObservationIds,
) -> Result<(LedgerView, Option<Seq<EventView>>), CatalogErrorView> {
    if !belongs(m, source_id, identity) {
        Ok((m, None))
    } else {
        match records::observe(m, identity, location, revision, at_ms, ids) {
            Ok((next, events)) => Ok((next, Some(events))),
            Err(error) => Err(error),
        }
    }
}

/// What a scrub's observation came to, against what it should.
pub open spec fn scrubbed_outcome(
    expected: Result<(LedgerView, Option<Seq<EventView>>), CatalogErrorView>,
    before: LedgerView,
    after: LedgerView,
    result: Result<Option<Vec<ArchiveEvent>>, CatalogError>,
) -> bool {
    match expected {
        Ok((next, events)) => {
            &&& result matches Ok(found)
            &&& events == (match found {
                Some(list) => Some(text::views(list@)),
                None => None,
            })
            &&& after == next
        },
        Err(expected_error) => {
            &&& result matches Err(error)
            &&& error@ == expected_error
            &&& after == before
        },
    }
}

impl Catalog {
    /// The position of the scrub row of a source.
    fn find_scrub(&self, source_id: &str) -> (result: Option<usize>)
        ensures
            match result {
                Some(at) => at < self.scrubs@.len() && ledger::find_first(
                    self@.scrubs,
                    scrubs(source_id@),
                ) == Some(at as int),
                None => ledger::find_first(self@.scrubs, scrubs(source_id@)) is None,
            },
    {
        let mut i: usize = 0;
        while i < self.scrubs.len()
            invariant
                i <= self.scrubs@.len(),
                forall|j: int| 0 <= j < i ==> self@.scrubs[j].source_id != source_id@,
            decreases self.scrubs@.len() - i,
        {
            if same_text(self.scrubs[i].source_id.as_str(), source_id) {
                proof {
                    ledger::lemma_found(self@.scrubs, scrubs(source_id@), i as int);
                }
                return Some(i);
            }
            i += 1;
        }
        proof {
            ledger::lemma_not_found(self@.scrubs, scrubs(source_id@));
        }
        None
    }

    /// How far the scrub of a source has come.
    pub fn source_scrub_progress(&self, source_id: &str) -> (result: Result<
        SourceScrubProgress,
        CatalogError,
    >)
        ensures
            match progress(self@, source_id@) {
                Ok(expected) => result is Ok && result->Ok_0@ == expected,
                Err(expected) => result is Err && result->Err_0@ == expected,
            },
    {
        if self.find_source(source_id).is_none() {
            return Err(CatalogError::SourceScanConflict("source is not registered".to_owned()));
        }
        match self.find_scrub(source_id) {
            None => Ok(
                SourceScrubProgress {
                    source_id: source_id.to_owned(),
                    next_after: None,
                    completed_cycles: 0,
                    last_completed_at_ms: None,
                },
            ),
            Some(at) => {
                assert(self.scrubs@[at as int]@ == self@.scrubs[at as int]);
                Ok(
                    SourceScrubProgress {
                        source_id: source_id.to_owned(),
                        next_after: copy_location(&self.scrubs[at].cursor),
                        completed_cycles: self.scrubs[at].completed_cycles,
                        last_completed_at_ms: self.scrubs[at].last_completed_at_ms,
                    },
                )
            },
        }
    }

    /// Commits scrub progress only after one candidate has been fully observed or intentionally
    /// deferred for the next full cycle. A complete cycle clears the cursor and increments the
    /// durable cycle count.
    pub fn advance_source_scrub(
        &mut self,
        source_id: &str,
        next_after: Option<&LogicalLocation>,
        cycle_completed: bool,
        completed_at_ms: i64,
    ) -> (result: Result<(), CatalogError>)
        requires
            old(self).wf(),
        ensures
            final(self).wf(),
            consistency::consistent(old(self)@) ==> consistency::consistent(final(self)@),
            sources::ledger_outcome(
                advance(
                    old(self)@,
                    source_id@,
                    text::view_option(next_after),
                    cycle_completed,
                    completed_at_ms,
                ),
                old(self)@,
                final(self)@,
                result,
            ),
    {
        assert(consistency::consistent(self@) ==> (advance(
            self@,
            source_id@,
            text::view_option(next_after),
            cycle_completed,
            completed_at_ms,
        ) matches Ok(next) ==> consistency::consistent(next))) by {
            let advanced = advance(
                self@,
                source_id@,
                text::view_option(next_after),
                cycle_completed,
                completed_at_ms,
            );
            if consistency::consistent(self@) && advanced is Ok {
                consistency::lemma_same_core(self@, advanced->Ok_0);
            }
        }
        if cycle_completed != next_after.is_none() {
            return Err(
                CatalogError::Corrupt("source scrub completion must clear its cursor".to_owned()),
            );
        }
        if self.find_source(source_id).is_none() {
            return Err(CatalogError::SourceScanConflict("source is not registered".to_owned()));
        }
        let known = self.find_scrub(source_id);
        let mut cycles: u64 = 0;
        let mut last: Option<i64> = None;
        if let Some(at) = known {
            assert(self.scrubs@[at as int]@ == self@.scrubs[at as int]);
            assert(ledger::scrub_ok(self@.scrubs[at as int]));
            cycles = self.scrubs[at].completed_cycles;
            last = self.scrubs[at].last_completed_at_ms;
        }
        if cycle_completed {
            if cycles >= MAX_STORED {
                return Err(CatalogError::Constraint(ConstraintFault::NumberExhausted));
            }
            cycles += 1;
            last = Some(completed_at_ms);
        }
        let cursor: Option<LogicalLocation> = match next_after {
            Some(location) => {
                proof {
                    use_type_invariant(location);
                }
                Some(location.clone())
            },
            None => None,
        };
        let row = ScrubRow {
            source_id: source_id.to_owned(),
            cursor,
            completed_cycles: cycles,
            last_completed_at_ms: last,
        };
        let ghost before = *self;
        assert(row@ =~= stepped(
            before@,
            source_id@,
            text::view_option(next_after),
            cycle_completed,
            completed_at_ms,
        ));
        match known {
            Some(at) => {
                self.scrubs.set(at, row);
                proof {
                    text::lemma_views_update(before.scrubs@, at as int, row);
                }
            },
            None => {
                self.scrubs.push(row);
                proof {
                    text::lemma_views_push(before.scrubs@, row);
                }
            },
        }
        proof {
            assert forall|i: int| 0 <= i < self@.scrubs.len() implies ledger::scrub_ok(
                #[trigger] self@.scrubs[i],
            ) by {
                if i < before@.scrubs.len() && known != Some(i as usize) {
                    assert(ledger::scrub_ok(before@.scrubs[i]));
                    assert(self@.scrubs[i] == before@.scrubs[i]);
                }
            }
        }
        Ok(())
    }

    /// Whether the record with this identity is cataloged and belongs to this source.
    fn record_belongs(&self, source_id: &str, identity: &RecordIdentity) -> (result: bool)
        ensures
            result == belongs(self@, source_id@, identity@),
    {
        let at: usize = match self.find_record(identity) {
            Some(at) => at,
            None => {
                return false;
            },
        };
        let record_id = self.records[at].id;
        let ghost owned = owned_by(source_id@, record_id);
        assert(self@.records[at as int].id == record_id);
        let mut i: usize = 0;
        while i < self.source_records.len()
            invariant
                i <= self.source_records@.len(),
                owned == owned_by(source_id@, record_id),
                self@.record_with(identity@) == Some(at as int),
                self@.records[at as int].id == record_id,
                forall|j: int| 0 <= j < i ==> !owned(#[trigger] self@.source_records[j]),
            decreases self.source_records@.len() - i,
        {
            assert(self.source_records@[i as int]@ == self@.source_records[i as int]);
            if self.source_records[i].record_id == record_id && same_text(
                self.source_records[i].source_id.as_str(),
                source_id,
            ) {
                proof {
                    ledger::lemma_found(self@.source_records, owned, i as int);
                }
                return true;
            }
            i += 1;
        }
        proof {
            ledger::lemma_not_found(self@.source_records, owned);
        }
        false
    }

    /// Updates a record only when the scrub can prove it belongs to the named source, with these
    /// identifiers. A scrub never discovers new identities or changes source scan presence.
    pub fn observe_scrubbed_present_with(
        &mut self,
        source_id: &str,
        identity: &RecordIdentity,
        location: &LogicalLocation,
        revision: CanonicalRevision,
        committed_at_ms: i64,
        ids: ObservationIds,
    ) -> (result: Result<Option<Vec<ArchiveEvent>>, CatalogError>)
        requires
            old(self).wf(),
        ensures
            final(self).wf(),
            consistency::consistent(old(self)@) ==> consistency::consistent(final(self)@),
            scrubbed_outcome(
                observe_scrubbed(
                    old(self)@,
                    source_id@,
                    identity@,
                    location@,
                    revision@,
                    committed_at_ms,
                    ids,
                ),
                old(self)@,
                final(self)@,
                result,
            ),
    {
        if !self.record_belongs(source_id, identity) {
            return Ok(None);
        }
        match self.observe_present_with(identity, location, revision, committed_at_ms, ids) {
            Ok(events) => Ok(Some(events)),
            Err(error) => Err(error),
        }
    }

    /// Updates a record only when the scrub can prove it belongs to the named source.
    pub fn observe_scrubbed_present_at(
        &mut self,
        source_id: &str,
        identity: &RecordIdentity,
        location: &LogicalLocation,
        revision: CanonicalRevision,
        committed_at_ms: i64,
    ) -> (result: Result<Option<Vec<ArchiveEvent>>, CatalogError>)
        requires
            old(self).wf(),
        ensures
            final(self).wf(),
            consistency::consistent(old(self)@) ==> consistency::consistent(final(self)@),
            exists|ids: ObservationIds|
                records::drawn(ids) && scrubbed_outcome(
                    #[trigger] observe_scrubbed(
                        old(self)@,
                        source_id@,
                        identity@,
                        location@,
                        revision@,
                        committed_at_ms,
                        ids,
                    ),
                    old(self)@,
                    final(self)@,
                    result,
                ),
    {
        let ids = ObservationIds::draw();
        self.observe_scrubbed_present_with(
            source_id,
            identity,
            location,
            revision,
            committed_at_ms,
            ids,
        )
    }
}

} // verus!
