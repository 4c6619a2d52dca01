//! Source scans: generations, fingerprints, record ownership, and the grace before a deletion.
use crate::catalog::{
    CatalogError, CatalogErrorView, RegistrationView, ScanView, SourceFingerprint,
    SourceObservation, SourceRegistration, SourceScan, TombstoneGrace, MAX_STORED,
};
use crate::consistency;
use crate::domain;
use crate::domain::{
    ArchiveEvent, CanonicalRevision, EventId, EventView, IdentityView, LocationView,
    LogicalLocation, RecordId, RecordIdentity, RecordState, RevisionView,
};
use crate::ledger;
use crate::ledger::{
    CandidateRow, CandidateView, Catalog, LedgerView, ObservationRow, ObservationView,
    SourceRecordRow, SourceRecordView, SourceRow, SourceRowView,
};
use crate::records;
use crate::records::ObservationIds;
use crate::text;
use crate::text::{concat2, concat3, debug_text, decimal_text, same_text};
use vstd::prelude::*;

verus! {

/// Whether a source row carries this registration.
pub open spec fn registered_as(row: SourceRowView, registration: RegistrationView) -> bool {
    &&& row.producer_id == registration.producer_id
    &&& row.identity_schema_name == registration.identity_schema_name
    &&& row.identity_schema_version == registration.identity_schema_version
}

/// Why a registration does not fit the catalog.
pub open spec fn registration_refusal(m: LedgerView, registration: RegistrationView) -> Option<
    CatalogErrorView,
> {
    match m.source_at(registration.source_id) {
        None => Some(CatalogErrorView::SourceScanConflict("source is not registered"@)),
        Some(s) => if registered_as(m.sources[s], registration) {
            None
        } else {
            Some(CatalogErrorView::SourceRegistrationConflict(registration.source_id))
        },
    }
}

/// Why a scan is not the current one of its source.
pub open spec fn scan_refusal(m: LedgerView, scan: ScanView) -> Option<CatalogErrorView> {
    match m.source_at(scan.source_id) {
        None => Some(CatalogErrorView::SourceScanConflict("source is not registered"@)),
        Some(s) => if scan.generation != m.sources[s].next_generation || scan.generation
            <= m.sources[s].last_complete_generation {
            Some(
                CatalogErrorView::SourceScanConflict(
                    scan.source_id + " generation "@ + text::decimal(scan.generation as nat)
                        + " is not current"@,
                ),
            )
        } else {
            None
        },
    }
}

/// What beginning a scan comes to: the source's next generation.
pub open spec fn begin(m: LedgerView, registration: RegistrationView) -> Result<
    (LedgerView, u64),
    CatalogErrorView,
> {
    match m.source_at(registration.source_id) {
        Some(s) => {
            let row = m.sources[s];
            if !registered_as(row, registration) {
                Err(CatalogErrorView::SourceRegistrationConflict(registration.source_id))
            } else if row.next_generation + 1 > MAX_STORED {
                Err(
                    CatalogErrorView::Corrupt(
                        "source scan generation"@ + " exceeds SQLite INTEGER range"@,
                    ),
                )
            } else {
                let generation = (row.next_generation + 1) as u64;
                Ok(
                    (
                        LedgerView {
                            sources: m.sources.update(
                                s,
                                SourceRowView { next_generation: generation, ..row },
                            ),
                            ..m
                        },
                        generation,
                    ),
                )
            }
        },
        None => Ok(
            (
                LedgerView {
                    sources: m.sources.push(
                        SourceRowView {
                            source_id: registration.source_id,
                            producer_id: registration.producer_id,
                            identity_schema_name: registration.identity_schema_name,
                            identity_schema_version: registration.identity_schema_version,
                            next_generation: 1,
                            last_complete_generation: 0,
                        },
                    ),
                    ..m
                },
                1,
            ),
        ),
    }
}

/// Whether an observation is of this location of this source.
pub open spec fn seen_at(source_id: Seq<char>, location: LocationView) -> spec_fn(
    ObservationView,
) -> bool {
    |row: ObservationView| row.source_id == source_id && row.location == location
}

/// Whether an observation is of this location of this source in this generation.
pub open spec fn seen_in(scan: ScanView, location: LocationView) -> spec_fn(
    ObservationView,
) -> bool {
    |row: ObservationView|
        {
            &&& row.source_id == scan.source_id
            &&& row.location == location
            &&& row.last_seen_generation == scan.generation
        }
}

/// Why a fingerprint cannot be stored.
pub open spec fn fingerprint_refusal(fingerprint: SourceFingerprint) -> Option<CatalogErrorView> {
    if fingerprint.byte_length > MAX_STORED {
        Some(CatalogErrorView::Corrupt("source byte length"@ + " exceeds SQLite INTEGER range"@))
    } else if fingerprint.device matches Some(device) && device > MAX_STORED {
        Some(CatalogErrorView::Corrupt("source device"@ + " exceeds SQLite INTEGER range"@))
    } else if fingerprint.inode matches Some(inode) && inode > MAX_STORED {
        Some(CatalogErrorView::Corrupt("source inode"@ + " exceeds SQLite INTEGER range"@))
    } else {
        None
    }
}

/// The observation row behind one more look at a location.
pub open spec fn looked(
    m: LedgerView,
    scan: ScanView,
    location: LocationView,
    fingerprint: SourceFingerprint,
) -> ObservationView {
    let known = ledger::find_first(m.observations, seen_at(scan.source_id, location));
    let unchanged = known matches Some(at) && m.observations[at].fingerprint == fingerprint;
    ObservationView {
        source_id: scan.source_id,
        location,
        fingerprint,
        unchanged_observations: if unchanged {
            (m.observations[known->Some_0].unchanged_observations + 1) as u64
        } else {
            1
        },
        hash_admitted: unchanged && m.observations[known->Some_0].hash_admitted,
        last_seen_generation: scan.generation,
    }
}

/// The catalog with this observation row in the place of an older one.
pub open spec fn with_observation(m: LedgerView, row: ObservationView) -> LedgerView {
    LedgerView {
        observations: match ledger::find_first(
            m.observations,
            seen_at(row.source_id, row.location),
        ) {
            Some(at) => m.observations.update(at, row),
            None => m.observations.push(row),
        },
        ..m
    }
}

/// What looking at a fingerprint comes to: the catalog behind it, and what is known. A count that
/// no longer fits in 32 bits is kept, but cannot be told.
pub open spec fn look(
    m: LedgerView,
    scan: ScanView,
    location: LocationView,
    fingerprint: SourceFingerprint,
) -> (LedgerView, Result<SourceObservation, CatalogErrorView>) {
    let row = looked(m, scan, location, fingerprint);
    if scan_refusal(m, scan) is Some {
        (m, Err(scan_refusal(m, scan)->Some_0))
    } else if fingerprint_refusal(fingerprint) is Some {
        (m, Err(fingerprint_refusal(fingerprint)->Some_0))
    } else if row.unchanged_observations > MAX_STORED {
        (
            m,
            Err(
                CatalogErrorView::Corrupt(
                    "unchanged observations"@ + " exceeds SQLite INTEGER range"@,
                ),
            ),
        )
    } else if row.unchanged_observations > u32::MAX {
        (
            with_observation(m, row),
            Err(CatalogErrorView::Corrupt("unchanged observations exceed u32"@)),
        )
    } else {
        (
            with_observation(m, row),
            Ok(
                SourceObservation {
                    unchanged_observations: row.unchanged_observations as u32,
                    needs_hash: !row.hash_admitted,
                },
            ),
        )
    }
}

/// What admitting a hash comes to.
pub open spec fn admit_hash(m: LedgerView, scan: ScanView, location: LocationView) -> Result<
    LedgerView,
    CatalogErrorView,
> {
    if scan_refusal(m, scan) is Some {
        Err(scan_refusal(m, scan)->Some_0)
    } else {
        match ledger::find_first(m.observations, seen_in(scan, location)) {
            None => Err(
                CatalogErrorView::SourceScanConflict(
                    "source fingerprint disappeared before hash admission"@,
                ),
            ),
            Some(at) => Ok(
                LedgerView {
                    observations: m.observations.update(
                        at,
                        ObservationView { hash_admitted: true, ..m.observations[at] },
                    ),
                    ..m
                },
            ),
        }
    }
}

pub open spec fn owns(record_id: RecordId) -> spec_fn(SourceRecordView) -> bool {
    |row: SourceRecordView| row.record_id == record_id
}

pub open spec fn is_candidate(record_id: RecordId) -> spec_fn(CandidateView) -> bool {
    |row: CandidateView| row.record_id == record_id
}

pub open spec fn is_no_candidate(record_id: RecordId) -> spec_fn(CandidateView) -> bool {
    |row: CandidateView| row.record_id != record_id
}

/// What binding a record to the source that sees it comes to. A record that is seen is no longer
/// missing.
pub open spec fn bind(m: LedgerView, scan: ScanView, record_id: RecordId) -> Result<
    LedgerView,
    CatalogErrorView,
> {
    let owner = ledger::find_first(m.source_records, owns(record_id));
    let cleared = m.candidates.filter(is_no_candidate(record_id));
    match owner {
        Some(at) => if m.source_records[at].source_id != scan.source_id {
            Err(
                CatalogErrorView::SourceRegistrationConflict(
                    "record is already owned by source "@ + text::debug_form(
                        m.source_records[at].source_id,
                    ),
                ),
            )
        } else {
            Ok(
                LedgerView {
                    source_records: m.source_records.update(
                        at,
                        SourceRecordView {
                            last_seen_generation: scan.generation,
                            ..m.source_records[at]
                        },
                    ),
                    candidates: cleared,
                    ..m
                },
            )
        },
        None => Ok(
            LedgerView {
                source_records: m.source_records.push(
                    SourceRecordView {
                        source_id: scan.source_id,
                        record_id,
                        last_seen_generation: scan.generation,
                    },
                ),
                candidates: cleared,
                ..m
            },
        ),
    }
}

/// What marking a record as seen comes to. A record that is not cataloged yet is left alone.
pub open spec fn mark_seen(
    m: LedgerView,
    scan: ScanView,
    registration: RegistrationView,
    identity: IdentityView,
) -> Result<LedgerView, CatalogErrorView> {
    if identity.producer_id != registration.producer_id {
        Err(
            CatalogErrorView::SourceRegistrationConflict(
                "record producer differs from source registration"@,
            ),
        )
    } else if scan_refusal(m, scan) is Some {
        Err(scan_refusal(m, scan)->Some_0)
    } else {
        match m.record_with(identity) {
            None => Ok(m),
            Some(at) => bind(m, scan, m.records[at].id),
        }
    }
}

/// What observing a present record on behalf of a source comes to: the catalog behind it and the
/// events. The observation stands even where the record turns out to belong to another source.
pub open spec fn observe_for(
    m: LedgerView,
    scan: ScanView,
    registration: RegistrationView,
    identity: IdentityView,
    location: LocationView,
    revision: RevisionView,
    at_ms: i64,
    ids: ObservationIds,
) -> (LedgerView, Result<Seq<EventView>, CatalogErrorView>) {
    if identity.producer_id != registration.producer_id {
        (
            m,
            Err(
                CatalogErrorView::SourceRegistrationConflict(
                    "record producer differs from source registration"@,
                ),
            ),
        )
    } else if scan_refusal(m, scan) is Some {
        (m, Err(scan_refusal(m, scan)->Some_0))
    } else {
        match records::observe(m, identity, location, revision, at_ms, ids) {
            Err(error) => (m, Err(error)),
            Ok((observed, events)) => match mark_seen(observed, scan, registration, identity) {
                Err(error) => (observed, Err(error)),
                Ok(bound) => (bound, Ok(events)),
            },
        }
    }
}

/// Whether a record of this source was last seen before this generation.
pub open spec fn is_missing(scan: ScanView) -> spec_fn(SourceRecordView) -> bool {
    |row: SourceRecordView|
        row.source_id == scan.source_id && row.last_seen_generation < scan.generation
}

/// The candidate row behind one more complete scan that missed the record.
pub open spec fn missed(m: LedgerView, scan: ScanView, record_id: RecordId, at_ms: i64) -> CandidateView {
    match ledger::find_first(m.candidates, is_candidate(record_id)) {
        Some(at) => CandidateView {
            source_id: scan.source_id,
            complete_guarded_scans: (m.candidates[at].complete_guarded_scans + 1) as u64,
            ..m.candidates[at]
        },
        None => CandidateView {
            record_id,
            source_id: scan.source_id,
            first_missing_at_ms: at_ms,
            complete_guarded_scans: 1,
        },
    }
}

/// Whether a candidate has been missing long enough: over enough complete scans and enough time.
pub open spec fn grace_over(row: CandidateView, grace: TombstoneGrace, at_ms: i64) -> bool {
    &&& row.complete_guarded_scans >= grace.min_complete_scans
    &&& elapsed(row.first_missing_at_ms, at_ms) >= grace.min_elapsed_ms
}

/// The milliseconds from `first` to `last`, none where `last` is earlier, at most `i64::MAX`.
pub open spec fn elapsed(first: i64, last: i64) -> int {
    if last < first {
        0
    } else if last - first > i64::MAX {
        i64::MAX as int
    } else {
        last - first
    }
}

/// The catalog with this candidate row in the place of an older one.
pub open spec fn with_candidate(m: LedgerView, row: CandidateView) -> LedgerView {
    LedgerView {
        candidates: match ledger::find_first(m.candidates, is_candidate(row.record_id)) {
            Some(at) => m.candidates.update(at, row),
            None => m.candidates.push(row),
        },
        ..m
    }
}

/// The catalog without the candidate row of a record.
pub open spec fn without_candidate(m: LedgerView, record_id: RecordId) -> LedgerView {
    LedgerView { candidates: m.candidates.filter(is_no_candidate(record_id)), ..m }
}

/// What one complete scan that missed a record comes to: one more miss, and a deletion once the
/// grace is over.
pub open spec fn miss(
    m: LedgerView,
    scan: ScanView,
    grace: TombstoneGrace,
    at_ms: i64,
    record_id: RecordId,
    event_id: EventId,
) -> Result<(LedgerView, Seq<EventView>), CatalogErrorView> {
    let row = missed(m, scan, record_id, at_ms);
    if row.complete_guarded_scans > MAX_STORED {
        Err(
            CatalogErrorView::Corrupt(
                "complete guarded scans"@ + " exceeds SQLite INTEGER range"@,
            ),
        )
    } else {
        let counted = with_candidate(m, row);
        if !grace_over(row, grace, at_ms) {
            Ok((counted, Seq::empty()))
        } else {
            match counted.record_at(record_id) {
                None => Err(CatalogErrorView::Corrupt("source record disappeared from catalog"@)),
                Some(at) => if counted.records[at].state != RecordState::Active {
                    Ok((without_candidate(counted, record_id), Seq::empty()))
                } else {
                    match records::change_record(
                        counted,
                        at,
                        records::deletion(counted.records[at], at_ms, event_id),
                    ) {
                        Err(error) => Err(error),
                        Ok((deleted, event)) => Ok(
                            (without_candidate(deleted, record_id), seq![event]),
                        ),
                    }
                },
            }
        }
    }
}

/// What a complete scan that missed these records comes to, one record after the other.
pub open spec fn miss_all(
    m: LedgerView,
    scan: ScanView,
    grace: TombstoneGrace,
    at_ms: i64,
    missing: Seq<SourceRecordView>,
    event_ids: Seq<EventId>,
) -> Result<(LedgerView, Seq<EventView>), CatalogErrorView>
    decreases missing.len(),
{
    if missing.len() == 0 {
        Ok((m, Seq::empty()))
    } else {
        match miss_all(m, scan, grace, at_ms, missing.drop_last(), event_ids) {
            Err(error) => Err(error),
            Ok((before, events)) => match miss(
                before,
                scan,
                grace,
                at_ms,
                missing.last().record_id,
                event_ids[missing.len() - 1],
            ) {
                Err(error) => Err(error),
                Ok((after, more)) => Ok((after, events + more)),
            },
        }
    }
}

/// Whether an observation is current, or of another source.
pub open spec fn is_fresh(scan: ScanView) -> spec_fn(ObservationView) -> bool {
    |row: ObservationView|
        !(row.source_id == scan.source_id && row.last_seen_generation < scan.generation)
}

/// The catalog with a scan noted as complete: stale observations are gone.
pub open spec fn finished(m: LedgerView, scan: ScanView) -> LedgerView {
    match m.source_at(scan.source_id) {
        Some(s) => LedgerView {
            sources: m.sources.update(
                s,
                SourceRowView { last_complete_generation: scan.generation, ..m.sources[s] },
            ),
            observations: m.observations.filter(is_fresh(scan)),
            ..m
        },
        None => m,
    }
}

/// What completing a scan comes to. Without a grace, absence never deletes anything.
pub open spec fn complete(
    m: LedgerView,
    scan: ScanView,
    grace: Option<TombstoneGrace>,
    at_ms: i64,
    event_ids: Seq<EventId>,
) -> Result<(LedgerView, Seq<EventView>), CatalogErrorView> {
    if scan_refusal(m, scan) is Some {
        Err(scan_refusal(m, scan)->Some_0)
    } else {
        let missed = match grace {
            Some(grace) => miss_all(
                m,
                scan,
                grace,
                at_ms,
                m.source_records.filter(is_missing(scan)),
                event_ids,
            ),
            None => Ok((m, Seq::<EventView>::empty())),
        };
        match missed {
            Err(error) => Err(error),
            Ok((counted, events)) => Ok((finished(counted, scan), events)),
        }
    }
}

impl Catalog {
    /// Accepts a registration that the source was registered with.
    pub fn verify_source_registration(&self, registration: &SourceRegistration) -> (result: Result<
        (),
        CatalogError,
    >)
        ensures
            match result {
                Ok(_) => registration_refusal(self@, registration@) is None,
                Err(error) => registration_refusal(self@, registration@) == Some(error@),
            },
    {
        match self.find_source(registration.source_id()) {
            None => Err(CatalogError::SourceScanConflict("source is not registered".to_owned())),
            Some(s) => if self.fits(s, registration) {
                Ok(())
            } else {
                Err(
                    CatalogError::SourceRegistrationConflict(registration.source_id().to_owned()),
                )
            },
        }
    }

    /// Whether the source at this position carries this registration.
    fn fits(&self, s: usize, registration: &SourceRegistration) -> (result: bool)
        requires
            s < self.sources@.len(),
        ensures
            result == registered_as(self@.sources[s as int], registration@),
    {
        let row = &self.sources[s];
        assert(row@ == self@.sources[s as int]);
        row.producer_id == registration.producer_id() && same_text(
            row.identity_schema_name.as_str(),
            registration.identity_schema_name(),
        ) && row.identity_schema_version == registration.identity_schema_version()
    }

    /// Accepts the current scan of its source.
    pub(crate) fn ensure_current_source_scan(&self, scan: &SourceScan) -> (result: Result<
        usize,
        CatalogError,
    >)
        ensures
            match result {
                Ok(s) => scan_refusal(self@, scan@) is None && self@.source_at(scan@.source_id)
                    == Some(s as int) && s < self.sources@.len(),
                Err(error) => scan_refusal(self@, scan@) == Some(error@),
            },
    {
        let s: usize = match self.find_source(scan.source_id()) {
            None => {
                return Err(
                    CatalogError::SourceScanConflict("source is not registered".to_owned()),
                );
            },
            Some(s) => s,
        };
        assert(self.sources@[s as int]@ == self@.sources[s as int]);
        if scan.generation() != self.sources[s].next_generation || scan.generation()
            <= self.sources[s].last_complete_generation {
            let mut message = concat3(
                scan.source_id(),
                " generation ",
                decimal_text(scan.generation()).as_str(),
            );
            message.append(" is not current");
            return Err(CatalogError::SourceScanConflict(message));
        }
        Ok(s)
    }

    /// Replaces one source row by a storable one.
    fn replace_source(&mut self, s: usize, row: SourceRow)
        requires
            old(self).wf(),
            s < old(self).sources@.len(),
            ledger::source_ok(row@),
        ensures
            final(self).wf(),
            final(self)@ == (LedgerView {
                sources: old(self)@.sources.update(s as int, row@),
                ..old(self)@
            }),
    {
        let ghost before = *self;
        self.sources.set(s, row);
        proof {
            text::lemma_views_update(before.sources@, s as int, row);
            assert forall|i: int| 0 <= i < self@.sources.len() implies ledger::source_ok(
                #[trigger] self@.sources[i],
            ) by {
                if i != s {
                    assert(ledger::source_ok(before@.sources[i]));
                }
            }
        }
    }

    /// Begins a source generation after the filesystem adapter's initial root guard has passed. An
    /// unfinished generation can never cause tombstones.
    pub fn begin_source_scan(&mut self, registration: &SourceRegistration) -> (result: Result<
        SourceScan,
        CatalogError,
    >)
        requires
            old(self).wf(),
        ensures
            final(self).wf(),
            consistency::consistent(old(self)@) ==> consistency::consistent(final(self)@),
            match begin(old(self)@, registration@) {
                Ok((next, generation)) => {
                    &&& result matches Ok(scan)
                    &&& scan@ == (ScanView { source_id: registration@.source_id, generation })
                    &&& final(self)@ == next
                },
                Err(expected) => {
                    &&& result matches Err(error)
                    &&& error@ == expected
                    &&& final(self)@ == old(self)@
                },
            },
    {
        assert(consistency::consistent(self@) ==> (begin(self@, registration@) matches Ok(
            (next, generation),
        ) ==> consistency::consistent(next))) by {
            if consistency::consistent(self@) && begin(self@, registration@) is Ok {
                consistency::lemma_same_core(self@, begin(self@, registration@)->Ok_0.0);
            }
        }
        proof {
            use_type_invariant(registration);
        }
        match self.find_source(registration.source_id()) {
            Some(s) => {
                if !self.fits(s, registration) {
                    return Err(
                        CatalogError::SourceRegistrationConflict(
                            registration.source_id().to_owned(),
                        ),
                    );
                }
                assert(self.sources@[s as int]@ == self@.sources[s as int]);
                assert(ledger::source_ok(self@.sources[s as int]));
                if self.sources[s].next_generation >= MAX_STORED {
                    return Err(
                        CatalogError::Corrupt(
                            concat2("source scan generation", " exceeds SQLite INTEGER range"),
                        ),
                    );
                }
                let mut row = self.sources[s].clone();
                let generation: u64 = row.next_generation + 1;
                row.next_generation = generation;
                self.replace_source(s, row);
                Ok(SourceScan::of(registration.source_id(), generation))
            },
            None => {
                let ghost before = *self;
                let row = SourceRow {
                    source_id: registration.source_id().to_owned(),
                    producer_id: registration.producer_id(),
                    identity_schema_name: registration.identity_schema_name().to_owned(),
                    identity_schema_version: registration.identity_schema_version(),
                    next_generation: 1,
                    last_complete_generation: 0,
                };
                self.sources.push(row);
                proof {
                    text::lemma_views_push(before.sources@, row);
                    assert forall|i: int| 0 <= i < self@.sources.len() implies ledger::source_ok(
                        #[trigger] self@.sources[i],
                    ) by {
                        if i < before@.sources.len() {
                            assert(ledger::source_ok(before@.sources[i]));
                        }
                    }
                }
                Ok(SourceScan::of(registration.source_id(), 1))
            },
        }
    }

    /// The position of the observation of this location of this source.
    fn find_observation(&self, source_id: &str, location: &LogicalLocation) -> (result: Option<
        usize,
    >)
        ensures
            match result {
                Some(at) => at < self.observations@.len() && ledger::find_first(
                    self@.observations,
                    seen_at(source_id@, location@),
                ) == Some(at as int),
                None => ledger::find_first(self@.observations, seen_at(source_id@, location@))
                    is None,
            },
    {
        let mut i: usize = 0;
        while i < self.observations.len()
            invariant
                i <= self.observations@.len(),
                forall|j: int|
                    0 <= j < i ==> !(#[trigger] seen_at(source_id@, location@)(
                        self@.observations[j],
                    )),
            decreases self.observations@.len() - i,
        {
            assert(self.observations@[i as int]@ == self@.observations[i as int]);
            if same_text(self.observations[i].source_id.as_str(), source_id)
                && self.observations[i].location.same(location) {
                proof {
                    assert forall|j: int| 0 <= j < i implies !seen_at(source_id@, location@)(
                        #[trigger] self@.observations[j],
                    ) by {
                        assert(!seen_at(source_id@, location@)(self@.observations[j]));
                    }
                    ledger::lemma_found(
                        self@.observations,
                        seen_at(source_id@, location@),
                        i as int,
                    );
                }
                return Some(i);
            }
            assert(!seen_at(source_id@, location@)(self@.observations[i as int]));
            i += 1;
        }
        proof {
            assert forall|j: int| 0 <= j < self@.observations.len() implies !seen_at(
                source_id@,
                location@,
            )(#[trigger] self@.observations[j]) by {
                assert(!seen_at(source_id@, location@)(self@.observations[j]));
            }
            ledger::lemma_not_found(self@.observations, seen_at(source_id@, location@));
        }
        None
    }

    /// Persists one cheap fingerprint and says whether this stable fingerprint still requires a
    /// full hash. An admitted hash is marked separately only after source and root verification
    /// allows its catalog commit.
    pub fn observe_source_fingerprint(
        &mut self,
        scan: &SourceScan,
        location: &LogicalLocation,
        fingerprint: &SourceFingerprint,
    ) -> (result: Result<SourceObservation, CatalogError>)
        requires
            old(self).wf(),
        ensures
            final(self).wf(),
            consistency::consistent(old(self)@) ==> consistency::consistent(final(self)@),
            final(self)@ == look(old(self)@, scan@, location@, *fingerprint).0,
            match look(old(self)@, scan@, location@, *fingerprint).1 {
                Ok(expected) => result == Ok::<SourceObservation, CatalogError>(expected),
                Err(expected) => result is Err && result->Err_0@ == expected,
            },
    {
        assert(consistency::consistent(self@) ==> consistency::consistent(
            look(self@, scan@, location@, *fingerprint).0,
        )) by {
            if consistency::consistent(self@) {
                consistency::lemma_same_core(
                    self@,
                    look(self@, scan@, location@, *fingerprint).0,
                );
            }
        }
        let s: usize = match self.ensure_current_source_scan(scan) {
            Ok(s) => s,
            Err(error) => {
                return Err(error);
            },
        };
        proof {
            use_type_invariant(location);
            assert(ledger::source_ok(self@.sources[s as int]));
            ledger::lemma_find_first(self@.sources, ledger::has_source_id(scan@.source_id));
            assert(scan@.generation <= MAX_STORED);
        }
        match crate::catalog::as_i64(fingerprint.byte_length, "source byte length") {
            Ok(_) => {},
            Err(error) => {
                return Err(error);
            },
        }
        match crate::catalog::optional_as_i64(fingerprint.device, "source device") {
            Ok(_) => {},
            Err(error) => {
                return Err(error);
            },
        }
        match crate::catalog::optional_as_i64(fingerprint.inode, "source inode") {
            Ok(_) => {},
            Err(error) => {
                return Err(error);
            },
        }
        let known = self.find_observation(scan.source_id(), location);
        let mut unchanged_observations: u64 = 1;
        let mut hash_admitted: bool = false;
        if let Some(at) = known {
            assert(self.observations@[at as int]@ == self@.observations[at as int]);
            assert(ledger::observation_ok(self@.observations[at as int]));
            if self.observations[at].fingerprint == *fingerprint {
                unchanged_observations = self.observations[at].unchanged_observations + 1;
                hash_admitted = self.observations[at].hash_admitted;
            }
        }
        if unchanged_observations > MAX_STORED {
            return Err(
                CatalogError::Corrupt(
                    concat2("unchanged observations", " exceeds SQLite INTEGER range"),
                ),
            );
        }
        let row = ObservationRow {
            source_id: scan.source_id().to_owned(),
            location: location.clone(),
            fingerprint: *fingerprint,
            unchanged_observations,
            hash_admitted,
            last_seen_generation: scan.generation(),
        };
        let ghost before = *self;
        assert(row@ == looked(before@, scan@, location@, *fingerprint));
        match known {
            Some(at) => {
                self.observations.set(at, row);
                proof {
                    text::lemma_views_update(before.observations@, at as int, row);
                }
            },
            None => {
                self.observations.push(row);
                proof {
                    text::lemma_views_push(before.observations@, row);
                }
            },
        }
        proof {
            assert forall|i: int| 0 <= i < self@.observations.len() implies ledger::observation_ok(
                #[trigger] self@.observations[i],
            ) by {
                if i < before@.observations.len() && known != Some(i as usize) {
                    assert(ledger::observation_ok(before@.observations[i]));
                    assert(self@.observations[i] == before@.observations[i]);
                }
            }
            assert(self@ =~= with_observation(before@, row@));
        }
        if unchanged_observations > 0xffff_ffff {
            return Err(CatalogError::Corrupt("unchanged observations exceed u32".to_owned()));
        }
        Ok(
            SourceObservation {
                unchanged_observations: unchanged_observations as u32,
                needs_hash: !hash_admitted,
            },
        )
    }

    /// Notes that the bytes behind a fingerprint of this scan have been hashed and admitted.
    pub fn mark_source_fingerprint_hashed(
        &mut self,
        scan: &SourceScan,
        location: &LogicalLocation,
    ) -> (result: Result<(), CatalogError>)
        requires
            old(self).wf(),
        ensures
            final(self).wf(),
            consistency::consistent(old(self)@) ==> consistency::consistent(final(self)@),
            ledger_outcome(
                admit_hash(old(self)@, scan@, location@),
                old(self)@,
                final(self)@,
                result,
            ),
    {
        assert(consistency::consistent(self@) ==> (admit_hash(self@, scan@, location@) matches Ok(
            next,
        ) ==> consistency::consistent(next))) by {
            if consistency::consistent(self@) && admit_hash(self@, scan@, location@) is Ok {
                consistency::lemma_same_core(
                    self@,
                    admit_hash(self@, scan@, location@)->Ok_0,
                );
            }
        }
        match self.ensure_current_source_scan(scan) {
            Ok(_) => {},
            Err(error) => {
                return Err(error);
            },
        }
        let ghost before = *self;
        let mut i: usize = 0;
        while i < self.observations.len()
            invariant
                i <= self.observations@.len(),
                *self == before,
                before == *old(self),
                self.wf(),
                scan_refusal(self@, scan@) is None,
                forall|j: int|
                    0 <= j < i ==> !(#[trigger] seen_in(scan@, location@)(self@.observations[j])),
            decreases self.observations@.len() - i,
        {
            assert(self.observations@[i as int]@ == self@.observations[i as int]);
            if same_text(self.observations[i].source_id.as_str(), scan.source_id())
                && self.observations[i].location.same(location)
                && self.observations[i].last_seen_generation == scan.generation() {
                proof {
                    assert forall|j: int| 0 <= j < i implies !seen_in(scan@, location@)(
                        #[trigger] self@.observations[j],
                    ) by {
                        assert(!seen_in(scan@, location@)(self@.observations[j]));
                    }
                    ledger::lemma_found(self@.observations, seen_in(scan@, location@), i as int);
                }
                let mut row = self.observations[i].clone();
                row.hash_admitted = true;
                self.observations.set(i, row);
                proof {
                    text::lemma_views_update(before.observations@, i as int, row);
                    assert forall|k: int| 0 <= k < self@.observations.len() implies ledger::observation_ok(
                    #[trigger] self@.observations[k]) by {
                        assert(ledger::observation_ok(before@.observations[k]));
                    }
                }
                return Ok(());
            }
            assert(!seen_in(scan@, location@)(self@.observations[i as int]));
            i += 1;
        }
        proof {
            assert forall|j: int| 0 <= j < self@.observations.len() implies !seen_in(
                scan@,
                location@,
            )(#[trigger] self@.observations[j]) by {
                assert(!seen_in(scan@, location@)(self@.observations[j]));
            }
            ledger::lemma_not_found(self@.observations, seen_in(scan@, location@));
        }
        Err(
            CatalogError::SourceScanConflict(
                "source fingerprint disappeared before hash admission".to_owned(),
            ),
        )
    }
}

/// What an operation came to, against what it should.
pub open spec fn ledger_outcome(
    expected: Result<LedgerView, CatalogErrorView>,
    before: LedgerView,
    after: LedgerView,
    result: Result<(), CatalogError>,
) -> bool {
    match expected {
        Ok(next) => result is Ok && after == next,
        Err(expected_error) => {
            &&& result matches Err(error)
            &&& error@ == expected_error
            &&& after == before
        },
    }
}

/// The candidates but for those of this record.
fn clear_candidates(rows: &Vec<CandidateRow>, record_id: RecordId) -> (result: Vec<CandidateRow>)
    ensures
        text::views(result@) == text::views(rows@).filter(is_no_candidate(record_id)),
{
    let ghost all = text::views(rows@);
    let mut list: Vec<CandidateRow> = Vec::new();
    let mut i: usize = 0;
    proof {
        reveal(Seq::filter);
        assert(text::views(list@) =~= all.take(0).filter(is_no_candidate(record_id)));
    }
    while i < rows.len()
        invariant
            i <= rows@.len(),
            all == text::views(rows@),
            text::views(list@) == all.take(i as int).filter(is_no_candidate(record_id)),
        decreases rows@.len() - i,
    {
        proof {
            let taken = all.take(i as int);
            assert(all.take(i + 1) =~= taken.push(all[i as int]));
            taken.lemma_filter_push(all[i as int], is_no_candidate(record_id));
            assert(rows@[i as int]@ == all[i as int]);
        }
        if rows[i].record_id != record_id {
            let copy = rows[i].clone();
            proof {
                text::lemma_views_push(list@, copy);
            }
            list.push(copy);
        }
        i += 1;
    }
    assert(all.take(all.len() as int) =~= all);
    list
}

/// What passes a filter was there before.
proof fn lemma_filtered_candidates_ok(rows: Seq<CandidateView>, record_id: RecordId)
    requires
        forall|i: int| 0 <= i < rows.len() ==> ledger::candidate_ok(#[trigger] rows[i]),
    ensures
        forall|i: int|
            0 <= i < rows.filter(is_no_candidate(record_id)).len() ==> ledger::candidate_ok(
                #[trigger] rows.filter(is_no_candidate(record_id))[i],
            ),
{
    let kept = rows.filter(is_no_candidate(record_id));
    assert forall|i: int| 0 <= i < kept.len() implies ledger::candidate_ok(#[trigger] kept[i]) by {
        rows.lemma_filter_contains_rev(is_no_candidate(record_id), kept[i]);
        let j = choose|j: int| 0 <= j < rows.len() && rows[j] == kept[i];
        assert(ledger::candidate_ok(rows[j]));
    }
}

impl Catalog {
    /// The position of the ownership row of a record.
    fn find_owner(&self, record_id: RecordId) -> (result: Option<usize>)
        ensures
            match result {
                Some(at) => at < self.source_records@.len() && ledger::find_first(
                    self@.source_records,
                    owns(record_id),
                ) == Some(at as int),
                None => ledger::find_first(self@.source_records, owns(record_id)) is None,
            },
    {
        let mut i: usize = 0;
        while i < self.source_records.len()
            invariant
                i <= self.source_records@.len(),
                forall|j: int| 0 <= j < i ==> self@.source_records[j].record_id != record_id,
            decreases self.source_records@.len() - i,
        {
            if self.source_records[i].record_id == record_id {
                proof {
                    ledger::lemma_found(self@.source_records, owns(record_id), i as int);
                }
                return Some(i);
            }
            i += 1;
        }
        proof {
            ledger::lemma_not_found(self@.source_records, owns(record_id));
        }
        None
    }

    /// Binds a record to the source that sees it.
    fn bind_source_record(&mut self, scan: &SourceScan, record_id: RecordId) -> (result: Result<
        (),
        CatalogError,
    >)
        requires
            old(self).wf(),
            scan@.generation <= MAX_STORED,
        ensures
            final(self).wf(),
            ledger_outcome(bind(old(self)@, scan@, record_id), old(self)@, final(self)@, result),
    {
        let ghost before = *self;
        let owner = self.find_owner(record_id);
        if let Some(at) = owner {
            assert(self.source_records@[at as int]@ == self@.source_records[at as int]);
            if !same_text(self.source_records[at].source_id.as_str(), scan.source_id()) {
                return Err(
                    CatalogError::SourceRegistrationConflict(
                        concat2(
                            "record is already owned by source ",
                            debug_text(self.source_records[at].source_id.as_str()).as_str(),
                        ),
                    ),
                );
            }
        }
        match owner {
            Some(at) => {
                let mut row = self.source_records[at].clone();
                row.last_seen_generation = scan.generation();
                self.source_records.set(at, row);
                proof {
                    text::lemma_views_update(before.source_records@, at as int, row);
                }
            },
            None => {
                let row = SourceRecordRow {
                    source_id: scan.source_id().to_owned(),
                    record_id,
                    last_seen_generation: scan.generation(),
                };
                self.source_records.push(row);
                proof {
                    text::lemma_views_push(before.source_records@, row);
                }
            },
        }
        self.candidates = clear_candidates(&self.candidates, record_id);
        proof {
            lemma_filtered_candidates_ok(before@.candidates, record_id);
            assert forall|i: int| 0 <= i < self@.source_records.len() implies ledger::source_record_ok(
            #[trigger] self@.source_records[i]) by {
                if i < before@.source_records.len() && owner != Some(i as usize) {
                    assert(ledger::source_record_ok(before@.source_records[i]));
                    assert(self@.source_records[i] == before@.source_records[i]);
                }
            }
            assert(self@ =~= bind(before@, scan@, record_id)->Ok_0);
        }
        Ok(())
    }

    /// The generation of a current scan can be stored.
    proof fn lemma_generation(&self, scan: ScanView)
        requires
            self.wf(),
            scan_refusal(self@, scan) is None,
        ensures
            scan.generation <= MAX_STORED,
    {
        ledger::lemma_find_first(self@.sources, ledger::has_source_id(scan.source_id));
        let s = self@.source_at(scan.source_id)->Some_0;
        assert(ledger::source_ok(self@.sources[s]));
    }

    /// Marks an already cataloged record as present in this scan. Calling it for a
    /// new-but-not-yet-stable record is intentionally a no-op.
    pub fn mark_source_record_seen(
        &mut self,
        scan: &SourceScan,
        registration: &SourceRegistration,
        identity: &RecordIdentity,
    ) -> (result: Result<(), CatalogError>)
        requires
            old(self).wf(),
        ensures
            final(self).wf(),
            consistency::consistent(old(self)@) ==> consistency::consistent(final(self)@),
            ledger_outcome(
                mark_seen(old(self)@, scan@, registration@, identity@),
                old(self)@,
                final(self)@,
                result,
            ),
    {
        assert(consistency::consistent(self@) ==> (mark_seen(
            self@,
            scan@,
            registration@,
            identity@,
        ) matches Ok(next) ==> consistency::consistent(next))) by {
            let marked = mark_seen(self@, scan@, registration@, identity@);
            if consistency::consistent(self@) && marked is Ok {
                consistency::lemma_same_core(self@, marked->Ok_0);
            }
        }
        if identity.producer_id() != registration.producer_id() {
            return Err(
                CatalogError::SourceRegistrationConflict(
                    "record producer differs from source registration".to_owned(),
                ),
            );
        }
        match self.ensure_current_source_scan(scan) {
            Ok(_) => {},
            Err(error) => {
                return Err(error);
            },
        }
        proof {
            self.lemma_generation(scan@);
        }
        match self.find_record(identity) {
            None => Ok(()),
            Some(at) => {
                assert(self.records@[at as int]@ == self@.records[at as int]);
                let record_id = self.records[at].id;
                self.bind_source_record(scan, record_id)
            },
        }
    }

    /// Observes a present record on behalf of a source, at this time and with these identifiers.
    pub fn observe_present_from_source_with(
        &mut self,
        scan: &SourceScan,
        registration: &SourceRegistration,
        identity: &RecordIdentity,
        location: &LogicalLocation,
        revision: CanonicalRevision,
        at_ms: i64,
        ids: ObservationIds,
    ) -> (result: Result<Vec<ArchiveEvent>, CatalogError>)
        requires
            old(self).wf(),
        ensures
            final(self).wf(),
            consistency::consistent(old(self)@) ==> consistency::consistent(final(self)@),
            observed_for(
                observe_for(
                    old(self)@,
                    scan@,
                    registration@,
                    identity@,
                    location@,
                    revision@,
                    at_ms,
                    ids,
                ),
                final(self)@,
                result,
            ),
    {
        if identity.producer_id() != registration.producer_id() {
            return Err(
                CatalogError::SourceRegistrationConflict(
                    "record producer differs from source registration".to_owned(),
                ),
            );
        }
        match self.ensure_current_source_scan(scan) {
            Ok(_) => {},
            Err(error) => {
                return Err(error);
            },
        }
        let events = match self.observe_present_with(identity, location, revision, at_ms, ids) {
            Ok(events) => events,
            Err(error) => {
                return Err(error);
            },
        };
        match self.mark_source_record_seen(scan, registration, identity) {
            Ok(_) => Ok(events),
            Err(error) => Err(error),
        }
    }

    /// Observes a present record on behalf of a source, at the time of the call.
    pub fn observe_present_from_source(
        &mut self,
        scan: &SourceScan,
        registration: &SourceRegistration,
        identity: &RecordIdentity,
        location: &LogicalLocation,
        revision: CanonicalRevision,
    ) -> (result: Result<Vec<ArchiveEvent>, CatalogError>)
        requires
            old(self).wf(),
        ensures
            final(self).wf(),
            consistency::consistent(old(self)@) ==> consistency::consistent(final(self)@),
            ({
                &&& final(self)@ == old(self)@
                &&& records::clock_refused(result)
                &&& identity@.producer_id == registration@.producer_id
                &&& scan_refusal(old(self)@, scan@) is None
            }) || exists|at_ms: i64, ids: ObservationIds|
                at_ms >= 0 && records::drawn(ids) && observed_for(
                    #[trigger] observe_for(
                        old(self)@,
                        scan@,
                        registration@,
                        identity@,
                        location@,
                        revision@,
                        at_ms,
                        ids,
                    ),
                    final(self)@,
                    result,
                ),
    {
        let ids = ObservationIds::draw();
        if identity.producer_id() != registration.producer_id() || self.ensure_current_source_scan(
            scan,
        ).is_err() {
            return self.observe_present_from_source_with(
                scan,
                registration,
                identity,
                location,
                revision,
                0,
                ids,
            );
        }
        match crate::clock::now_ms() {
            Ok(now) => self.observe_present_from_source_with(
                scan,
                registration,
                identity,
                location,
                revision,
                now,
                ids,
            ),
            Err(error) => Err(error),
        }
    }
}

/// What an observation on behalf of a source came to, against what it should.
pub open spec fn observed_for(
    expected: (LedgerView, Result<Seq<EventView>, CatalogErrorView>),
    after: LedgerView,
    result: Result<Vec<ArchiveEvent>, CatalogError>,
) -> bool {
    &&& after == expected.0
    &&& match expected.1 {
        Ok(events) => {
            &&& result matches Ok(list)
            &&& text::views(list@) == events
        },
        Err(expected_error) => {
            &&& result matches Err(error)
            &&& error@ == expected_error
        },
    }
}

/// The records of this source that were last seen before this generation.
fn missing_rows(rows: &Vec<SourceRecordRow>, scan: &SourceScan) -> (result: Vec<SourceRecordRow>)
    ensures
        text::views(result@) == text::views(rows@).filter(is_missing(scan@)),
        result@.len() <= rows@.len(),
{
    let ghost all = text::views(rows@);
    let mut list: Vec<SourceRecordRow> = Vec::new();
    let mut i: usize = 0;
    proof {
        reveal(Seq::filter);
        assert(text::views(list@) =~= all.take(0).filter(is_missing(scan@)));
    }
    while i < rows.len()
        invariant
            i <= rows@.len(),
            list@.len() <= i,
            all == text::views(rows@),
            text::views(list@) == all.take(i as int).filter(is_missing(scan@)),
        decreases rows@.len() - i,
    {
        proof {
            let taken = all.take(i as int);
            assert(all.take(i + 1) =~= taken.push(all[i as int]));
            taken.lemma_filter_push(all[i as int], is_missing(scan@));
            assert(rows@[i as int]@ == all[i as int]);
        }
        if same_text(rows[i].source_id.as_str(), scan.source_id()) && rows[i].last_seen_generation
            < scan.generation() {
            let copy = rows[i].clone();
            proof {
                text::lemma_views_push(list@, copy);
            }
            list.push(copy);
        }
        i += 1;
    }
    assert(all.take(all.len() as int) =~= all);
    list
}

/// The observations that are current, or of another source.
fn fresh_rows(rows: &Vec<ObservationRow>, scan: &SourceScan) -> (result: Vec<ObservationRow>)
    ensures
        text::views(result@) == text::views(rows@).filter(is_fresh(scan@)),
{
    let ghost all = text::views(rows@);
    let mut list: Vec<ObservationRow> = Vec::new();
    let mut i: usize = 0;
    proof {
        reveal(Seq::filter);
        assert(text::views(list@) =~= all.take(0).filter(is_fresh(scan@)));
    }
    while i < rows.len()
        invariant
            i <= rows@.len(),
            all == text::views(rows@),
            text::views(list@) == all.take(i as int).filter(is_fresh(scan@)),
        decreases rows@.len() - i,
    {
        proof {
            let taken = all.take(i as int);
            assert(all.take(i + 1) =~= taken.push(all[i as int]));
            taken.lemma_filter_push(all[i as int], is_fresh(scan@));
            assert(rows@[i as int]@ == all[i as int]);
        }
        if !(same_text(rows[i].source_id.as_str(), scan.source_id()) && rows[i].last_seen_generation
            < scan.generation()) {
            let copy = rows[i].clone();
            proof {
                text::lemma_views_push(list@, copy);
            }
            list.push(copy);
        }
        i += 1;
    }
    assert(all.take(all.len() as int) =~= all);
    list
}

/// Whole milliseconds from `first` to `last`, none where `last` is earlier.
fn elapsed_ms(first: i64, last: i64) -> (result: u64)
    ensures
        result == elapsed(first, last),
{
    if last < first {
        0
    } else {
        let span: i128 = last as i128 - first as i128;
        if span > 0x7fff_ffff_ffff_ffff {
            0x7fff_ffff_ffff_ffff
        } else {
            span as u64
        }
    }
}

/// Neither a miss nor a deletion touches source rows, observations or ownership.
pub open spec fn same_sources(a: LedgerView, b: LedgerView) -> bool {
    &&& a.sources == b.sources
    &&& a.observations == b.observations
    &&& a.source_records == b.source_records
    &&& a.scrubs == b.scrubs
    &&& a.subscriptions == b.subscriptions
    &&& a.revisions == b.revisions
}

impl Catalog {
    /// The position of the candidate row of a record.
    fn find_candidate(&self, record_id: RecordId) -> (result: Option<usize>)
        ensures
            match result {
                Some(at) => at < self.candidates@.len() && ledger::find_first(
                    self@.candidates,
                    is_candidate(record_id),
                ) == Some(at as int) && self@.candidates[at as int].record_id == record_id,
                None => ledger::find_first(self@.candidates, is_candidate(record_id)) is None,
            },
    {
        let mut i: usize = 0;
        while i < self.candidates.len()
            invariant
                i <= self.candidates@.len(),
                forall|j: int| 0 <= j < i ==> self@.candidates[j].record_id != record_id,
            decreases self.candidates@.len() - i,
        {
            if self.candidates[i].record_id == record_id {
                proof {
                    ledger::lemma_found(self@.candidates, is_candidate(record_id), i as int);
                }
                return Some(i);
            }
            i += 1;
        }
        proof {
            ledger::lemma_not_found(self@.candidates, is_candidate(record_id));
        }
        None
    }

    /// Puts a candidate row in the place of an older one of the same record.
    fn put_candidate(&mut self, known: Option<usize>, row: CandidateRow)
        requires
            old(self).wf(),
            ledger::candidate_ok(row@),
            match known {
                Some(at) => at < old(self).candidates@.len() && ledger::find_first(
                    old(self)@.candidates,
                    is_candidate(row@.record_id),
                ) == Some(at as int),
                None => ledger::find_first(old(self)@.candidates, is_candidate(row@.record_id))
                    is None,
            },
        ensures
            final(self).wf(),
            final(self)@ == with_candidate(old(self)@, row@),
    {
        let ghost before = *self;
        match known {
            Some(at) => {
                self.candidates.set(at, row);
                proof {
                    text::lemma_views_update(before.candidates@, at as int, row);
                }
            },
            None => {
                self.candidates.push(row);
                proof {
                    text::lemma_views_push(before.candidates@, row);
                }
            },
        }
        proof {
            assert forall|i: int| 0 <= i < self@.candidates.len() implies ledger::candidate_ok(
                #[trigger] self@.candidates[i],
            ) by {
                if i < before@.candidates.len() && known != Some(i as usize) {
                    assert(ledger::candidate_ok(before@.candidates[i]));
                    assert(self@.candidates[i] == before@.candidates[i]);
                }
            }
            assert(self@ =~= with_candidate(before@, row@));
        }
    }

    /// Drops the candidate row of a record.
    fn drop_candidate(&mut self, record_id: RecordId)
        requires
            old(self).wf(),
        ensures
            final(self).wf(),
            final(self)@ == without_candidate(old(self)@, record_id),
    {
        let ghost before = *self;
        self.candidates = clear_candidates(&self.candidates, record_id);
        proof {
            lemma_filtered_candidates_ok(before@.candidates, record_id);
            assert(self@ =~= without_candidate(before@, record_id));
        }
    }

    /// Counts one more miss of a record, and deletes it once the grace is over. Where this is
    /// refused, the catalog may have changed and is to be discarded.
    fn note_miss(
        &mut self,
        scan: &SourceScan,
        grace: TombstoneGrace,
        at_ms: i64,
        record_id: RecordId,
        event_id: EventId,
    ) -> (result: Result<Option<ArchiveEvent>, CatalogError>)
        requires
            old(self).wf(),
        ensures
            final(self).wf(),
            match miss(old(self)@, scan@, grace, at_ms, record_id, event_id) {
                Ok((next, events)) => {
                    &&& result matches Ok(event)
                    &&& final(self)@ == next
                    &&& events == (match event {
                        Some(event) => seq![event@],
                        None => Seq::empty(),
                    })
                },
                Err(expected) => result is Err && result->Err_0@ == expected,
            },
    {
        let known = self.find_candidate(record_id);
        let row = match known {
            Some(at) => {
                assert(self.candidates@[at as int]@ == self@.candidates[at as int]);
                assert(ledger::candidate_ok(self@.candidates[at as int]));
                CandidateRow {
                    record_id,
                    source_id: scan.source_id().to_owned(),
                    first_missing_at_ms: self.candidates[at].first_missing_at_ms,
                    complete_guarded_scans: self.candidates[at].complete_guarded_scans + 1,
                }
            },
            None => CandidateRow {
                record_id,
                source_id: scan.source_id().to_owned(),
                first_missing_at_ms: at_ms,
                complete_guarded_scans: 1,
            },
        };
        assert(row@ == missed(self@, scan@, record_id, at_ms));
        if row.complete_guarded_scans > MAX_STORED {
            return Err(
                CatalogError::Corrupt(
                    concat2("complete guarded scans", " exceeds SQLite INTEGER range"),
                ),
            );
        }
        let over: bool = row.complete_guarded_scans >= grace.min_complete_scans as u64
            && elapsed_ms(row.first_missing_at_ms, at_ms) >= grace.min_elapsed_ms;
        assert(over == grace_over(row@, grace, at_ms));
        self.put_candidate(known, row);
        if !over {
            return Ok(None);
        }
        let at: usize = match self.find_record_by_id(record_id) {
            Some(at) => at,
            None => {
                return Err(
                    CatalogError::Corrupt("source record disappeared from catalog".to_owned()),
                );
            },
        };
        assert(self.records@[at as int]@ == self@.records[at as int]);
        let mut event: Option<ArchiveEvent> = None;
        if self.records[at].state == RecordState::Active {
            match self.tombstone_row(at, at_ms, event_id) {
                Ok(made) => {
                    event = Some(made);
                },
                Err(error) => {
                    return Err(error);
                },
            }
        }
        self.drop_candidate(record_id);
        Ok(event)
    }

    /// Counts one more miss of each of these records.
    fn note_misses(
        &mut self,
        scan: &SourceScan,
        grace: TombstoneGrace,
        at_ms: i64,
        missing: &Vec<SourceRecordRow>,
        event_ids: &Vec<EventId>,
    ) -> (result: Result<Vec<ArchiveEvent>, CatalogError>)
        requires
            old(self).wf(),
            missing@.len() <= event_ids@.len(),
        ensures
            final(self).wf(),
            match miss_all(
                old(self)@,
                scan@,
                grace,
                at_ms,
                text::views(missing@),
                event_ids@,
            ) {
                Ok((next, events)) => {
                    &&& result matches Ok(list)
                    &&& final(self)@ == next
                    &&& text::views(list@) == events
                },
                Err(expected) => result is Err && result->Err_0@ == expected,
            },
    {
        let ghost all = text::views(missing@);
        let ghost m = self@;
        let mut events: Vec<ArchiveEvent> = Vec::new();
        let mut k: usize = 0;
        assert(all.take(0) =~= Seq::<SourceRecordView>::empty());
        assert(text::views(events@) =~= Seq::<EventView>::empty());
        while k < missing.len()
            invariant
                k <= missing@.len() <= event_ids@.len(),
                all == text::views(missing@),
                m == old(self)@,
                self.wf(),
                miss_all(m, scan@, grace, at_ms, all.take(k as int), event_ids@) == Ok::<
                    (LedgerView, Seq<EventView>),
                    CatalogErrorView,
                >((self@, text::views(events@))),
            decreases missing@.len() - k,
        {
            let ghost now = all.take(k + 1);
            let ghost before = self@;
            let ghost list = text::views(events@);
            proof {
                assert(now.drop_last() =~= all.take(k as int));
                assert(now.last() == all[k as int]);
                assert(missing@[k as int]@ == all[k as int]);
            }
            match self.note_miss(scan, grace, at_ms, missing[k].record_id, event_ids[k]) {
                Ok(event) => {
                    match event {
                        Some(event) => {
                            proof {
                                text::lemma_views_push(events@, event);
                                assert(list.push(event@) =~= list + seq![event@]);
                            }
                            events.push(event);
                        },
                        None => {
                            assert(list + Seq::<EventView>::empty() =~= list);
                        },
                    }
                },
                Err(error) => {
                    proof {
                        lemma_miss_all_refused(
                            m,
                            scan@,
                            grace,
                            at_ms,
                            all,
                            event_ids@,
                            k + 1,
                            error@,
                        );
                    }
                    return Err(error);
                },
            }
            k += 1;
        }
        assert(all.take(all.len() as int) =~= all);
        Ok(events)
    }

    /// Completes a full, guard-verified scan, with these identifiers for deletion events. `None`
    /// records a complete scan and clears stale fingerprints, but never converts absence to a
    /// tombstone. A grace is allowed only after the adapter has verified every configured root
    /// both before and after discovery and hashing.
    pub fn complete_source_scan_with(
        &mut self,
        scan: &SourceScan,
        tombstone_grace: Option<TombstoneGrace>,
        committed_at_ms: i64,
        event_ids: &Vec<EventId>,
    ) -> (result: Result<Vec<ArchiveEvent>, CatalogError>)
        requires
            old(self).wf(),
            event_ids@.len() >= old(self)@.source_records.len(),
        ensures
            final(self).wf(),
            consistency::consistent(old(self)@) ==> consistency::consistent(final(self)@),
            records::events_outcome(
                complete(old(self)@, scan@, tombstone_grace, committed_at_ms, event_ids@),
                old(self)@,
                final(self)@,
                result,
            ),
    {
        let ghost expected = complete(self@, scan@, tombstone_grace, committed_at_ms, event_ids@);
        assert(consistency::consistent(self@) && expected is Ok ==> consistency::consistent(
            expected->Ok_0.0,
        )) by {
            if consistency::consistent(self@) {
                consistency::law_complete_keeps_consistent(
                    self@,
                    scan@,
                    tombstone_grace,
                    committed_at_ms,
                    event_ids@,
                );
            }
        }
        match self.ensure_current_source_scan(scan) {
            Ok(_) => {},
            Err(error) => {
                return Err(error);
            },
        }
        let ghost m = self@;
        proof {
            self.lemma_generation(scan@);
        }
        let mut work = self.clone();
        let mut events: Vec<ArchiveEvent> = Vec::new();
        assert(text::views(events@) =~= Seq::<EventView>::empty());
        if let Some(grace) = tombstone_grace {
            let missing = missing_rows(&work.source_records, scan);
            match work.note_misses(scan, grace, committed_at_ms, &missing, event_ids) {
                Ok(list) => {
                    events = list;
                },
                Err(error) => {
                    return Err(error);
                },
            }
            proof {
                lemma_miss_all_keeps_sources(
                    m,
                    scan@,
                    grace,
                    committed_at_ms,
                    text::views(missing@),
                    event_ids@,
                );
            }
        }
        let ghost counted = work@;
        assert(counted.sources == m.sources);
        match work.find_source(scan.source_id()) {
            Some(s) => {
                assert(work.sources@[s as int]@ == work@.sources[s as int]);
                assert(ledger::source_ok(work@.sources[s as int]));
                let mut row = work.sources[s].clone();
                row.last_complete_generation = scan.generation();
                work.replace_source(s, row);
                let ghost before = work;
                work.observations = fresh_rows(&work.observations, scan);
                proof {
                    let kept = before@.observations.filter(is_fresh(scan@));
                    assert forall|i: int| 0 <= i < kept.len() implies ledger::observation_ok(
                        #[trigger] kept[i],
                    ) by {
                        before@.observations.lemma_filter_contains_rev(is_fresh(scan@), kept[i]);
                        let j = choose|j: int|
                            0 <= j < before@.observations.len() && before@.observations[j]
                                == kept[i];
                        assert(ledger::observation_ok(before@.observations[j]));
                    }
                    assert(work@ =~= finished(counted, scan@));
                }
            },
            None => {},
        }
        *self = work;
        Ok(events)
    }

    /// Completes a full, guard-verified scan at a given time.
    pub fn complete_source_scan(
        &mut self,
        scan: &SourceScan,
        tombstone_grace: Option<TombstoneGrace>,
        committed_at_ms: i64,
    ) -> (result: Result<Vec<ArchiveEvent>, CatalogError>)
        requires
            old(self).wf(),
        ensures
            final(self).wf(),
            consistency::consistent(old(self)@) ==> consistency::consistent(final(self)@),
            exists|event_ids: Seq<EventId>|
                domain::all_drawn(event_ids) && event_ids.len()
                    == old(self)@.source_records.len() && records::events_outcome(
                    #[trigger] complete(
                        old(self)@,
                        scan@,
                        tombstone_grace,
                        committed_at_ms,
                        event_ids,
                    ),
                    old(self)@,
                    final(self)@,
                    result,
                ),
    {
        let mut event_ids: Vec<EventId> = Vec::new();
        while event_ids.len() < self.source_records.len()
            invariant
                event_ids@.len() <= self.source_records@.len(),
                domain::all_drawn(event_ids@),
            decreases self.source_records@.len() - event_ids@.len(),
        {
            event_ids.push(EventId::new());
        }
        self.complete_source_scan_with(scan, tombstone_grace, committed_at_ms, &event_ids)
    }

    /// Completes a full, guard-verified scan at the time of the call.
    pub fn complete_source_scan_now(
        &mut self,
        scan: &SourceScan,
        tombstone_grace: Option<TombstoneGrace>,
    ) -> (result: Result<Vec<ArchiveEvent>, CatalogError>)
        requires
            old(self).wf(),
        ensures
            final(self).wf(),
            consistency::consistent(old(self)@) ==> consistency::consistent(final(self)@),
            (final(self)@ == old(self)@ && records::clock_refused(result)) || exists|
                at_ms: i64,
                event_ids: Seq<EventId>,
            |
                at_ms >= 0 && domain::all_drawn(event_ids) && event_ids.len()
                    == old(self)@.source_records.len()
                    && records::events_outcome(
                    #[trigger] complete(
                        old(self)@,
                        scan@,
                        tombstone_grace,
                        at_ms,
                        event_ids,
                    ),
                    old(self)@,
                    final(self)@,
                    result,
                ),
    {
        match crate::clock::now_ms() {
            Ok(now) => self.complete_source_scan(scan, tombstone_grace, now),
            Err(error) => Err(error),
        }
    }
}

/// Once one miss is refused, so are all.
proof fn lemma_miss_all_refused(
    m: LedgerView,
    scan: ScanView,
    grace: TombstoneGrace,
    at_ms: i64,
    missing: Seq<SourceRecordView>,
    event_ids: Seq<EventId>,
    count: int,
    error: CatalogErrorView,
)
    requires
        0 <= count <= missing.len(),
        miss_all(m, scan, grace, at_ms, missing.take(count), event_ids) == Err::<
            (LedgerView, Seq<EventView>),
            CatalogErrorView,
        >(error),
    ensures
        miss_all(m, scan, grace, at_ms, missing, event_ids) == Err::<
            (LedgerView, Seq<EventView>),
            CatalogErrorView,
        >(error),
    decreases missing.len() - count,
{
    if count == missing.len() {
        assert(missing.take(count) =~= missing);
    } else {
        let next = missing.take(count + 1);
        assert(next.drop_last() =~= missing.take(count));
        lemma_miss_all_refused(m, scan, grace, at_ms, missing, event_ids, count + 1, error);
    }
}

/// Misses and deletions leave source rows alone.
pub proof fn lemma_miss_all_keeps_sources(
    m: LedgerView,
    scan: ScanView,
    grace: TombstoneGrace,
    at_ms: i64,
    missing: Seq<SourceRecordView>,
    event_ids: Seq<EventId>,
)
    ensures
        miss_all(m, scan, grace, at_ms, missing, event_ids) matches Ok((next, events))
            ==> same_sources(m, next),
    decreases missing.len(),
{
    if missing.len() > 0 {
        lemma_miss_all_keeps_sources(m, scan, grace, at_ms, missing.drop_last(), event_ids);
    }
}

} // verus!
