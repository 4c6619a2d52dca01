//! What the steps of a scan and of a scrub come to.
use crate::catalog::{
    CatalogErrorView, RegistrationView, SourceFingerprint, SourceObservation, MAX_STORED,
};
use crate::domain::{EventId, EventView, IdentityView, LocationView, RevisionView};
use crate::ledger;
use crate::ledger::{LedgerView, ScrubRowView};
use crate::records;
use crate::records::ObservationIds;
use crate::scan;
use crate::scan::{FileView, HashDecision, PhaseView, ReportView, RunView};
use crate::scrub;
use crate::source_fs;
use crate::source_fs::{
    DeletionMode, ParsedView, RootProbe, SchemaView, SourceErrorView, SourceView,
};
use crate::sources;
use vstd::prelude::*;

verus! {

/// A file is read exactly where it was unchanged for long enough, is not too long, was not read before
/// as it is, and its bytes are within what the scan may still read. Otherwise the first of these that
/// fails is what the scan decides on.
pub proof fn law_file_is_read_for_a_reason(
    source: SourceView,
    observation: SourceObservation,
    byte_length: u64,
    bytes_hashed: u64,
)
    ensures
        ({
            let decision = scan::decided(source, observation, byte_length, bytes_hashed);
            let stable = observation.unchanged_observations >= source.stability;
            let short = source.max_candidate matches Some(most) ==> byte_length <= most;
            let affordable = source.hash_budget matches Some(most) ==> bytes_hashed + byte_length
                <= most;
            &&& decision == HashDecision::Read <==> stable && short && observation.needs_hash
                && affordable
            &&& decision == HashDecision::AwaitStability <==> !stable
            &&& decision == HashDecision::TooLarge <==> stable && !short
            &&& decision == HashDecision::AlreadyRead <==> stable && short
                && !observation.needs_hash
            &&& decision == HashDecision::OverBudget <==> stable && short && observation.needs_hash
                && !affordable
        }),
{
}

/// A file that is not read counts once, under the reason why it is not.
pub proof fn law_unread_file_counts_once(report: ReportView, decision: HashDecision)
    requires
        scan::counted(report, decision) is Ok,
    ensures
        ({
            let after = scan::counted(report, decision)->Ok_0;
            &&& after.awaiting_stability == report.awaiting_stability + (if decision
                == HashDecision::AwaitStability {
                1int
            } else {
                0
            })
            &&& after.deferred_by_size_limit == report.deferred_by_size_limit + (if decision
                == HashDecision::TooLarge {
                1int
            } else {
                0
            })
            &&& after.already_stable == report.already_stable + (if decision
                == HashDecision::AlreadyRead {
                1int
            } else {
                0
            })
            &&& after.deferred_by_hash_budget == report.deferred_by_hash_budget + (if decision
                == HashDecision::OverBudget {
                1int
            } else {
                0
            })
            &&& after.files_enumerated == report.files_enumerated
            &&& after.changed_during_scan == report.changed_during_scan
            &&& after.bytes_hashed == report.bytes_hashed
            &&& after.events == report.events
        }),
{
}

/// A file that changed since it was listed is left alone and counts as changed; one that did not goes on.
/// Either way nothing is found or accepted by opening it.
pub proof fn law_opened_file_is_the_listed_one(run: RunView, current: SourceFingerprint)
    requires
        scan::opened(run, current) is Ok,
    ensures
        ({
            let after = scan::opened(run, current)->Ok_0;
            let listed = match run.phase {
                PhaseView::Inspecting { next } => run.candidates[next].fingerprint,
                PhaseView::Reopening { at, .. } => run.found[at].file.fingerprint,
                _ => current,
            };
            &&& run.phase is Inspecting || run.phase is Reopening
            &&& after.report.changed_during_scan == run.report.changed_during_scan + (if current
                == listed {
                0int
            } else {
                1
            })
            &&& after.report == (ReportView {
                changed_during_scan: after.report.changed_during_scan,
                ..run.report
            })
            &&& after.found == run.found
            &&& after.accepted == run.accepted
            &&& after.candidates == run.candidates
            &&& run.phase matches PhaseView::Inspecting { next } ==> after.phase == (if current
                == listed {
                PhaseView::Parsing { next }
            } else {
                PhaseView::Inspecting { next: next + 1 }
            })
            &&& run.phase matches PhaseView::Reopening { at, sighting } ==> after.phase == (
            if current == listed {
                PhaseView::Reparsing { at, sighting, before: current }
            } else {
                PhaseView::Looking { next: at + 1 }
            })
        }),
{
}

/// A record that is read from a listed file is found, with its file; a file without one is passed over.
pub proof fn law_parsed_record_is_found(run: RunView, record: Option<ParsedView>)
    requires
        run.phase is Parsing,
        scan::parsed(run, record) is Ok,
    ensures
        ({
            let at = run.phase->Parsing_next;
            let after = scan::parsed(run, record)->Ok_0;
            &&& record is None ==> after.found == run.found
            &&& record matches Some(parsed) ==> {
                &&& after.found.len() == run.found.len() + 1
                &&& after.found.last().record == parsed
                &&& after.found.last().file == run.candidates[at]
                &&& forall|i: int|
                    0 <= i < run.found.len() ==> #[trigger] after.found[i] == run.found[i]
            }
            &&& after.phase == PhaseView::Inspecting { next: at + 1 }
            &&& after.report == run.report
            &&& after.candidates == run.candidates
            &&& after.accepted == run.accepted
        }),
{
}

/// A file that is read again goes on only where it still holds the record that was found in it; otherwise
/// it counts as changed.
pub proof fn law_reread_record_is_the_found_one(run: RunView, record: Option<ParsedView>)
    requires
        run.phase is Reparsing,
        scan::parsed(run, record) is Ok,
    ensures
        ({
            let at = run.phase->Reparsing_at;
            let after = scan::parsed(run, record)->Ok_0;
            let same = record == Some(run.found[at].record);
            &&& same <==> after.phase is Reading
            &&& same ==> after.report == run.report
            &&& !same ==> after.phase == PhaseView::Looking { next: at + 1 }
            &&& !same ==> after.report.changed_during_scan == run.report.changed_during_scan + 1
            &&& after.found == run.found
            &&& after.accepted == run.accepted
        }),
{
}

/// The bytes of a file that did not change while they were read are accepted: with the record that was
/// found in it and the revision that was read, and their length counts as read. One that did change
/// counts as changed and is not accepted.
pub proof fn law_read_file_is_accepted(run: RunView, after: SourceFingerprint)
    requires
        run.phase is Closing,
        scan::accepted(run, after) is Ok,
    ensures
        ({
            let at = run.phase->Closing_at;
            let revision = run.phase->Closing_revision;
            let next = scan::accepted(run, after)->Ok_0;
            let kept = run.phase->Closing_before == after;
            &&& kept ==> {
                &&& next.accepted.len() == run.accepted.len() + 1
                &&& next.accepted.last().record == run.found[at].record
                &&& next.accepted.last().revision == revision
                &&& forall|i: int|
                    0 <= i < run.accepted.len() ==> #[trigger] next.accepted[i] == run.accepted[i]
                &&& next.report.bytes_hashed == run.report.bytes_hashed + revision.byte_length
                &&& next.report == (ReportView {
                    bytes_hashed: next.report.bytes_hashed,
                    ..run.report
                })
            }
            &&& !kept ==> {
                &&& next.accepted == run.accepted
                &&& next.report.changed_during_scan == run.report.changed_during_scan + 1
                &&& next.report.bytes_hashed == run.report.bytes_hashed
            }
            &&& next.phase == PhaseView::Looking { next: at + 1 }
            &&& next.found == run.found
        }),
{
}

/// A scan goes over the files that were listed, and counts as many as were.
pub proof fn law_scan_goes_over_what_was_listed(run: RunView, files: u64, candidates: Seq<FileView>)
    ensures
        ({
            let listed = scan::enumerated(run, files, candidates);
            &&& listed is Ok <==> run.phase is Enumerating && forall|i: int|
                0 <= i < candidates.len() ==> (#[trigger] candidates[i]).root_index
                    < run.source.roots.len()
            &&& listed matches Ok(after) ==> {
                &&& after.candidates == candidates
                &&& after.report.files_enumerated == files
                &&& after.phase == PhaseView::Inspecting { next: 0 }
                &&& after.found == run.found
                &&& after.accepted == run.accepted
            }
        }),
{
}

/// Of the listed files a scan keeps those that its layout takes, each once and in the order in which they
/// were listed.
pub proof fn law_taken_files_are_kept(files: Seq<FileView>, answers: Seq<bool>) -> (places: Seq<int>)
    requires
        files.len() == answers.len(),
    ensures
        ({
            let kept = scan::kept(files, answers);
            &&& places.len() == kept.len()
            &&& forall|j: int|
                0 <= j < kept.len() ==> 0 <= #[trigger] places[j] < files.len()
                    && answers[places[j]] && kept[j] == files[places[j]]
            &&& forall|a: int, b: int|
                0 <= a < b < places.len() ==> #[trigger] places[a] < #[trigger] places[b]
            &&& forall|i: int|
                0 <= i < files.len() && #[trigger] answers[i] ==> places.contains(i)
        }),
    decreases files.len(),
{
    if files.len() == 0 {
        Seq::empty()
    } else {
        let front = files.drop_last();
        let told = answers.drop_last();
        let before = law_taken_files_are_kept(front, told);
        let last = files.len() - 1;
        let places = if answers[last] {
            before.push(last)
        } else {
            before
        };
        let kept = scan::kept(files, answers);
        assert forall|j: int| 0 <= j < kept.len() implies 0 <= #[trigger] places[j] < files.len()
            && answers[places[j]] && kept[j] == files[places[j]] by {
            if j < before.len() {
                assert(places[j] == before[j]);
                assert(told[before[j]] == answers[before[j]]);
                assert(front[before[j]] == files[before[j]]);
            }
        }
        assert forall|i: int| 0 <= i < files.len() && #[trigger] answers[i] implies places.contains(
            i,
        ) by {
            if i < last {
                assert(told[i]);
                let j = choose|j: int| 0 <= j < before.len() && before[j] == i;
                assert(places[j] == i);
            } else {
                assert(places[before.len() as int] == i);
            }
        }
        places
    }
}

proof fn lemma_first_repeat(found: Seq<scan::FoundView>, from: int)
    requires
        0 <= from,
    ensures
        scan::first_repeat(found, from) matches Some(at) ==> from <= at < found.len()
            && scan::repeats(found, at),
        scan::first_repeat(found, from) is None ==> forall|k: int|
            from <= k < found.len() ==> !(#[trigger] scan::repeats(found, k)),
    decreases found.len() - from,
{
    if from < found.len() && !scan::repeats(found, from) {
        lemma_first_repeat(found, from + 1);
    }
}

/// A scan in which two files hold records of one identity is refused, and names that identity; where every
/// identity is found once, none is refused for it.
pub proof fn law_two_files_of_one_record_are_refused(found: Seq<scan::FoundView>, i: int, j: int)
    requires
        0 <= i < j < found.len(),
    ensures
        found[i].record.identity == found[j].record.identity ==> scan::first_repeat(found, 0)
            is Some,
        scan::first_repeat(found, 0) matches Some(at) ==> exists|k: int|
            0 <= k < at < found.len() && (#[trigger] found[k]).record.identity
                == found[at].record.identity,
{
    lemma_first_repeat(found, 0);
    if found[i].record.identity == found[j].record.identity {
        assert(scan::repeats(found, j));
    }
}

/// A scan ends with the events of its completion behind those that it made before, and deletes only where
/// its source says so: with the grace of the source, or not at all.
pub proof fn law_scan_ends_with_its_completion(
    m: LedgerView,
    run: RunView,
    source: SourceView,
    at_ms: i64,
    event_ids: Seq<EventId>,
)
    ensures
        ({
            let ended = scan::ended(m, run, source, at_ms, event_ids);
            let completed = sources::complete(
                m,
                run.scan,
                match source.deletion_mode {
                    DeletionMode::Disabled => None,
                    DeletionMode::Guarded(grace) => Some(grace),
                },
                at_ms,
                event_ids,
            );
            &&& ended is Ok <==> completed is Ok
            &&& ended matches Ok((next, report)) ==> {
                &&& next == completed->Ok_0.0
                &&& report.events == run.report.events + completed->Ok_0.1
                &&& report == (ReportView { events: report.events, ..run.report })
            }
        }),
{
}

proof fn lemma_first_scrub(m: LedgerView, next: LedgerView, at: int, row: ScrubRowView, other: Seq<char>)
    requires
        row.source_id != other,
        (0 <= at < m.scrubs.len() && m.scrubs[at].source_id == row.source_id && next.scrubs
            == m.scrubs.update(at, row)) || next.scrubs == m.scrubs.push(row),
    ensures
        ({
            let known = ledger::find_first(m.scrubs, scrub::scrubs(other));
            let still = ledger::find_first(next.scrubs, scrub::scrubs(other));
            &&& known is Some <==> still is Some
            &&& known matches Some(i) ==> next.scrubs[still->Some_0] == m.scrubs[i]
        }),
{
    let accepts = scrub::scrubs(other);
    ledger::lemma_find_first(m.scrubs, accepts);
    ledger::lemma_find_first(next.scrubs, accepts);
    match ledger::find_first(m.scrubs, accepts) {
        Some(i) => {
            assert(accepts(m.scrubs[i]));
            assert(next.scrubs[i] == m.scrubs[i]);
            assert(ledger::is_first(next.scrubs, accepts, i)) by {
                assert forall|j: int| 0 <= j < i implies !accepts(#[trigger] next.scrubs[j]) by {
                    if next.scrubs[j] != row {
                        assert(next.scrubs[j] == m.scrubs[j]);
                    }
                }
            }
            ledger::lemma_found(next.scrubs, accepts, i);
        },
        None => {
            assert forall|j: int| 0 <= j < next.scrubs.len() implies !accepts(
                #[trigger] next.scrubs[j],
            ) by {
                if next.scrubs[j] != row {
                    assert(next.scrubs[j] == m.scrubs[j]);
                    assert(!accepts(m.scrubs[j]));
                }
            }
            if let Some(i) = ledger::find_first(next.scrubs, accepts) {
                assert(accepts(next.scrubs[i]));
            }
        },
    }
}

/// Scrubbing a source moves that source's cursor and no other's: it stands where it was put, and a
/// completed round counts once, at its time. Nothing else in the catalog changes.
pub proof fn law_scrub_moves_one_cursor(
    m: LedgerView,
    source_id: Seq<char>,
    next_after: Option<LocationView>,
    cycle_completed: bool,
    at_ms: i64,
    other: Seq<char>,
)
    requires
        scrub::advance(m, source_id, next_after, cycle_completed, at_ms) is Ok,
    ensures
        ({
            let next = scrub::advance(m, source_id, next_after, cycle_completed, at_ms)->Ok_0;
            let before = scrub::progress(m, source_id);
            let after = scrub::progress(next, source_id);
            &&& cycle_completed <==> next_after is None
            &&& before is Ok
            &&& after is Ok
            &&& after->Ok_0.source_id == source_id
            &&& after->Ok_0.next_after == next_after
            &&& before->Ok_0.completed_cycles < u64::MAX ==> after->Ok_0.completed_cycles
                == before->Ok_0.completed_cycles + (if cycle_completed {
                1int
            } else {
                0
            })
            &&& cycle_completed ==> after->Ok_0.last_completed_at_ms == Some(at_ms)
            &&& !cycle_completed ==> after->Ok_0.last_completed_at_ms
                == before->Ok_0.last_completed_at_ms
            &&& other != source_id ==> scrub::progress(next, other) == scrub::progress(m, other)
            &&& next == (LedgerView { scrubs: next.scrubs, ..m })
        }),
{
    let next = scrub::advance(m, source_id, next_after, cycle_completed, at_ms)->Ok_0;
    let row = scrub::stepped(m, source_id, next_after, cycle_completed, at_ms);
    let accepts = scrub::scrubs(source_id);
    ledger::lemma_find_first(m.scrubs, accepts);
    assert(next.sources == m.sources);
    match ledger::find_first(m.scrubs, accepts) {
        Some(at) => {
            assert(accepts(m.scrubs[at]));
            assert(ledger::is_first(next.scrubs, accepts, at)) by {
                assert(next.scrubs[at] == row);
                assert forall|j: int| 0 <= j < at implies !accepts(#[trigger] next.scrubs[j]) by {
                    assert(next.scrubs[j] == m.scrubs[j]);
                }
            }
            ledger::lemma_found(next.scrubs, accepts, at);
            if other != source_id {
                lemma_first_scrub(m, next, at, row, other);
            }
        },
        None => {
            let at = m.scrubs.len() as int;
            assert(ledger::is_first(next.scrubs, accepts, at)) by {
                assert(next.scrubs[at] == row);
                assert forall|j: int| 0 <= j < at implies !accepts(#[trigger] next.scrubs[j]) by {
                    assert(next.scrubs[j] == m.scrubs[j]);
                }
            }
            ledger::lemma_found(next.scrubs, accepts, at);
            if other != source_id {
                lemma_first_scrub(m, next, at, row, other);
            }
        },
    }
}

/// A scrub that is moved is moved exactly where its source is known, its cursor is cleared with a completed
/// round and only then, and the rounds can still be counted; and a scrub that never ran stands at the start.
pub proof fn law_scrub_is_of_a_known_source(
    m: LedgerView,
    source_id: Seq<char>,
    next_after: Option<LocationView>,
    cycle_completed: bool,
    at_ms: i64,
)
    ensures
        ({
            let known = exists|i: int|
                0 <= i < m.sources.len() && (#[trigger] m.sources[i]).source_id == source_id;
            let progress = scrub::progress(m, source_id);
            &&& progress is Ok <==> known
            &&& known && (forall|i: int|
                0 <= i < m.scrubs.len() ==> (#[trigger] m.scrubs[i]).source_id != source_id)
                ==> progress->Ok_0.next_after is None && progress->Ok_0.completed_cycles == 0
                && progress->Ok_0.last_completed_at_ms is None
            &&& !known ==> scrub::advance(
                m,
                source_id,
                next_after,
                cycle_completed,
                at_ms,
            ) is Err
            &&& cycle_completed != next_after is None ==> scrub::advance(
                m,
                source_id,
                next_after,
                cycle_completed,
                at_ms,
            ) is Err
            &&& known && cycle_completed == next_after is None
                && progress->Ok_0.completed_cycles < MAX_STORED ==> scrub::advance(
                m,
                source_id,
                next_after,
                cycle_completed,
                at_ms,
            ) is Ok
        }),
{
    ledger::lemma_find_first(m.sources, ledger::has_source_id(source_id));
    ledger::lemma_find_first(m.scrubs, scrub::scrubs(source_id));
    if let Some(at) = m.source_at(source_id) {
        assert(ledger::has_source_id(source_id)(m.sources[at]));
        assert(m.sources[at].source_id == source_id);
    }
    assert forall|i: int|
        0 <= i < m.sources.len() && (#[trigger] m.sources[i]).source_id == source_id implies m.source_at(
        source_id,
    ) is Some by {
        assert(ledger::has_source_id(source_id)(m.sources[i]));
    }
    if let Some(at) = ledger::find_first(m.scrubs, scrub::scrubs(source_id)) {
        assert(scrub::scrubs(source_id)(m.scrubs[at]));
        assert(m.scrubs[at].source_id == source_id);
    }
}

/// A scrub records what it read only of a record that its source has seen; of any other it changes
/// nothing and makes no events.
pub proof fn law_scrub_records_only_what_its_source_saw(
    m: LedgerView,
    source_id: Seq<char>,
    identity: IdentityView,
    location: LocationView,
    revision: RevisionView,
    at_ms: i64,
    ids: ObservationIds,
    r: int,
)
    requires
        0 <= r < m.records.len(),
        m.records[r].identity == identity,
        forall|i: int| 0 <= i < r ==> (#[trigger] m.records[i]).identity != identity,
    ensures
        ({
            let scrubbed = scrub::observe_scrubbed(
                m,
                source_id,
                identity,
                location,
                revision,
                at_ms,
                ids,
            );
            let observed = records::observe(m, identity, location, revision, at_ms, ids);
            let seen = exists|k: int|
                0 <= k < m.source_records.len() && (#[trigger] m.source_records[k]).source_id
                    == source_id && m.source_records[k].record_id == m.records[r].id;
            &&& !seen ==> scrubbed == Ok::<_, CatalogErrorView>((m, None::<Seq<EventView>>))
            &&& seen && observed is Ok ==> scrubbed == Ok::<_, CatalogErrorView>(
                (observed->Ok_0.0, Some(observed->Ok_0.1)),
            )
            &&& seen && observed is Err ==> scrubbed is Err
        }),
{
    let accepts = ledger::has_identity(identity);
    assert(ledger::is_first(m.records, accepts, r)) by {
        assert forall|j: int| 0 <= j < r implies !accepts(#[trigger] m.records[j]) by {}
    }
    ledger::lemma_found(m.records, accepts, r);
    let owned = scrub::owned_by(source_id, m.records[r].id);
    ledger::lemma_find_first(m.source_records, owned);
    assert forall|k: int|
        0 <= k < m.source_records.len() && (#[trigger] m.source_records[k]).source_id == source_id
            && m.source_records[k].record_id == m.records[r].id implies ledger::find_first(
        m.source_records,
        owned,
    ) is Some by {
        assert(owned(m.source_records[k]));
    }
    if let Some(k) = ledger::find_first(m.source_records, owned) {
        assert(owned(m.source_records[k]));
        assert(m.source_records[k].source_id == source_id);
    }
}

/// What was accepted is recorded as it was accepted: its own record, place and revision are observed, at the
/// given time, and the events are those of that observation.
pub proof fn law_accepted_file_is_recorded(
    m: LedgerView,
    run: RunView,
    entry: scan::AcceptedView,
    at_ms: i64,
    ids: ObservationIds,
)
    ensures
        ({
            let (next, result) = scan::recorded_one(m, run, entry, at_ms, ids);
            let observed = records::observe(
                m,
                entry.record.identity,
                entry.record.location,
                entry.revision,
                at_ms,
                ids,
            );
            result matches Ok(events) ==> {
                &&& observed matches Ok((after, made)) && events == made && next.records
                    == after.records && next.revisions == after.revisions && next.events
                    == after.events && next.deliveries == after.deliveries
                &&& next.subscriptions == m.subscriptions
                &&& next.sources == m.sources
                &&& next.scrubs == m.scrubs
                &&& exists|k: int|
                    {
                        let row = #[trigger] next.observations[k];
                        &&& 0 <= k < next.observations.len()
                        &&& row.source_id == run.scan.source_id
                        &&& row.location == entry.record.location
                        &&& row.hash_admitted
                    }
            }
        }),
{
    let (next, result) = scan::recorded_one(m, run, entry, at_ms, ids);
    if let Ok(events) = result {
        let seen = sources::observe_for(
            m,
            run.scan,
            run.registration,
            entry.record.identity,
            entry.record.location,
            entry.revision,
            at_ms,
            ids,
        ).0;
        let accepts = sources::seen_in(run.scan, entry.record.location);
        ledger::lemma_find_first(seen.observations, accepts);
        let k = ledger::find_first(seen.observations, accepts)->Some_0;
        assert(accepts(seen.observations[k]));
        assert(next.observations[k].hash_admitted);
        let observed = records::observe(
            m,
            entry.record.identity,
            entry.record.location,
            entry.revision,
            at_ms,
            ids,
        );
        lemma_observe_keeps_sources(
            m,
            entry.record.identity,
            entry.record.location,
            entry.revision,
            at_ms,
            ids,
        );
        assert(observed is Ok);
    }
}

proof fn lemma_observe_keeps_sources(
    m: LedgerView,
    identity: IdentityView,
    location: LocationView,
    revision: RevisionView,
    at_ms: i64,
    ids: ObservationIds,
)
    ensures
        records::observe(m, identity, location, revision, at_ms, ids) matches Ok((next, events))
            ==> next.sources == m.sources && next.scrubs == m.scrubs && next.subscriptions
            == m.subscriptions && next.observations == m.observations,
{
}

/// The records of a scan are recorded one after the other, each at its own time and under its own identities,
/// and their events follow each other.
pub proof fn law_accepted_files_are_recorded_in_order(
    m: LedgerView,
    run: RunView,
    times: Seq<i64>,
    ids: Seq<ObservationIds>,
    count: int,
)
    requires
        count >= 0,
    ensures
        ({
            let before = scan::recorded(m, run, times, ids, count);
            let after = scan::recorded(m, run, times, ids, count + 1);
            let one = scan::recorded_one(
                before.0,
                run,
                run.accepted[count],
                times[count],
                ids[count],
            );
            &&& before.1 is Err ==> after == before
            &&& before.1 matches Ok(events) ==> {
                &&& after.0 == one.0
                &&& after.1 is Ok <==> one.1 is Ok
                &&& one.1 matches Ok(more) ==> after.1->Ok_0 == events + more
            }
            &&& count == 0 ==> before.0 == m && before.1 == Ok::<Seq<EventView>, SourceErrorView>(
                run.report.events,
            )
        }),
{
}

/// A found file that is looked at is noted as seen where it stands, whether or not it is read: its record is marked
/// as seen by the scan, and the scan goes on with what it decided.
pub proof fn law_found_file_is_looked_at(m: LedgerView, run: RunView, source: SourceView, at: int)
    ensures
        ({
            let (next, result) = scan::observed(m, run, source, at);
            let found = run.found[at];
            let looked = sources::look(m, run.scan, found.record.location, found.file.fingerprint);
            result matches Ok((after, decision)) ==> {
                &&& looked.1 is Ok
                &&& sources::mark_seen(
                    looked.0,
                    run.scan,
                    run.registration,
                    found.record.identity,
                ) == Ok::<LedgerView, CatalogErrorView>(next)
                &&& decision == HashDecision::Read <==> {
                    &&& looked.1->Ok_0.unchanged_observations >= source.stability
                    &&& (source.max_candidate matches Some(most)
                        ==> found.file.fingerprint.byte_length <= most)
                    &&& looked.1->Ok_0.needs_hash
                    &&& (source.hash_budget matches Some(most) ==> run.report.bytes_hashed
                        + found.file.fingerprint.byte_length <= most)
                }
                &&& after.found == run.found
                &&& after.accepted == run.accepted
                &&& after.phase == run.phase
            }
        }),
{
}

/// A scan begins where every root is healthy and its source can be registered: under the generation that the catalog
/// gave it, with nothing counted, found or accepted.
pub proof fn law_scan_begins_with_nothing(
    m: LedgerView,
    source: SourceView,
    schema: SchemaView,
    probes: Seq<RootProbe>,
)
    ensures
        scan::begun(m, source, schema, probes) matches Ok((next, run)) ==> {
            let registration = RegistrationView {
                source_id: source.source_id,
                producer_id: source.producer_id,
                identity_schema_name: schema.name,
                identity_schema_version: schema.version,
            };
            &&& sources::begin(m, registration) == Ok::<(LedgerView, u64), CatalogErrorView>(
                (next, run.scan.generation),
            )
            &&& source_fs::roots_fault(source.roots, probes) is None
            &&& run.registration == registration
            &&& run.scan.source_id == source.source_id
            &&& run.source == source
            &&& run.probes == probes
            &&& run.phase is Enumerating
            &&& run.candidates.len() == 0
            &&& run.found.len() == 0
            &&& run.accepted.len() == 0
            &&& run.report.files_enumerated == 0
            &&& run.report.awaiting_stability == 0
            &&& run.report.already_stable == 0
            &&& run.report.deferred_by_hash_budget == 0
            &&& run.report.deferred_by_size_limit == 0
            &&& run.report.changed_during_scan == 0
            &&& run.report.bytes_hashed == 0
            &&& run.report.events.len() == 0
        },
        source_fs::roots_fault(source.roots, probes) is Some ==> scan::begun(
            m,
            source,
            schema,
            probes,
        ) is Err,
{
}

/// A scan is committed exactly where all that was found was dealt with and every root is still healthy.
pub proof fn law_scan_commits_once_it_is_done(run: RunView, probes: Seq<RootProbe>)
    ensures
        scan::commit_refusal(run, probes) is None <==> run.phase is Finished
            && source_fs::roots_fault(run.source.roots, probes) is None,
{
}

} // verus!
