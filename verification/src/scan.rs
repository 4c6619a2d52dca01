//! One scan of a source: what is found, what is read again, and what becomes part of the catalog.
use vstd::prelude::*;

use crate::catalog::{
    CatalogError, CatalogErrorView, RegistrationView, ScanView, SourceFingerprint, SourceObservation,
    SourceRegistration, SourceScan, TombstoneGrace,
};
use crate::clock::now_ms;
use crate::consistency;
use crate::domain;
use crate::domain::{
    ArchiveEvent, CanonicalRevision, DomainErrorView, EventId, EventView, LocationView,
    RevisionView,
};
use crate::ledger;
use crate::ledger::{Catalog, LedgerView, ObservationView};
use crate::records;
use crate::records::ObservationIds;
use crate::source_fs;
use crate::source_fs::{
    DeletionMode, IdentitySchema, LayoutPlugin, ParsedRecord, ParsedView, RootProbe, SchemaView,
    SourceConfig, SourceError, SourceErrorView, SourceView,
};
use crate::sources;
use crate::text;

verus! {

/// A regular file found below a root.
#[derive(Debug)]
pub struct FileCandidate {
    pub root_index: usize,
    /// The path below the root, or the file's name alone where the path is no text.
    pub relative_path: String,
    /// Whether the path below the root is text.
    pub path_is_text: bool,
    pub fingerprint: SourceFingerprint,
}

/// A regular file found below a root.
#[verifier::ext_equal]
pub struct FileView {
    pub root_index: usize,
    pub relative_path: Seq<char>,
    pub path_is_text: bool,
    pub fingerprint: SourceFingerprint,
}

impl View for FileCandidate {
    type V = FileView;

    open spec fn view(&self) -> FileView {
        FileView {
            root_index: self.root_index,
            relative_path: self.relative_path@,
            path_is_text: self.path_is_text,
            fingerprint: self.fingerprint,
        }
    }
}

impl FileCandidate {
    /// A candidate equal to this one.
    fn copy(&self) -> (result: FileCandidate)
        ensures
            result@ == self@,
    {
        FileCandidate {
            root_index: self.root_index,
            relative_path: self.relative_path.clone(),
            path_is_text: self.path_is_text,
            fingerprint: self.fingerprint,
        }
    }

    /// The refusal of a path that is no text.
    fn refused_path(&self) -> (result: SourceError)
        ensures
            result@ == not_text(self@),
    {
        SourceError::InvalidProviderRecord {
            relative_path: self.relative_path.clone(),
            reason: "source-relative path is not UTF-8".to_owned(),
        }
    }
}

/// A file with the record that it holds.
#[derive(Debug)]
pub struct FoundRecord {
    pub file: FileCandidate,
    pub record: ParsedRecord,
}

/// A file with the record that it holds.
#[verifier::ext_equal]
pub struct FoundView {
    pub file: FileView,
    pub record: ParsedView,
}

impl View for FoundRecord {
    type V = FoundView;

    open spec fn view(&self) -> FoundView {
        FoundView { file: self.file@, record: self.record@ }
    }
}

/// What a scan did and what came of it.
#[derive(Debug, Eq, PartialEq)]
pub struct ReconcileReport {
    pub files_enumerated: u64,
    pub awaiting_stability: u64,
    pub already_stable: u64,
    pub deferred_by_hash_budget: u64,
    pub deferred_by_size_limit: u64,
    pub changed_during_scan: u64,
    pub bytes_hashed: u64,
    pub events: Vec<ArchiveEvent>,
}

/// What a scan did and what came of it.
#[verifier::ext_equal]
pub struct ReportView {
    pub files_enumerated: u64,
    pub awaiting_stability: u64,
    pub already_stable: u64,
    pub deferred_by_hash_budget: u64,
    pub deferred_by_size_limit: u64,
    pub changed_during_scan: u64,
    pub bytes_hashed: u64,
    pub events: Seq<EventView>,
}

impl View for ReconcileReport {
    type V = ReportView;

    open spec fn view(&self) -> ReportView {
        ReportView {
            files_enumerated: self.files_enumerated,
            awaiting_stability: self.awaiting_stability,
            already_stable: self.already_stable,
            deferred_by_hash_budget: self.deferred_by_hash_budget,
            deferred_by_size_limit: self.deferred_by_size_limit,
            changed_during_scan: self.changed_during_scan,
            bytes_hashed: self.bytes_hashed,
            events: text::views(self.events@),
        }
    }
}

/// A report of nothing.
pub open spec fn blank_report() -> ReportView {
    ReportView {
        files_enumerated: 0,
        awaiting_stability: 0,
        already_stable: 0,
        deferred_by_hash_budget: 0,
        deferred_by_size_limit: 0,
        changed_during_scan: 0,
        bytes_hashed: 0,
        events: Seq::empty(),
    }
}

/// What a scan saw of a found file when it decided to read it.
#[verifier::ext_equal]
pub struct Sighting {
    /// The catalog just before the scan looked.
    pub catalog: LedgerView,
    pub observation: SourceObservation,
    /// How many bytes the scan had read by then.
    pub bytes_hashed: u64,
}

/// How a record came to be accepted.
#[verifier::ext_equal]
pub struct TrailView {
    /// Where among the found records it is.
    pub at: int,
    pub sighting: Sighting,
    /// The fingerprint when the file was opened to be read.
    pub before: SourceFingerprint,
    /// The record in the file when it was opened to be read.
    pub again: ParsedView,
    /// The fingerprint once the file was read.
    pub after: SourceFingerprint,
}

/// A record whose bytes were read while its file stayed the same.
pub struct AcceptedRecord {
    pub record: ParsedRecord,
    pub revision: CanonicalRevision,
    pub trail: Ghost<TrailView>,
}

/// A record with the revision of its bytes.
#[verifier::ext_equal]
pub struct AcceptedView {
    pub record: ParsedView,
    pub revision: RevisionView,
    pub trail: TrailView,
}

impl View for AcceptedRecord {
    type V = AcceptedView;

    open spec fn view(&self) -> AcceptedView {
        AcceptedView { record: self.record@, revision: self.revision@, trail: self.trail@ }
    }
}

/// What a scan asks for next.
#[derive(Clone, Copy, Debug, Eq, PartialEq)]
pub enum ScanAction {
    /// List the files below the roots.
    Enumerate,
    /// Open the candidate at this place and give its fingerprint.
    Inspect { at: usize },
    /// Give the first bytes of the file that is open.
    ReadHead,
    /// Open the file of the record found at this place and give its fingerprint.
    Read { at: usize },
    /// Give all bytes of the file that is open.
    ReadBytes,
    /// Give the fingerprint of the file that is open.
    Stat,
    /// Inspect the roots again and commit.
    VerifyRoots,
}

/// What a scan asks for next.
pub enum ActionView {
    Enumerate,
    Inspect { at: int },
    ReadHead,
    Read { at: int },
    ReadBytes,
    Stat,
    VerifyRoots,
}

impl View for ScanAction {
    type V = ActionView;

    open spec fn view(&self) -> ActionView {
        match *self {
            ScanAction::Enumerate => ActionView::Enumerate,
            ScanAction::Inspect { at } => ActionView::Inspect { at: at as int },
            ScanAction::ReadHead => ActionView::ReadHead,
            ScanAction::Read { at } => ActionView::Read { at: at as int },
            ScanAction::ReadBytes => ActionView::ReadBytes,
            ScanAction::Stat => ActionView::Stat,
            ScanAction::VerifyRoots => ActionView::VerifyRoots,
        }
    }
}

/// How far a scan has come.
#[derive(Clone, Copy)]
enum Phase {
    Enumerating,
    Inspecting { next: usize },
    Parsing { next: usize },
    Looking { next: usize },
    Reopening { at: usize, sighting: Ghost<Sighting> },
    Reparsing { at: usize, sighting: Ghost<Sighting>, before: Ghost<SourceFingerprint> },
    Reading {
        at: usize,
        sighting: Ghost<Sighting>,
        before: Ghost<SourceFingerprint>,
        again: Ghost<ParsedView>,
    },
    Closing {
        at: usize,
        sighting: Ghost<Sighting>,
        before: Ghost<SourceFingerprint>,
        again: Ghost<ParsedView>,
        revision: CanonicalRevision,
    },
    Finished,
    Broken,
}

/// How far a scan has come.
pub enum PhaseView {
    /// The files below the roots are not listed yet.
    Enumerating,
    /// The candidate at `next` is to be opened.
    Inspecting { next: int },
    /// The candidate at `next` is open and unchanged, and its record is to be read.
    Parsing { next: int },
    /// The found record at `next` is to be looked at.
    Looking { next: int },
    /// The found file at `at` is to be opened and read.
    Reopening { at: int, sighting: Sighting },
    /// The found file at `at` is open and unchanged, and its record is to be read again.
    Reparsing { at: int, sighting: Sighting, before: SourceFingerprint },
    /// The found file at `at` kept its record, and its bytes are to be read.
    Reading { at: int, sighting: Sighting, before: SourceFingerprint, again: ParsedView },
    /// The bytes of the found file at `at` were read, and its fingerprint is to be taken again.
    Closing {
        at: int,
        sighting: Sighting,
        before: SourceFingerprint,
        again: ParsedView,
        revision: RevisionView,
    },
    /// Every found record was dealt with.
    Finished,
    /// The catalog refused a step, and the scan cannot go on.
    Broken,
}

impl View for Phase {
    type V = PhaseView;

    closed spec fn view(&self) -> PhaseView {
        match *self {
            Phase::Enumerating => PhaseView::Enumerating,
            Phase::Inspecting { next } => PhaseView::Inspecting { next: next as int },
            Phase::Parsing { next } => PhaseView::Parsing { next: next as int },
            Phase::Looking { next } => PhaseView::Looking { next: next as int },
            Phase::Reopening { at, sighting } => PhaseView::Reopening {
                at: at as int,
                sighting: sighting@,
            },
            Phase::Reparsing { at, sighting, before } => PhaseView::Reparsing {
                at: at as int,
                sighting: sighting@,
                before: before@,
            },
            Phase::Reading { at, sighting, before, again } => PhaseView::Reading {
                at: at as int,
                sighting: sighting@,
                before: before@,
                again: again@,
            },
            Phase::Closing { at, sighting, before, again, revision } => PhaseView::Closing {
                at: at as int,
                sighting: sighting@,
                before: before@,
                again: again@,
                revision: revision@,
            },
            Phase::Finished => PhaseView::Finished,
            Phase::Broken => PhaseView::Broken,
        }
    }
}

/// A scan in progress.
pub struct ScanRun<'a> {
    config: &'a SourceConfig,
    probes: Ghost<Seq<RootProbe>>,
    scan: SourceScan,
    registration: SourceRegistration,
    report: ReconcileReport,
    candidates: Vec<FileCandidate>,
    phase: Phase,
    found: Vec<FoundRecord>,
    accepted: Vec<AcceptedRecord>,
}

/// A scan in progress.
#[verifier::ext_equal]
pub struct RunView {
    pub source: SourceView,
    /// What inspecting the roots found when the scan began.
    pub probes: Seq<RootProbe>,
    pub scan: ScanView,
    pub registration: RegistrationView,
    pub report: ReportView,
    /// The files that may hold a record.
    pub candidates: Seq<FileView>,
    pub phase: PhaseView,
    pub found: Seq<FoundView>,
    pub accepted: Seq<AcceptedView>,
}

impl<'a> View for ScanRun<'a> {
    type V = RunView;

    closed spec fn view(&self) -> RunView {
        RunView {
            source: self.config@,
            probes: self.probes@,
            scan: self.scan@,
            registration: self.registration@,
            report: self.report@,
            candidates: text::views(self.candidates@),
            phase: self.phase@,
            found: text::views(self.found@),
            accepted: text::views(self.accepted@),
        }
    }
}

/// What beginning a scan comes to: the catalog and the scan, or the refusal. Nothing begins while a
/// root is not as its guard expects.
pub open spec fn begun(
    m: LedgerView,
    source: SourceView,
    schema: SchemaView,
    probes: Seq<RootProbe>,
) -> Result<(LedgerView, RunView), SourceErrorView> {
    let registration = source_fs::registration_of(source, schema);
    if let Some(fault) = source_fs::roots_fault(source.roots, probes) {
        Err(fault)
    } else if !registration.valid() {
        Err(SourceErrorView::Catalog(registration.refusal()))
    } else {
        match sources::begin(m, registration) {
            Err(error) => Err(SourceErrorView::Catalog(error)),
            Ok((next, generation)) => Ok(
                (
                    next,
                    RunView {
                        source,
                        probes,
                        scan: ScanView { source_id: registration.source_id, generation },
                        registration,
                        report: blank_report(),
                        candidates: Seq::empty(),
                        phase: PhaseView::Enumerating,
                        found: Seq::empty(),
                        accepted: Seq::empty(),
                    },
                ),
            ),
        }
    }
}

/// One more in a counter, unless it is at its end.
pub open spec fn one_more(count: u64) -> Option<u64> {
    if count == u64::MAX {
        None
    } else {
        Some((count + 1) as u64)
    }
}

/// The scan after one more change was noticed.
pub open spec fn with_change(run: RunView) -> Result<RunView, SourceErrorView> {
    match one_more(run.report.changed_during_scan) {
        Some(count) => Ok(
            RunView { report: ReportView { changed_during_scan: count, ..run.report }, ..run },
        ),
        None => Err(SourceErrorView::CounterOverflow),
    }
}

/// The refusal of a step that is not the next one.
pub open spec fn not_due() -> SourceErrorView {
    SourceErrorView::Catalog(CatalogErrorView::SourceScanConflict("scan step is not due"@))
}

/// The refusal of a candidate whose path is no text.
pub open spec fn not_text(file: FileView) -> SourceErrorView {
    SourceErrorView::InvalidProviderRecord {
        relative_path: file.relative_path,
        reason: "source-relative path is not UTF-8"@,
    }
}

/// The scan after a file that changed was noticed and left alone.
pub open spec fn left_alone(run: RunView, phase: PhaseView) -> Result<RunView, SourceErrorView> {
    match with_change(run) {
        Ok(next) => Ok(RunView { phase, ..next }),
        Err(error) => Err(error),
    }
}

/// Whether every file lies below one of the roots.
pub open spec fn below_roots(files: Seq<FileView>, roots: nat) -> bool {
    forall|i: int| 0 <= i < files.len() ==> (#[trigger] files[i]).root_index < roots
}

/// The scan after the files below the roots were listed: how many there are, and those among them
/// that may hold a record.
pub open spec fn enumerated(run: RunView, files: u64, candidates: Seq<FileView>) -> Result<
    RunView,
    SourceErrorView,
> {
    if run.phase is Enumerating && below_roots(candidates, run.source.roots.len()) {
        Ok(
            RunView {
                report: ReportView { files_enumerated: files, ..run.report },
                candidates,
                phase: PhaseView::Inspecting { next: 0 },
                ..run
            },
        )
    } else {
        Err(not_due())
    }
}

/// The scan after the file that it asked for was opened: one that changed since it was listed is
/// counted and left alone.
pub open spec fn opened(run: RunView, current: SourceFingerprint) -> Result<
    RunView,
    SourceErrorView,
> {
    match run.phase {
        PhaseView::Inspecting { next } => if next >= run.candidates.len() {
            Err(not_due())
        } else if !run.candidates[next].path_is_text {
            Err(not_text(run.candidates[next]))
        } else if current != run.candidates[next].fingerprint {
            left_alone(run, PhaseView::Inspecting { next: next + 1 })
        } else {
            Ok(RunView { phase: PhaseView::Parsing { next }, ..run })
        },
        PhaseView::Reopening { at, sighting } => if current != run.found[at].file.fingerprint {
            left_alone(run, PhaseView::Looking { next: at + 1 })
        } else {
            Ok(RunView { phase: PhaseView::Reparsing { at, sighting, before: current }, ..run })
        },
        _ => Err(not_due()),
    }
}

/// The scan after the record in the open file was read: a candidate's record is found, and a file
/// that is to be read must still hold the record found in it.
pub open spec fn parsed(run: RunView, record: Option<ParsedView>) -> Result<
    RunView,
    SourceErrorView,
> {
    match run.phase {
        PhaseView::Parsing { next } => Ok(
            RunView {
                found: match record {
                    Some(record) => run.found.push(
                        FoundView { file: run.candidates[next], record },
                    ),
                    None => run.found,
                },
                phase: PhaseView::Inspecting { next: next + 1 },
                ..run
            },
        ),
        PhaseView::Reparsing { at, sighting, before } => match record {
            Some(again) if again == run.found[at].record => Ok(
                RunView { phase: PhaseView::Reading { at, sighting, before, again }, ..run },
            ),
            _ => left_alone(run, PhaseView::Looking { next: at + 1 }),
        },
        _ => Err(not_due()),
    }
}

/// The scan after the bytes of the open file were read.
pub open spec fn hashed(run: RunView, revision: RevisionView) -> Result<RunView, SourceErrorView> {
    match run.phase {
        PhaseView::Reading { at, sighting, before, again } => Ok(
            RunView {
                phase: PhaseView::Closing { at, sighting, before, again, revision },
                ..run
            },
        ),
        _ => Err(not_due()),
    }
}

/// The files that were answered with yes, in order.
pub open spec fn kept(files: Seq<FileView>, answers: Seq<bool>) -> Seq<FileView>
    decreases files.len(),
{
    if files.len() == 0 {
        Seq::empty()
    } else {
        let front = kept(files.drop_last(), answers.drop_last());
        if answers.last() {
            front.push(files.last())
        } else {
            front
        }
    }
}

/// The file whose record is to be read.
pub open spec fn to_parse(run: RunView) -> Option<FileView> {
    match run.phase {
        PhaseView::Parsing { next } => Some(run.candidates[next]),
        PhaseView::Reparsing { at, .. } => Some(run.found[at].file),
        _ => None,
    }
}

/// Whether the record at `at` has the identity of an earlier one.
pub open spec fn repeats(found: Seq<FoundView>, at: int) -> bool {
    exists|i: int|
        0 <= i < at && (#[trigger] found[i]).record.identity == found[at].record.identity
}

/// The first record that has the identity of an earlier one.
pub open spec fn first_repeat(found: Seq<FoundView>, from: int) -> Option<int>
    decreases found.len() - from,
{
    if from < 0 || from >= found.len() {
        None
    } else if repeats(found, from) {
        Some(from)
    } else {
        first_repeat(found, from + 1)
    }
}

/// Whether the bytes of a found file are to be read now.
#[derive(Clone, Copy, Debug, Eq, PartialEq, Structural)]
pub enum HashDecision {
    /// Not yet seen unchanged often enough.
    AwaitStability,
    /// Longer than the source allows.
    TooLarge,
    /// Recorded before under this fingerprint.
    AlreadyRead,
    /// The scan's budget would be exceeded.
    OverBudget,
    Read,
}

/// Whether the bytes of a file are to be read now: only a stable file is read, and only where its
/// bytes were not recorded under this fingerprint before.
pub open spec fn decided(
    source: SourceView,
    observation: SourceObservation,
    byte_length: u64,
    bytes_hashed: u64,
) -> HashDecision {
    if observation.unchanged_observations < source.stability {
        HashDecision::AwaitStability
    } else if source.max_candidate is Some && byte_length > source.max_candidate->Some_0 {
        HashDecision::TooLarge
    } else if !observation.needs_hash {
        HashDecision::AlreadyRead
    } else if source.hash_budget is Some && bytes_hashed + byte_length > source.hash_budget->Some_0 {
        HashDecision::OverBudget
    } else {
        HashDecision::Read
    }
}

/// The report with a decision counted.
pub open spec fn counted(report: ReportView, decision: HashDecision) -> Result<
    ReportView,
    SourceErrorView,
> {
    let count = match decision {
        HashDecision::AwaitStability => one_more(report.awaiting_stability),
        HashDecision::TooLarge => one_more(report.deferred_by_size_limit),
        HashDecision::AlreadyRead => one_more(report.already_stable),
        HashDecision::OverBudget => one_more(report.deferred_by_hash_budget),
        HashDecision::Read => Some(0),
    };
    match count {
        None => Err(SourceErrorView::CounterOverflow),
        Some(count) => Ok(
            match decision {
                HashDecision::AwaitStability => ReportView { awaiting_stability: count, ..report },
                HashDecision::TooLarge => ReportView { deferred_by_size_limit: count, ..report },
                HashDecision::AlreadyRead => ReportView { already_stable: count, ..report },
                HashDecision::OverBudget => ReportView {
                    deferred_by_hash_budget: count,
                    ..report
                },
                HashDecision::Read => report,
            },
        ),
    }
}

/// What looking at one found record comes to: the catalog behind it, and the scan with the
/// decision.
pub open spec fn observed(m: LedgerView, run: RunView, source: SourceView, at: int) -> (
    LedgerView,
    Result<(RunView, HashDecision), SourceErrorView>,
) {
    let found = run.found[at];
    let looked = sources::look(m, run.scan, found.record.location, found.file.fingerprint);
    match looked.1 {
        Err(error) => (looked.0, Err(SourceErrorView::Catalog(error))),
        Ok(observation) => match sources::mark_seen(
            looked.0,
            run.scan,
            run.registration,
            found.record.identity,
        ) {
            Err(error) => (looked.0, Err(SourceErrorView::Catalog(error))),
            Ok(marked) => {
                let decision = decided(
                    source,
                    observation,
                    found.file.fingerprint.byte_length,
                    run.report.bytes_hashed,
                );
                match counted(run.report, decision) {
                    Err(error) => (marked, Err(error)),
                    Ok(report) => (marked, Ok((RunView { report, ..run }, decision))),
                }
            },
        },
    }
}

/// The scan with its next action, from the found record at `from` on: every record is looked at in
/// turn, up to one that is to be read.
pub open spec fn looking(m: LedgerView, run: RunView, from: int) -> (
    LedgerView,
    RunView,
    Result<ActionView, SourceErrorView>,
)
    decreases run.found.len() - from,
{
    if from >= run.found.len() {
        (m, RunView { phase: PhaseView::Finished, ..run }, Ok(ActionView::VerifyRoots))
    } else {
        let looked = observed(m, run, run.source, from);
        match looked.1 {
            Err(error) => (looked.0, RunView { phase: PhaseView::Broken, ..run }, Err(error)),
            Ok((next, decision)) => if decision == HashDecision::Read {
                let sighting = Sighting {
                    catalog: m,
                    observation: sources::look(
                        m,
                        run.scan,
                        run.found[from].record.location,
                        run.found[from].file.fingerprint,
                    ).1->Ok_0,
                    bytes_hashed: run.report.bytes_hashed,
                };
                (
                    looked.0,
                    RunView { phase: PhaseView::Reopening { at: from, sighting }, ..next },
                    Ok(ActionView::Read { at: from }),
                )
            } else {
                looking(looked.0, next, from + 1)
            },
        }
    }
}

/// What asking for the next action comes to: the catalog, the scan and the action. No found record is
/// looked at before every candidate was opened, nor while two records have one identity.
pub open spec fn advanced(m: LedgerView, run: RunView) -> (
    LedgerView,
    RunView,
    Result<ActionView, SourceErrorView>,
) {
    match due(run) {
        Some(action) => (m, run, Ok(action)),
        None => match run.phase {
            PhaseView::Inspecting { next } => if next < run.candidates.len() {
                (m, run, Err(not_text(run.candidates[next])))
            } else {
                match first_repeat(run.found, 0) {
                    Some(at) => (
                        m,
                        run,
                        Err(
                            SourceErrorView::DuplicateLiveIdentity {
                                source_id: run.scan.source_id,
                                identity: run.found[at].record.identity,
                            },
                        ),
                    ),
                    None => looking(m, run, 0),
                }
            },
            PhaseView::Looking { next } => looking(m, run, next),
            _ => (m, run, Err(not_due())),
        },
    }
}

/// The action that is due without a look at the catalog.
pub open spec fn due(run: RunView) -> Option<ActionView> {
    match run.phase {
        PhaseView::Enumerating => Some(ActionView::Enumerate),
        PhaseView::Inspecting { next } => if next < run.candidates.len()
            && run.candidates[next].path_is_text {
            Some(ActionView::Inspect { at: next })
        } else {
            None
        },
        PhaseView::Parsing { next } => Some(ActionView::ReadHead),
        PhaseView::Looking { next } => None,
        PhaseView::Reopening { at, .. } => Some(ActionView::Read { at }),
        PhaseView::Reparsing { at, .. } => Some(ActionView::ReadHead),
        PhaseView::Reading { at, .. } => Some(ActionView::ReadBytes),
        PhaseView::Closing { at, .. } => Some(ActionView::Stat),
        PhaseView::Finished => Some(ActionView::VerifyRoots),
        PhaseView::Broken => None,
    }
}

/// The scan after the file that was read gave its fingerprint again: its revision is accepted where
/// the file stayed the same meanwhile.
pub open spec fn accepted(run: RunView, after: SourceFingerprint) -> Result<
    RunView,
    SourceErrorView,
> {
    match run.phase {
        PhaseView::Closing { at, sighting, before, again, revision } => if before != after {
            left_alone(run, PhaseView::Looking { next: at + 1 })
        } else if run.report.bytes_hashed + revision.byte_length > u64::MAX {
            Err(SourceErrorView::CounterOverflow)
        } else {
            Ok(
                RunView {
                    report: ReportView {
                        bytes_hashed: (run.report.bytes_hashed + revision.byte_length) as u64,
                        ..run.report
                    },
                    phase: PhaseView::Looking { next: at + 1 },
                    accepted: run.accepted.push(
                        AcceptedView {
                            record: run.found[at].record,
                            revision,
                            trail: TrailView { at, sighting, before, again, after },
                        },
                    ),
                    ..run
                },
            )
        },
        _ => Err(not_due()),
    }
}

/// Why a scan is not committed: it is not finished, or a root is not as its guard expects.
pub open spec fn commit_refusal(run: RunView, probes: Seq<RootProbe>) -> Option<SourceErrorView> {
    if run.phase is Finished {
        source_fs::roots_fault(run.source.roots, probes)
    } else {
        Some(not_due())
    }
}

/// Whether the scan saw the found file at a place unchanged as often as the source asks, and its bytes
/// were to be read.
pub open spec fn sighted(run: RunView, at: int, sighting: Sighting) -> bool {
    let found = run.found[at];
    &&& sources::look(
        sighting.catalog,
        run.scan,
        found.record.location,
        found.file.fingerprint,
    ).1 == Ok::<SourceObservation, CatalogErrorView>(sighting.observation)
    &&& decided(
        run.source,
        sighting.observation,
        found.file.fingerprint.byte_length,
        sighting.bytes_hashed,
    ) == HashDecision::Read
}

/// Whether a record was found in this scan, its file was stable and still held it when it was opened
/// to be read, and the file had the fingerprint found both then and once its bytes were read.
pub open spec fn checked(run: RunView, entry: AcceptedView) -> bool {
    let trail = entry.trail;
    let found = run.found[trail.at];
    &&& 0 <= trail.at < run.found.len()
    &&& entry.record == found.record
    &&& sighted(run, trail.at, trail.sighting)
    &&& trail.before == found.file.fingerprint
    &&& trail.again == found.record
    &&& trail.after == found.file.fingerprint
}

/// How many found records are dealt with.
pub open spec fn dealt_with(run: RunView) -> int {
    match run.phase {
        PhaseView::Enumerating => 0,
        PhaseView::Inspecting { next } => 0,
        PhaseView::Parsing { next } => 0,
        PhaseView::Looking { next } => next,
        PhaseView::Reopening { at, .. } => at,
        PhaseView::Reparsing { at, .. } => at,
        PhaseView::Reading { at, .. } => at,
        PhaseView::Closing { at, .. } => at,
        PhaseView::Finished => run.found.len() as int,
        PhaseView::Broken => run.found.len() as int,
    }
}

/// Whether candidates are still opened.
pub open spec fn still_finding(run: RunView) -> bool {
    run.phase is Enumerating || run.phase is Inspecting || run.phase is Parsing
}

/// Whether what a scan holds fits how far it has come.
pub open spec fn fits_phase(run: RunView) -> bool {
    match run.phase {
        PhaseView::Enumerating => run.candidates.len() == 0 && run.found.len() == 0,
        PhaseView::Inspecting { next } => 0 <= next <= run.candidates.len(),
        PhaseView::Parsing { next } => 0 <= next < run.candidates.len(),
        PhaseView::Looking { next } => 0 <= next <= run.found.len(),
        PhaseView::Reopening { at, sighting } => {
            &&& 0 <= at < run.found.len()
            &&& sighted(run, at, sighting)
        },
        PhaseView::Reparsing { at, sighting, before } => {
            &&& 0 <= at < run.found.len()
            &&& sighted(run, at, sighting)
            &&& before == run.found[at].file.fingerprint
        },
        PhaseView::Reading { at, sighting, before, again } => {
            &&& 0 <= at < run.found.len()
            &&& sighted(run, at, sighting)
            &&& before == run.found[at].file.fingerprint
            &&& again == run.found[at].record
        },
        PhaseView::Closing { at, sighting, before, again, revision } => {
            &&& 0 <= at < run.found.len()
            &&& sighted(run, at, sighting)
            &&& before == run.found[at].file.fingerprint
            &&& again == run.found[at].record
        },
        PhaseView::Finished => true,
        PhaseView::Broken => true,
    }
}

/// Whether a scan came about step by step: its roots were healthy when it began, its files lie below
/// them, no two of its records have one identity once it looks at them, and what it accepted was
/// checked, in order and each once.
pub open spec fn sound(run: RunView) -> bool {
    &&& source_fs::roots_fault(run.source.roots, run.probes) is None
    &&& below_roots(run.candidates, run.source.roots.len())
    &&& forall|i: int|
        0 <= i < run.found.len() ==> (#[trigger] run.found[i]).file.root_index
            < run.source.roots.len()
    &&& fits_phase(run)
    &&& !still_finding(run) ==> first_repeat(run.found, 0) is None
    &&& still_finding(run) ==> run.accepted.len() == 0
    &&& forall|i: int| 0 <= i < run.accepted.len() ==> checked(run, #[trigger] run.accepted[i])
    &&& forall|i: int|
        0 <= i < run.accepted.len() ==> (#[trigger] run.accepted[i]).trail.at < dealt_with(run)
    &&& forall|i: int, j: int|
        0 <= i < j < run.accepted.len() ==> (#[trigger] run.accepted[i]).trail.at < (
        #[trigger] run.accepted[j]).trail.at
}

/// What recording one accepted record comes to: the catalog behind it, and the events.
pub open spec fn recorded_one(
    m: LedgerView,
    run: RunView,
    accepted: AcceptedView,
    at_ms: i64,
    ids: ObservationIds,
) -> (LedgerView, Result<Seq<EventView>, SourceErrorView>) {
    let observed = sources::observe_for(
        m,
        run.scan,
        run.registration,
        accepted.record.identity,
        accepted.record.location,
        accepted.revision,
        at_ms,
        ids,
    );
    match observed.1 {
        Err(error) => (observed.0, Err(SourceErrorView::Catalog(error))),
        Ok(events) => match sources::admit_hash(
            observed.0,
            run.scan,
            accepted.record.location,
        ) {
            Ok(next) => (next, Ok(events)),
            Err(error) => (observed.0, Err(SourceErrorView::Catalog(error))),
        },
    }
}

/// What recording the first `count` accepted records comes to: the catalog behind it and all
/// events, or the refusal of the first record that is refused.
pub open spec fn recorded(
    m: LedgerView,
    run: RunView,
    times: Seq<i64>,
    ids: Seq<ObservationIds>,
    count: int,
) -> (LedgerView, Result<Seq<EventView>, SourceErrorView>)
    decreases count,
{
    if count <= 0 {
        (m, Ok(run.report.events))
    } else {
        let before = recorded(m, run, times, ids, count - 1);
        match before.1 {
            Err(error) => before,
            Ok(events) => {
                let one = recorded_one(
                    before.0,
                    run,
                    run.accepted[count - 1],
                    times[count - 1],
                    ids[count - 1],
                );
                match one.1 {
                    Err(error) => (one.0, Err(error)),
                    Ok(more) => (one.0, Ok(events + more)),
                }
            },
        }
    }
}

/// The grace after which absence becomes deletion.
pub open spec fn grace_of(mode: DeletionMode) -> Option<TombstoneGrace> {
    match mode {
        DeletionMode::Disabled => None,
        DeletionMode::Guarded(grace) => Some(grace),
    }
}

/// What ending a scan comes to: the catalog and the report, or the refusal.
pub open spec fn ended(
    m: LedgerView,
    run: RunView,
    source: SourceView,
    at_ms: i64,
    event_ids: Seq<EventId>,
) -> Result<(LedgerView, ReportView), SourceErrorView> {
    match sources::complete(m, run.scan, grace_of(source.deletion_mode), at_ms, event_ids) {
        Err(error) => Err(SourceErrorView::Catalog(error)),
        Ok((next, events)) => Ok(
            (next, ReportView { events: run.report.events + events, ..run.report }),
        ),
    }
}

/// Whether a scan step came to what it should.
pub open spec fn step_outcome(
    expected: Result<RunView, SourceErrorView>,
    before: RunView,
    after: RunView,
    result: Result<(), SourceError>,
) -> bool {
    match expected {
        Ok(next) => result is Ok && after == next,
        Err(expected_error) => {
            &&& result matches Err(error)
            &&& error@ == expected_error
            &&& after == before
        },
    }
}

/// Whether the end of a scan came to what it should.
pub open spec fn end_outcome(
    expected: Result<(LedgerView, ReportView), SourceErrorView>,
    before: LedgerView,
    after: LedgerView,
    result: Result<ReconcileReport, SourceError>,
) -> bool {
    match expected {
        Ok((next, report)) => {
            &&& result matches Ok(found)
            &&& found@ == report
            &&& after == next
        },
        Err(expected_error) => {
            &&& result matches Err(error)
            &&& error@ == expected_error
            &&& after == before
        },
    }
}

fn add_one(count: u64) -> (result: Option<u64>)
    ensures
        result == one_more(count),
{
    count.checked_add(1)
}

/// Appends all events.
fn append_events(target: &mut Vec<ArchiveEvent>, events: Vec<ArchiveEvent>)
    ensures
        text::views(final(target)@) == text::views(old(target)@) + text::views(events@),
{
    let ghost before = target@;
    let mut events = events;
    let ghost added = events@;
    target.append(&mut events);
    assert(text::views(target@) =~= text::views(before) + text::views(added));
}

/// Whether asking for the next action came to what it should.
pub open spec fn action_outcome(
    expected: Result<ActionView, SourceErrorView>,
    result: Result<ScanAction, SourceError>,
) -> bool {
    match expected {
        Ok(action) => result matches Ok(found) && found@ == action,
        Err(expected_error) => result matches Err(error) && error@ == expected_error,
    }
}

fn step_not_due() -> (result: SourceError)
    ensures
        result@ == not_due(),
{
    SourceError::Catalog(CatalogError::SourceScanConflict("scan step is not due".to_owned()))
}

impl<'a> ScanRun<'a> {
    /// The scan came about step by step.
    pub open spec fn wf(&self) -> bool {
        sound(self@)
    }

    /// Begins a scan of a source, given what inspecting its roots in order found.
    pub fn begin(
        config: &'a SourceConfig,
        schema: &IdentitySchema,
        catalog: &mut Catalog,
        probes: Vec<RootProbe>,
    ) -> (result: Result<ScanRun<'a>, SourceError>)
        requires
            old(catalog).wf(),
        ensures
            final(catalog).wf(),
            consistency::consistent(old(catalog)@) ==> consistency::consistent(final(catalog)@),
            match begun(old(catalog)@, config@, schema@, probes@) {
                Ok((next, run)) => {
                    &&& result matches Ok(started)
                    &&& started.wf()
                    &&& started@ == run
                    &&& final(catalog)@ == next
                },
                Err(expected) => {
                    &&& result matches Err(error)
                    &&& error@ == expected
                    &&& final(catalog)@ == old(catalog)@
                },
            },
    {
        let ghost given = probes@;
        match source_fs::verify_roots(config.roots(), probes) {
            Ok(_) => {},
            Err(error) => {
                return Err(error);
            },
        }
        let registration = match config.registration(schema) {
            Ok(registration) => registration,
            Err(error) => {
                return Err(error);
            },
        };
        match catalog.begin_source_scan(&registration) {
            Err(error) => Err(SourceError::Catalog(error)),
            Ok(scan) => {
                let run = ScanRun {
                    config,
                    probes: Ghost(given),
                    scan,
                    registration,
                    report: ReconcileReport {
                        files_enumerated: 0,
                        awaiting_stability: 0,
                        already_stable: 0,
                        deferred_by_hash_budget: 0,
                        deferred_by_size_limit: 0,
                        changed_during_scan: 0,
                        bytes_hashed: 0,
                        events: Vec::new(),
                    },
                    candidates: Vec::new(),
                    phase: Phase::Enumerating,
                    found: Vec::new(),
                    accepted: Vec::new(),
                };
                proof {
                    let expected = begun(old(catalog)@, config@, schema@, given)->Ok_0.1;
                    assert(run@.report =~= blank_report());
                    assert(run@ =~= expected);
                    lemma_begun_is_sound(old(catalog)@, config@, schema@, given);
                }
                Ok(run)
            },
        }
    }

    /// Takes in the files below the roots: how many there are, and those that may hold a record.
    pub fn enumerated(&mut self, files: u64, candidates: Vec<FileCandidate>) -> (result: Result<
        (),
        SourceError,
    >)
        requires
            old(self).wf(),
        ensures
            final(self).wf(),
            step_outcome(
                enumerated(old(self)@, files, text::views(candidates@)),
                old(self)@,
                final(self)@,
                result,
            ),
    {
        let ghost given = text::views(candidates@);
        match self.phase {
            Phase::Enumerating => {},
            _ => {
                return Err(step_not_due());
            },
        }
        let roots: usize = self.config.roots().len();
        let mut i: usize = 0;
        while i < candidates.len()
            invariant
                0 <= i <= candidates@.len(),
                given == text::views(candidates@),
                roots == self@.source.roots.len(),
                self@ == old(self)@,
                old(self).wf(),
                forall|j: int| 0 <= j < i ==> (#[trigger] given[j]).root_index < roots,
            decreases candidates@.len() - i,
        {
            assert(given[i as int] == candidates@[i as int]@);
            if candidates[i].root_index >= roots {
                assert(!below_roots(given, roots as nat));
                return Err(step_not_due());
            }
            i += 1;
        }
        assert(below_roots(given, roots as nat));
        self.report.files_enumerated = files;
        self.candidates = candidates;
        self.phase = Phase::Inspecting { next: 0 };
        proof {
            assert(self@ =~= enumerated(old(self)@, files, given)->Ok_0);
            lemma_enumerated_is_sound(old(self)@, files, given);
        }
        Ok(())
    }

    fn count_change(&mut self) -> (result: Result<(), SourceError>)
        ensures
            step_outcome(with_change(old(self)@), old(self)@, final(self)@, result),
    {
        match add_one(self.report.changed_during_scan) {
            Some(count) => {
                self.report.changed_during_scan = count;
                assert(self@ =~= with_change(old(self)@)->Ok_0);
                Ok(())
            },
            None => Err(SourceError::CounterOverflow),
        }
    }

    /// Counts a change and goes on.
    fn leave_alone(&mut self, phase: Phase) -> (result: Result<(), SourceError>)
        ensures
            step_outcome(left_alone(old(self)@, phase@), old(self)@, final(self)@, result),
    {
        match self.count_change() {
            Ok(_) => {
                self.phase = phase;
                assert(self@ =~= left_alone(old(self)@, phase@)->Ok_0);
                Ok(())
            },
            Err(error) => Err(error),
        }
    }

    /// Takes in the fingerprint of the file that the scan asked for, now that it is open.
    pub fn opened(&mut self, current: &SourceFingerprint) -> (result: Result<(), SourceError>)
        requires
            old(self).wf(),
        ensures
            final(self).wf(),
            step_outcome(opened(old(self)@, *current), old(self)@, final(self)@, result),
    {
        let ghost start = self@;
        proof {
            lemma_opened_is_sound(start, *current);
        }
        match self.phase {
            Phase::Inspecting { next } => {
                if next >= self.candidates.len() {
                    return Err(step_not_due());
                }
                assert(start.candidates[next as int] == self.candidates@[next as int]@);
                if !self.candidates[next].path_is_text {
                    return Err(self.candidates[next].refused_path());
                }
                if *current != self.candidates[next].fingerprint {
                    return self.leave_alone(Phase::Inspecting { next: next + 1 });
                }
                self.phase = Phase::Parsing { next };
                assert(self@ =~= opened(start, *current)->Ok_0);
                Ok(())
            },
            Phase::Reopening { at, sighting } => {
                assert(start.found[at as int] == self.found@[at as int]@);
                assert(at < self.found.len());
                if *current != self.found[at].file.fingerprint {
                    return self.leave_alone(Phase::Looking { next: at + 1 });
                }
                self.phase = Phase::Reparsing { at, sighting, before: Ghost(*current) };
                assert(self@ =~= opened(start, *current)->Ok_0);
                Ok(())
            },
            _ => Err(step_not_due()),
        }
    }

    /// Takes in the record in the file that is open.
    pub fn parsed(&mut self, record: Option<ParsedRecord>) -> (result: Result<(), SourceError>)
        requires
            old(self).wf(),
        ensures
            final(self).wf(),
            step_outcome(
                parsed(old(self)@, text::view_option(record)),
                old(self)@,
                final(self)@,
                result,
            ),
    {
        let ghost start = self@;
        let ghost given = text::view_option(record);
        proof {
            lemma_parsed_is_sound(start, given);
        }
        match self.phase {
            Phase::Parsing { next } => {
                assert(start.candidates[next as int] == self.candidates@[next as int]@);
                assert(next < self.candidates.len());
                if let Some(record) = record {
                    let found = FoundRecord { file: self.candidates[next].copy(), record };
                    proof {
                        text::lemma_views_push(self.found@, found);
                    }
                    self.found.push(found);
                }
                self.phase = Phase::Inspecting { next: next + 1 };
                assert(self@ =~= parsed(start, given)->Ok_0);
                Ok(())
            },
            Phase::Reparsing { at, sighting, before } => {
                assert(start.found[at as int] == self.found@[at as int]@);
                assert(at < self.found.len());
                let kept: bool = match &record {
                    Some(record) => record.same(&self.found[at].record),
                    None => false,
                };
                if !kept {
                    return self.leave_alone(Phase::Looking { next: at + 1 });
                }
                self.phase = Phase::Reading { at, sighting, before, again: Ghost(given->Some_0) };
                assert(self@ =~= parsed(start, given)->Ok_0);
                Ok(())
            },
            _ => Err(step_not_due()),
        }
    }

    /// Takes in the revision of the bytes of the file that is open.
    pub fn hashed(&mut self, revision: CanonicalRevision) -> (result: Result<(), SourceError>)
        requires
            old(self).wf(),
        ensures
            final(self).wf(),
            step_outcome(hashed(old(self)@, revision@), old(self)@, final(self)@, result),
    {
        match self.phase {
            Phase::Reading { at, sighting, before, again } => {
                self.phase = Phase::Closing { at, sighting, before, again, revision };
                proof {
                    assert(self@ =~= hashed(old(self)@, revision@)->Ok_0);
                    lemma_hashed_is_sound(old(self)@, revision@);
                }
                Ok(())
            },
            _ => Err(step_not_due()),
        }
    }

    /// The candidate at a place.
    pub fn candidate_at(&self, at: usize) -> (result: &FileCandidate)
        requires
            at < self@.candidates.len(),
        ensures
            result@ == self@.candidates[at as int],
    {
        &self.candidates[at]
    }

    /// How many records were found.
    pub fn found_count(&self) -> (result: usize)
        ensures
            result == self@.found.len(),
    {
        self.found.len()
    }

    /// The record found at a place.
    pub fn found_at(&self, at: usize) -> (result: &FoundRecord)
        requires
            at < self@.found.len(),
        ensures
            result@ == self@.found[at as int],
    {
        &self.found[at]
    }

    /// The report so far.
    pub fn report(&self) -> (result: &ReconcileReport)
        ensures
            result@ == self@.report,
    {
        &self.report
    }

    /// Refuses two records of one identity.
    fn reject_duplicates(&self) -> (result: Result<(), SourceError>)
        ensures
            match first_repeat(self@.found, 0) {
                None => result is Ok,
                Some(at) => {
                    &&& result matches Err(error)
                    &&& error@ == (SourceErrorView::DuplicateLiveIdentity {
                        source_id: self@.scan.source_id,
                        identity: self@.found[at].record.identity,
                    })
                },
            },
    {
        let ghost all = self@.found;
        let mut at: usize = 0;
        while at < self.found.len()
            invariant
                0 <= at <= self.found@.len(),
                all == text::views(self.found@),
                all == self@.found,
                first_repeat(all, 0) == first_repeat(all, at as int),
            decreases self.found@.len() - at,
        {
            let mut i: usize = 0;
            while i < at
                invariant
                    0 <= i <= at < self.found@.len(),
                    all == text::views(self.found@),
                    all == self@.found,
                    first_repeat(all, 0) == first_repeat(all, at as int),
                    forall|j: int|
                        0 <= j < i ==> (#[trigger] all[j]).record.identity
                            != all[at as int].record.identity,
                decreases at - i,
            {
                proof {
                    assert(all[i as int] == self.found@[i as int]@);
                    assert(all[at as int] == self.found@[at as int]@);
                }
                if self.found[i].record.identity().same(self.found[at].record.identity()) {
                    proof {
                        assert(all[i as int].record.identity == all[at as int].record.identity);
                        assert(repeats(all, at as int));
                    }
                    return Err(
                        SourceError::DuplicateLiveIdentity {
                            source_id: self.scan.source_id().to_owned(),
                            identity: self.found[at].record.identity().clone(),
                        },
                    );
                }
                i += 1;
            }
            assert(!repeats(all, at as int));
            at += 1;
        }
        Ok(())
    }

    /// Looks at one found record: its fingerprint is noted, a known record is marked as seen, and
    /// it is decided whether its bytes are to be read.
    fn observe(&mut self, catalog: &mut Catalog, at: usize) -> (result: Result<
        HashDecision,
        SourceError,
    >)
        requires
            old(catalog).wf(),
            at < old(self)@.found.len(),
        ensures
            final(catalog).wf(),
            consistency::consistent(old(catalog)@) ==> consistency::consistent(final(catalog)@),
            final(catalog)@ == observed(old(catalog)@, old(self)@, old(self)@.source, at as int).0,
            match observed(old(catalog)@, old(self)@, old(self)@.source, at as int).1 {
                Ok((next, decision)) => {
                    &&& result == Ok::<HashDecision, SourceError>(decision)
                    &&& final(self)@ == next
                },
                Err(expected) => {
                    &&& result matches Err(error)
                    &&& error@ == expected
                    &&& final(self)@ == old(self)@
                },
            },
    {
        proof {
            assert(self@.found[at as int] == self.found@[at as int]@);
        }
        let byte_length: u64 = self.found[at].file.fingerprint.byte_length;
        let observation = match catalog.observe_source_fingerprint(
            &self.scan,
            self.found[at].record.location(),
            &self.found[at].file.fingerprint,
        ) {
            Ok(observation) => observation,
            Err(error) => {
                return Err(SourceError::Catalog(error));
            },
        };
        match catalog.mark_source_record_seen(
            &self.scan,
            &self.registration,
            self.found[at].record.identity(),
        ) {
            Ok(_) => {},
            Err(error) => {
                return Err(SourceError::Catalog(error));
            },
        }
        let decision = self.config.decide(&observation, byte_length, self.report.bytes_hashed);
        let ghost before = self@;
        match decision {
            HashDecision::AwaitStability => match add_one(self.report.awaiting_stability) {
                Some(count) => {
                    self.report.awaiting_stability = count;
                },
                None => {
                    return Err(SourceError::CounterOverflow);
                },
            },
            HashDecision::TooLarge => match add_one(self.report.deferred_by_size_limit) {
                Some(count) => {
                    self.report.deferred_by_size_limit = count;
                },
                None => {
                    return Err(SourceError::CounterOverflow);
                },
            },
            HashDecision::AlreadyRead => match add_one(self.report.already_stable) {
                Some(count) => {
                    self.report.already_stable = count;
                },
                None => {
                    return Err(SourceError::CounterOverflow);
                },
            },
            HashDecision::OverBudget => match add_one(self.report.deferred_by_hash_budget) {
                Some(count) => {
                    self.report.deferred_by_hash_budget = count;
                },
                None => {
                    return Err(SourceError::CounterOverflow);
                },
            },
            HashDecision::Read => {},
        }
        assert(self@ =~= (RunView { report: counted(before.report, decision)->Ok_0, ..before }));
        Ok(decision)
    }

    /// The action that is due without a look at the catalog.
    pub fn due(&self) -> (result: Option<ScanAction>)
        ensures
            text::view_option(result) == due(self@),
    {
        match self.phase {
            Phase::Enumerating => Some(ScanAction::Enumerate),
            Phase::Inspecting { next } => {
                if next >= self.candidates.len() {
                    return None;
                }
                assert(self@.candidates[next as int] == self.candidates@[next as int]@);
                if self.candidates[next].path_is_text {
                    Some(ScanAction::Inspect { at: next })
                } else {
                    None
                }
            },
            Phase::Parsing { .. } => Some(ScanAction::ReadHead),
            Phase::Looking { .. } => None,
            Phase::Reopening { at, .. } => Some(ScanAction::Read { at }),
            Phase::Reparsing { .. } => Some(ScanAction::ReadHead),
            Phase::Reading { .. } => Some(ScanAction::ReadBytes),
            Phase::Closing { .. } => Some(ScanAction::Stat),
            Phase::Finished => Some(ScanAction::VerifyRoots),
            Phase::Broken => None,
        }
    }

    /// What the scan asks for next. Every found record is looked at in turn, up to one that is to be
    /// read.
    pub fn next(&mut self, catalog: &mut Catalog) -> (result: Result<ScanAction, SourceError>)
        requires
            old(catalog).wf(),
            old(self).wf(),
        ensures
            final(catalog).wf(),
            consistency::consistent(old(catalog)@) ==> consistency::consistent(final(catalog)@),
            final(self).wf(),
            final(catalog)@ == advanced(old(catalog)@, old(self)@).0,
            final(self)@ == advanced(old(catalog)@, old(self)@).1,
            action_outcome(advanced(old(catalog)@, old(self)@).2, result),
    {
        let ghost start = self@;
        let ghost m = catalog@;
        proof {
            lemma_advanced_is_sound(m, start);
        }
        if let Some(action) = self.due() {
            return Ok(action);
        }
        let from: usize = match self.phase {
            Phase::Inspecting { next } => {
                if next < self.candidates.len() {
                    assert(start.candidates[next as int] == self.candidates@[next as int]@);
                    return Err(self.candidates[next].refused_path());
                }
                match self.reject_duplicates() {
                    Ok(_) => 0,
                    Err(error) => {
                        return Err(error);
                    },
                }
            },
            Phase::Looking { next } => next,
            _ => {
                return Err(step_not_due());
            },
        };
        self.look_from(catalog, from)
    }

    /// Looks at every found record from a place on, up to one that is to be read.
    fn look_from(&mut self, catalog: &mut Catalog, from: usize) -> (result: Result<
        ScanAction,
        SourceError,
    >)
        requires
            old(catalog).wf(),
        ensures
            final(catalog).wf(),
            consistency::consistent(old(catalog)@) ==> consistency::consistent(final(catalog)@),
            final(catalog)@ == looking(old(catalog)@, old(self)@, from as int).0,
            final(self)@ == looking(old(catalog)@, old(self)@, from as int).1,
            action_outcome(looking(old(catalog)@, old(self)@, from as int).2, result),
    {
        let ghost start = self@;
        let ghost m = catalog@;
        let mut at: usize = from;
        while at < self.found.len()
            invariant
                catalog.wf(),
                consistency::consistent(old(catalog)@) ==> consistency::consistent(catalog@),
                start == old(self)@,
                m == old(catalog)@,
                looking(m, start, from as int) == looking(catalog@, self@, at as int),
                self@.found.len() == self.found@.len(),
            decreases self.found@.len() - at,
        {
            let ghost before = self@;
            let ghost known = catalog@;
            match self.observe(catalog, at) {
                Err(error) => {
                    self.phase = Phase::Broken;
                    assert(self@ =~= (RunView { phase: PhaseView::Broken, ..before }));
                    return Err(error);
                },
                Ok(decision) => {
                    if matches!(decision, HashDecision::Read) {
                        let ghost next = self@;
                        let ghost sighting = Sighting {
                            catalog: known,
                            observation: sources::look(
                                known,
                                before.scan,
                                before.found[at as int].record.location,
                                before.found[at as int].file.fingerprint,
                            ).1->Ok_0,
                            bytes_hashed: before.report.bytes_hashed,
                        };
                        self.phase = Phase::Reopening { at, sighting: Ghost(sighting) };
                        assert(self@ =~= (RunView {
                            phase: PhaseView::Reopening { at: at as int, sighting },
                            ..next
                        }));
                        return Ok(ScanAction::Read { at });
                    }
                },
            }
            at += 1;
        }
        let ghost last = self@;
        self.phase = Phase::Finished;
        assert(self@ =~= (RunView { phase: PhaseView::Finished, ..last }));
        Ok(ScanAction::VerifyRoots)
    }

    /// Takes in the fingerprint of the file whose bytes were read: its revision is accepted where the
    /// file stayed the same meanwhile.
    pub fn accept(&mut self, after: &SourceFingerprint) -> (result: Result<(), SourceError>)
        requires
            old(self).wf(),
        ensures
            final(self).wf(),
            step_outcome(accepted(old(self)@, *after), old(self)@, final(self)@, result),
    {
        let ghost start = self@;
        proof {
            lemma_accepted_is_sound(start, *after);
        }
        match self.phase {
            Phase::Closing { at, sighting, before, again, revision } => {
                assert(start.found[at as int] == self.found@[at as int]@);
                assert(at < self.found.len());
                if *after != self.found[at].file.fingerprint {
                    return self.leave_alone(Phase::Looking { next: at + 1 });
                }
                match self.report.bytes_hashed.checked_add(revision.byte_length()) {
                    None => Err(SourceError::CounterOverflow),
                    Some(total) => {
                        self.report.bytes_hashed = total;
                        let entry = AcceptedRecord {
                            record: self.found[at].record.copy(),
                            revision,
                            trail: Ghost(
                                TrailView {
                                    at: at as int,
                                    sighting: sighting@,
                                    before: before@,
                                    again: again@,
                                    after: *after,
                                },
                            ),
                        };
                        proof {
                            text::lemma_views_push(self.accepted@, entry);
                        }
                        self.accepted.push(entry);
                        self.phase = Phase::Looking { next: at + 1 };
                        assert(self@ =~= accepted(start, *after)->Ok_0);
                        Ok(())
                    },
                }
            },
            _ => Err(step_not_due()),
        }
    }

    /// Records every accepted record, each with its own time and new identities.
    fn record_with(
        &mut self,
        catalog: &mut Catalog,
        times: &Vec<i64>,
        ids: &Vec<ObservationIds>,
    ) -> (result: Result<(), SourceError>)
        requires
            old(catalog).wf(),
            times@.len() == old(self)@.accepted.len(),
            ids@.len() == old(self)@.accepted.len(),
        ensures
            final(catalog).wf(),
            consistency::consistent(old(catalog)@) ==> consistency::consistent(final(catalog)@),
            ({
                let expected = recorded(
                    old(catalog)@,
                    old(self)@,
                    times@,
                    ids@,
                    times@.len() as int,
                );
                &&& final(catalog)@ == expected.0
                &&& match expected.1 {
                    Ok(events) => {
                        &&& result is Ok
                        &&& final(self)@ == (RunView {
                            report: ReportView { events, ..old(self)@.report },
                            ..old(self)@
                        })
                    },
                    Err(expected_error) => {
                        &&& result matches Err(error)
                        &&& error@ == expected_error
                    },
                }
            }),
    {
        let ghost start = self@;
        let ghost m = catalog@;
        let mut i: usize = 0;
        proof {
            assert(self@ =~= (RunView {
                report: ReportView { events: start.report.events, ..start.report },
                ..start
            }));
        }
        while i < times.len()
            invariant
                0 <= i <= times@.len(),
                times@.len() == start.accepted.len(),
                ids@.len() == start.accepted.len(),
                start == old(self)@,
                m == old(catalog)@,
                catalog.wf(),
                consistency::consistent(old(catalog)@) ==> consistency::consistent(catalog@),
                recorded(m, start, times@, ids@, i as int).1 is Ok,
                catalog@ == recorded(m, start, times@, ids@, i as int).0,
                self@ == (RunView {
                    report: ReportView {
                        events: recorded(m, start, times@, ids@, i as int).1->Ok_0,
                        ..start.report
                    },
                    ..start
                }),
            decreases times@.len() - i,
        {
            let ghost so_far = self@;
            assert(so_far.accepted == start.accepted);
            let revision: CanonicalRevision = self.accepted[i].revision;
            assert(start.accepted[i as int] == self.accepted@[i as int]@);
            let observed = catalog.observe_present_from_source_with(
                &self.scan,
                &self.registration,
                self.accepted[i].record.identity(),
                self.accepted[i].record.location(),
                revision,
                times[i],
                ids[i],
            );
            let events = match observed {
                Ok(events) => events,
                Err(error) => {
                    proof {
                        lemma_refusal_stands(
                            m,
                            start,
                            times@,
                            ids@,
                            i + 1,
                            times@.len() as int,
                        );
                    }
                    return Err(SourceError::Catalog(error));
                },
            };
            match catalog.mark_source_fingerprint_hashed(
                &self.scan,
                self.accepted[i].record.location(),
            ) {
                Ok(_) => {},
                Err(error) => {
                    proof {
                        lemma_refusal_stands(
                            m,
                            start,
                            times@,
                            ids@,
                            i + 1,
                            times@.len() as int,
                        );
                    }
                    return Err(SourceError::Catalog(error));
                },
            }
            append_events(&mut self.report.events, events);
            i += 1;
            assert(self@ =~= (RunView {
                report: ReportView {
                    events: recorded(m, start, times@, ids@, i as int).1->Ok_0,
                    ..start.report
                },
                ..start
            }));
        }
        Ok(())
    }

    /// Ends the scan: what was not seen becomes missing, and deleted once the grace is over.
    fn end_with(
        self,
        catalog: &mut Catalog,
        at_ms: i64,
        event_ids: &Vec<EventId>,
    ) -> (result: Result<ReconcileReport, SourceError>)
        requires
            old(catalog).wf(),
            event_ids@.len() >= old(catalog)@.source_records.len(),
        ensures
            final(catalog).wf(),
            consistency::consistent(old(catalog)@) ==> consistency::consistent(final(catalog)@),
            end_outcome(
                ended(old(catalog)@, self@, self@.source, at_ms, event_ids@),
                old(catalog)@,
                final(catalog)@,
                result,
            ),
    {
        match catalog.complete_source_scan_with(
            &self.scan,
            self.config.tombstone_grace(),
            at_ms,
            event_ids,
        ) {
            Err(error) => Err(SourceError::Catalog(error)),
            Ok(events) => {
                let mut report = self.report;
                append_events(&mut report.events, events);
                assert(report@ =~= ended(
                    old(catalog)@,
                    self@,
                    self@.source,
                    at_ms,
                    event_ids@,
                )->Ok_0.1);
                Ok(report)
            },
        }
    }
}

/// A refusal stands, whatever would be recorded after it.
proof fn lemma_refusal_stands(
    m: LedgerView,
    run: RunView,
    times: Seq<i64>,
    ids: Seq<ObservationIds>,
    count: int,
    total: int,
)
    requires
        0 < count <= total,
        recorded(m, run, times, ids, count).1 is Err,
    ensures
        recorded(m, run, times, ids, total) == recorded(
            m,
            run,
            times,
            ids,
            count,
        ),
    decreases total - count,
{
    if count < total {
        lemma_refusal_stands(m, run, times, ids, count, total - 1);
    }
}

/// Whether the clock gave no usable time.
pub open spec fn clock_refused(result: Result<ReconcileReport, SourceError>) -> bool {
    &&& result matches Err(error)
    &&& (error@ == SourceErrorView::Catalog(CatalogErrorView::ClockBeforeEpoch) || error@
        == SourceErrorView::Catalog(
        CatalogErrorView::Corrupt("Unix timestamp exceeds i64 milliseconds"@),
    ))
}

/// Whether a scan ended as it should from this catalog on, at some time and with some new identities.
pub open spec fn ended_somehow(
    m: LedgerView,
    run: RunView,
    after: LedgerView,
    result: Result<ReconcileReport, SourceError>,
) -> bool {
    ||| after == m && clock_refused(result)
    ||| exists|at_ms: i64, event_ids: Seq<EventId>|
        at_ms >= 0 && domain::all_drawn(event_ids) && event_ids.len() == m.source_records.len()
            && end_outcome(
            #[trigger] ended(m, run, run.source, at_ms, event_ids),
            m,
            after,
            result,
        )
}

/// The scan with the events of what it recorded.
pub open spec fn with_events(run: RunView, events: Seq<EventView>) -> RunView {
    RunView { report: ReportView { events, ..run.report }, ..run }
}

/// Whether a scan was committed as it should with these times and new identities.
pub open spec fn committed_as(
    m: LedgerView,
    run: RunView,
    times: Seq<i64>,
    ids: Seq<ObservationIds>,
    after: LedgerView,
    result: Result<ReconcileReport, SourceError>,
) -> bool {
    let count = run.accepted.len();
    let done = recorded(m, run, times, ids, count as int);
    &&& times.len() == count
    &&& forall|i: int| 0 <= i < count ==> #[trigger] times[i] >= 0
    &&& ids.len() == count
    &&& forall|i: int| 0 <= i < count ==> records::drawn(#[trigger] ids[i])
    &&& match done.1 {
        Err(expected) => {
            &&& result matches Err(error)
            &&& error@ == expected
            &&& after == done.0
        },
        Ok(events) => ended_somehow(done.0, with_events(run, events), after, result),
    }
}

/// Recording adds no more rows than there are records to record.
proof fn lemma_recorded_rows(
    m: LedgerView,
    run: RunView,
    times: Seq<i64>,
    ids: Seq<ObservationIds>,
    count: int,
)
    requires
        0 <= count,
    ensures
        recorded(m, run, times, ids, count).0.source_records.len() <= m.source_records.len()
            + count,
    decreases count,
{
    if count > 0 {
        lemma_recorded_rows(m, run, times, ids, count - 1);
    }
}

impl<'a> ScanRun<'a> {
    /// Whether the scan may be committed: it is finished, and its roots are healthy again.
    fn check_commit(&self, probes: Vec<RootProbe>) -> (result: Result<(), SourceError>)
        ensures
            match commit_refusal(self@, probes@) {
                Some(expected) => result matches Err(error) && error@ == expected,
                None => result is Ok,
            },
    {
        match self.phase {
            Phase::Finished => source_fs::verify_roots(self.config.roots(), probes),
            _ => Err(step_not_due()),
        }
    }

    /// Records every accepted record and ends the scan, with times and new identities as given. A scan
    /// that is not finished, or whose roots are not healthy now, changes nothing.
    pub fn commit_with(
        self,
        catalog: &mut Catalog,
        probes: Vec<RootProbe>,
        times: &Vec<i64>,
        ids: &Vec<ObservationIds>,
        at_ms: i64,
        event_ids: &Vec<EventId>,
    ) -> (result: Result<ReconcileReport, SourceError>)
        requires
            old(catalog).wf(),
            self.wf(),
            times@.len() == self@.accepted.len(),
            ids@.len() == self@.accepted.len(),
            event_ids@.len() >= old(catalog)@.source_records.len() + self@.accepted.len(),
        ensures
            final(catalog).wf(),
            consistency::consistent(old(catalog)@) ==> consistency::consistent(final(catalog)@),
            match commit_refusal(self@, probes@) {
                Some(expected) => {
                    &&& result matches Err(error)
                    &&& error@ == expected
                    &&& final(catalog)@ == old(catalog)@
                },
                None => {
                    let done = recorded(
                        old(catalog)@,
                        self@,
                        times@,
                        ids@,
                        times@.len() as int,
                    );
                    match done.1 {
                        Err(expected) => {
                            &&& result matches Err(error)
                            &&& error@ == expected
                            &&& final(catalog)@ == done.0
                        },
                        Ok(events) => end_outcome(
                            ended(
                                done.0,
                                with_events(self@, events),
                                self@.source,
                                at_ms,
                                event_ids@,
                            ),
                            done.0,
                            final(catalog)@,
                            result,
                        ),
                    }
                },
            },
    {
        match self.check_commit(probes) {
            Ok(_) => {},
            Err(error) => {
                return Err(error);
            },
        }
        proof {
            lemma_recorded_rows(catalog@, self@, times@, ids@, times@.len() as int);
        }
        let mut run = self;
        match run.record_with(catalog, times, ids) {
            Err(error) => Err(error),
            Ok(_) => run.end_with(catalog, at_ms, event_ids),
        }
    }

    /// Records every accepted record and ends the scan, at the time of the call. A scan that is not
    /// finished, or whose roots are not healthy now, changes nothing.
    pub fn commit(self, catalog: &mut Catalog, probes: Vec<RootProbe>) -> (result: Result<
        ReconcileReport,
        SourceError,
    >)
        requires
            old(catalog).wf(),
            self.wf(),
        ensures
            final(catalog).wf(),
            consistency::consistent(old(catalog)@) ==> consistency::consistent(final(catalog)@),
            match commit_refusal(self@, probes@) {
                Some(expected) => {
                    &&& result matches Err(error)
                    &&& error@ == expected
                    &&& final(catalog)@ == old(catalog)@
                },
                None => (final(catalog)@ == old(catalog)@ && clock_refused(result)) || exists|
                    times: Seq<i64>,
                    ids: Seq<ObservationIds>,
                |
                    #[trigger] committed_as(
                        old(catalog)@,
                        self@,
                        times,
                        ids,
                        final(catalog)@,
                        result,
                    ),
            },
    {
        match self.check_commit(probes) {
            Ok(_) => {},
            Err(error) => {
                return Err(error);
            },
        }
        let mut times: Vec<i64> = Vec::new();
        let mut ids: Vec<ObservationIds> = Vec::new();
        while times.len() < self.accepted.len()
            invariant
                times@.len() <= self.accepted@.len(),
                ids@.len() == times@.len(),
                forall|i: int| 0 <= i < times@.len() ==> #[trigger] times@[i] >= 0,
                forall|i: int| 0 <= i < ids@.len() ==> records::drawn(#[trigger] ids@[i]),
                catalog.wf(),
                catalog@ == old(catalog)@,
                commit_refusal(self@, probes@) is None,
            decreases self.accepted@.len() - times@.len(),
        {
            match now_ms() {
                Ok(now) => {
                    times.push(now);
                    ids.push(ObservationIds::draw());
                },
                Err(error) => {
                    return Err(SourceError::Catalog(error));
                },
            }
        }
        let mut run = self;
        let recorded_all = run.record_with(catalog, &times, &ids);
        match recorded_all {
            Err(error) => {
                let result: Result<ReconcileReport, SourceError> = Err(error);
                assert(committed_as(
                    old(catalog)@,
                    self@,
                    times@,
                    ids@,
                    catalog@,
                    result,
                ));
                result
            },
            Ok(_) => {
                let result = run.end_now(catalog);
                assert(committed_as(
                    old(catalog)@,
                    self@,
                    times@,
                    ids@,
                    catalog@,
                    result,
                ));
                result
            },
        }
    }

    /// Ends the scan at the time of the call.
    fn end_now(self, catalog: &mut Catalog) -> (result: Result<ReconcileReport, SourceError>)
        requires
            old(catalog).wf(),
        ensures
            final(catalog).wf(),
            consistency::consistent(old(catalog)@) ==> consistency::consistent(final(catalog)@),
            ended_somehow(old(catalog)@, self@, final(catalog)@, result),
    {
        let now: i64 = match now_ms() {
            Ok(now) => now,
            Err(error) => {
                return Err(SourceError::Catalog(error));
            },
        };
        let mut event_ids: Vec<EventId> = Vec::new();
        while event_ids.len() < catalog.source_records.len()
            invariant
                event_ids@.len() <= catalog.source_records@.len(),
                domain::all_drawn(event_ids@),
                catalog.wf(),
                catalog@ == old(catalog)@,
            decreases catalog.source_records@.len() - event_ids@.len(),
        {
            event_ids.push(EventId::new());
        }
        let ghost before = catalog@;
        let result = self.end_with(catalog, now, &event_ids);
        assert(end_outcome(
            ended(before, self@, self@.source, now, event_ids@),
            before,
            catalog@,
            result,
        ));
        result
    }
}

/// Reads the revision of a file's bytes, given as the reads that produced them.
pub trait RevisionHasher {
    fn hash(&self, reads: &Vec<Vec<u8>>) -> Result<CanonicalRevision, SourceError>;
}

/// The canonical revision of the bytes.
#[derive(Clone, Copy, Debug)]
pub struct Blake3RevisionHasher;

impl RevisionHasher for Blake3RevisionHasher {
    fn hash(&self, reads: &Vec<Vec<u8>>) -> (result: Result<CanonicalRevision, SourceError>)
        ensures
            ({
                let bytes = domain::bytes_read(text::views(reads@));
                match result {
                    Ok(revision) => bytes.len() <= u64::MAX && revision@ == domain::revision_of(
                        bytes,
                    ),
                    Err(error) => bytes.len() > u64::MAX && error@ == SourceErrorView::Domain(
                        DomainErrorView::RecordTooLarge,
                    ),
                }
            }),
    {
        match CanonicalRevision::from_reader(reads) {
            Ok(revision) => Ok(revision),
            Err(error) => Err(SourceError::Domain(error)),
        }
    }
}

/// A source with the rule that names its records and the way their bytes are read.
pub struct Reconciler<L, H> {
    config: SourceConfig,
    layout: L,
    hasher: H,
}

impl<L: LayoutPlugin> Reconciler<L, Blake3RevisionHasher> {
    /// A reconciler that reads canonical revisions.
    pub fn new(config: SourceConfig, layout: L) -> (result: Reconciler<L, Blake3RevisionHasher>)
        ensures
            result.source() == config@,
            result.plugin() == layout,
            result.reader() == Blake3RevisionHasher,
    {
        Reconciler::with_hasher(config, layout, Blake3RevisionHasher)
    }
}

impl<L, H> Reconciler<L, H> {
    /// The source.
    pub closed spec fn source(self) -> SourceView {
        self.config@
    }

    /// The rule that names the records.
    pub closed spec fn plugin(self) -> L {
        self.layout
    }

    /// The way bytes are read.
    pub closed spec fn reader(self) -> H {
        self.hasher
    }
}

impl<L: LayoutPlugin, H: RevisionHasher> Reconciler<L, H> {
    /// A reconciler that reads bytes its own way.
    pub fn with_hasher(config: SourceConfig, layout: L, hasher: H) -> (result: Reconciler<L, H>)
        ensures
            result.source() == config@,
            result.plugin() == layout,
            result.reader() == hasher,
    {
        Reconciler { config, layout, hasher }
    }

    pub fn config(&self) -> (result: &SourceConfig)
        ensures
            result@ == self.source(),
    {
        &self.config
    }

    pub fn layout(&self) -> (result: &L)
        ensures
            *result == self.plugin(),
    {
        &self.layout
    }

    pub fn hasher(&self) -> (result: &H)
        ensures
            *result == self.reader(),
    {
        &self.hasher
    }

    /// The schema under which the source is registered.
    pub fn identity_schema(&self) -> (result: IdentitySchema)
        ensures
            call_ensures(L::identity_schema, (&self.plugin(),), result),
    {
        self.layout.identity_schema()
    }

    /// Begins a scan of the source, given what inspecting its roots in order found.
    pub fn begin(&self, catalog: &mut Catalog, probes: Vec<RootProbe>) -> (result: Result<
        ScanRun<'_>,
        SourceError,
    >)
        requires
            old(catalog).wf(),
        ensures
            final(catalog).wf(),
            consistency::consistent(old(catalog)@) ==> consistency::consistent(final(catalog)@),
            exists|schema: IdentitySchema|
                {
                    &&& #[trigger] call_ensures(L::identity_schema, (&self.plugin(),), schema)
                    &&& match begun(old(catalog)@, self.source(), schema@, probes@) {
                        Ok((next, run)) => {
                            &&& result matches Ok(started)
                            &&& started.wf()
                            &&& started@ == run
                            &&& final(catalog)@ == next
                        },
                        Err(expected) => {
                            &&& result matches Err(error)
                            &&& error@ == expected
                            &&& final(catalog)@ == old(catalog)@
                        },
                    }
                },
    {
        let schema = self.layout.identity_schema();
        assert(call_ensures(L::identity_schema, (&self.plugin(),), schema));
        ScanRun::begin(&self.config, &schema, catalog, probes)
    }
}

impl<L: LayoutPlugin, H: RevisionHasher> Reconciler<L, H> {
    /// Whether the layout may answer so for this path.
    pub open spec fn names(self, path: Seq<char>, answer: bool) -> bool {
        exists|name: &str|
            name@ == path && #[trigger] call_ensures(
                L::is_candidate_path,
                (&self.plugin(), name),
                answer,
            )
    }

    /// Whether the layout may give these answers for the paths of these files.
    pub open spec fn names_all(self, files: Seq<FileView>, answers: Seq<bool>) -> bool {
        &&& answers.len() == files.len()
        &&& forall|i: int|
            0 <= i < files.len() ==> self.names((#[trigger] files[i]).relative_path, answers[i])
    }

    /// Whether the layout may find this in a file of a source that begins with these bytes.
    pub open spec fn finds(
        self,
        source: SourceView,
        file: FileView,
        head: &[u8],
        answer: Result<Option<ParsedRecord>, SourceError>,
    ) -> bool {
        exists|role: &str, path: &str|
            {
                &&& role@ == source.roots[file.root_index as int].root_role
                &&& path@ == file.relative_path
                &&& #[trigger] call_ensures(
                    L::parse_record,
                    (&self.plugin(), source.producer_id, role, path, head),
                    answer,
                )
            }
    }

    /// Takes in all files below the roots and keeps those whose path the layout accepts.
    pub fn enumerated(&self, run: &mut ScanRun<'_>, files: Vec<FileCandidate>) -> (result: Result<
        (),
        SourceError,
    >)
        requires
            old(run).wf(),
        ensures
            final(run).wf(),
            exists|answers: Seq<bool>| #[trigger]
                self.names_all(text::views(files@), answers) && step_outcome(
                    enumerated(
                        old(run)@,
                        files@.len() as u64,
                        kept(text::views(files@), answers),
                    ),
                    old(run)@,
                    final(run)@,
                    result,
                ),
    {
        let ghost given = text::views(files@);
        let ghost mut answers: Seq<bool> = Seq::empty();
        let mut candidates: Vec<FileCandidate> = Vec::new();
        let mut i: usize = 0;
        proof {
            assert(text::views(candidates@) =~= kept(given.take(0), answers));
        }
        while i < files.len()
            invariant
                0 <= i <= files@.len(),
                given == text::views(files@),
                answers.len() == i,
                forall|j: int|
                    0 <= j < i ==> self.names((#[trigger] given[j]).relative_path, answers[j]),
                text::views(candidates@) == kept(given.take(i as int), answers),
            decreases files@.len() - i,
        {
            let ghost before = answers;
            assert(given[i as int] == files@[i as int]@);
            let path: &str = files[i].relative_path.as_str();
            let accepted: bool = self.layout.is_candidate_path(path);
            proof {
                assert(call_ensures(L::is_candidate_path, (&self.plugin(), path), accepted));
                assert(self.names(given[i as int].relative_path, accepted));
                answers = before.push(accepted);
                assert(answers.drop_last() =~= before);
                assert(given.take(i + 1).drop_last() =~= given.take(i as int));
                assert(given.take(i + 1).last() == given[i as int]);
            }
            if accepted {
                let file = files[i].copy();
                proof {
                    text::lemma_views_push(candidates@, file);
                }
                candidates.push(file);
            }
            i += 1;
        }
        assert(given.take(i as int) =~= given);
        assert(self.names_all(given, answers));
        run.enumerated(files.len() as u64, candidates)
    }

    /// Takes in the first bytes of the file that is open: the layout reads the record in it.
    pub fn parsed(&self, run: &mut ScanRun<'_>, head: &[u8]) -> (result: Result<(), SourceError>)
        requires
            old(run).wf(),
        ensures
            final(run).wf(),
            match to_parse(old(run)@) {
                None => {
                    &&& result matches Err(error)
                    &&& error@ == not_due()
                    &&& final(run)@ == old(run)@
                },
                Some(file) => exists|answer: Result<Option<ParsedRecord>, SourceError>|
                    {
                        &&& #[trigger] self.finds(old(run)@.source, file, head, answer)
                        &&& match answer {
                            Err(error) => {
                                &&& result == Err::<(), SourceError>(error)
                                &&& final(run)@ == old(run)@
                            },
                            Ok(record) => step_outcome(
                                parsed(old(run)@, text::view_option(record)),
                                old(run)@,
                                final(run)@,
                                result,
                            ),
                        }
                    },
            },
    {
        let file: &FileCandidate = match run.phase {
            Phase::Parsing { next } => {
                assert(run@.candidates[next as int] == run.candidates@[next as int]@);
                &run.candidates[next]
            },
            Phase::Reparsing { at, .. } => {
                assert(run@.found[at as int] == run.found@[at as int]@);
                &run.found[at].file
            },
            _ => {
                return Err(step_not_due());
            },
        };
        let roots = run.config.roots();
        assert(run@.source.roots[file.root_index as int] == roots@[file.root_index as int]@);
        let role: &str = roots[file.root_index].root_role();
        let path: &str = file.relative_path.as_str();
        let answer = self.layout.parse_record(run.config.producer_id(), role, path, head);
        proof {
            assert(call_ensures(
                L::parse_record,
                (&self.plugin(), run@.source.producer_id, role, path, head),
                answer,
            ));
            assert(self.finds(run@.source, file@, head, answer));
        }
        match answer {
            Err(error) => Err(error),
            Ok(record) => run.parsed(record),
        }
    }

    /// Takes in all bytes of the file that is open, as the reads that produced them.
    pub fn hashed(&self, run: &mut ScanRun<'_>, reads: &Vec<Vec<u8>>) -> (result: Result<
        (),
        SourceError,
    >)
        requires
            old(run).wf(),
        ensures
            final(run).wf(),
            if old(run)@.phase is Reading {
                exists|answer: Result<CanonicalRevision, SourceError>|
                    {
                        &&& #[trigger] call_ensures(H::hash, (&self.reader(), reads), answer)
                        &&& match answer {
                            Err(error) => {
                                &&& result == Err::<(), SourceError>(error)
                                &&& final(run)@ == old(run)@
                            },
                            Ok(revision) => step_outcome(
                                hashed(old(run)@, revision@),
                                old(run)@,
                                final(run)@,
                                result,
                            ),
                        }
                    }
            } else {
                &&& result matches Err(error)
                &&& error@ == not_due()
                &&& final(run)@ == old(run)@
            },
    {
        match run.phase {
            Phase::Reading { .. } => {},
            _ => {
                return Err(step_not_due());
            },
        }
        let answer = self.hasher.hash(reads);
        assert(call_ensures(H::hash, (&self.reader(), reads), answer));
        match answer {
            Err(error) => Err(error),
            Ok(revision) => run.hashed(revision),
        }
    }
}

/// A file is read only once it was seen unchanged as often as the source asks.
pub proof fn law_unstable_file_is_not_read(
    source: SourceView,
    observation: SourceObservation,
    byte_length: u64,
    bytes_hashed: u64,
)
    ensures
        decided(source, observation, byte_length, bytes_hashed) == HashDecision::Read
            ==> observation.unchanged_observations >= source.stability,
{
}

/// A file whose bytes were recorded under its fingerprint is not read, whatever the source's bounds.
pub proof fn law_recorded_fingerprint_is_not_read(
    source: SourceView,
    observation: SourceObservation,
    byte_length: u64,
    bytes_hashed: u64,
)
    requires
        !observation.needs_hash,
    ensures
        decided(source, observation, byte_length, bytes_hashed) != HashDecision::Read,
{
}

/// A scan has seen the file at a place under this fingerprint.
pub open spec fn seen_by(
    m: LedgerView,
    scan: ScanView,
    location: LocationView,
    fingerprint: SourceFingerprint,
) -> bool {
    &&& ledger::find_first(m.observations, sources::seen_at(scan.source_id, location)) matches Some(
        at,
    )
    &&& m.observations[at].fingerprint == fingerprint
    &&& m.observations[at].last_seen_generation == scan.generation
}

/// The bytes of the file at a place were recorded under this fingerprint.
pub open spec fn recorded_as(
    m: LedgerView,
    source_id: Seq<char>,
    location: LocationView,
    fingerprint: SourceFingerprint,
) -> bool {
    &&& ledger::find_first(m.observations, sources::seen_at(source_id, location)) matches Some(at)
    &&& m.observations[at].fingerprint == fingerprint
    &&& m.observations[at].hash_admitted
}

/// Whether two tables hold the same observations but for hashes that were recorded meanwhile.
spec fn same_but_admitted(a: Seq<ObservationView>, b: Seq<ObservationView>) -> bool {
    &&& a.len() == b.len()
    &&& forall|i: int|
        #![trigger a[i]]
        #![trigger b[i]]
        0 <= i < a.len() ==> b[i] == (ObservationView {
            hash_admitted: b[i].hash_admitted,
            ..a[i]
        }) && (a[i].hash_admitted ==> b[i].hash_admitted)
}

proof fn lemma_same_place(
    a: Seq<ObservationView>,
    b: Seq<ObservationView>,
    source_id: Seq<char>,
    location: LocationView,
)
    requires
        same_but_admitted(a, b),
    ensures
        ledger::find_first(a, sources::seen_at(source_id, location)) == ledger::find_first(
            b,
            sources::seen_at(source_id, location),
        ),
{
    let accepts = sources::seen_at(source_id, location);
    ledger::lemma_find_first(a, accepts);
    match ledger::find_first(a, accepts) {
        Some(at) => {
            assert(ledger::is_first(b, accepts, at)) by {
                assert forall|j: int| 0 <= j < at implies !accepts(#[trigger] b[j]) by {
                    assert(!accepts(a[j]));
                }
            }
            ledger::lemma_found(b, accepts, at);
        },
        None => {
            assert forall|j: int| 0 <= j < b.len() implies !accepts(#[trigger] b[j]) by {
                assert(!accepts(a[j]));
            }
            ledger::lemma_not_found(b, accepts);
        },
    }
}

proof fn lemma_observe_keeps_observations(
    m: LedgerView,
    run: RunView,
    accepted: AcceptedView,
    at_ms: i64,
    ids: ObservationIds,
)
    ensures
        sources::observe_for(
            m,
            run.scan,
            run.registration,
            accepted.record.identity,
            accepted.record.location,
            accepted.revision,
            at_ms,
            ids,
        ).0.observations == m.observations,
{
}

/// Recording one accepted record changes no observation but that its own hash is recorded.
proof fn lemma_recorded_one(
    m: LedgerView,
    run: RunView,
    accepted: AcceptedView,
    at_ms: i64,
    ids: ObservationIds,
    fingerprint: SourceFingerprint,
)
    ensures
        same_but_admitted(m.observations, recorded_one(m, run, accepted, at_ms, ids).0.observations),
        seen_by(m, run.scan, accepted.record.location, fingerprint) && recorded_one(
            m,
            run,
            accepted,
            at_ms,
            ids,
        ).1 is Ok ==> recorded_as(
            recorded_one(m, run, accepted, at_ms, ids).0,
            run.scan.source_id,
            accepted.record.location,
            fingerprint,
        ),
{
    let location = accepted.record.location;
    let next = recorded_one(m, run, accepted, at_ms, ids);
    lemma_observe_keeps_observations(m, run, accepted, at_ms, ids);
    lemma_same_place(m.observations, next.0.observations, run.scan.source_id, location);
    let at_place = sources::seen_at(run.scan.source_id, location);
    let now = sources::seen_in(run.scan, location);
    ledger::lemma_find_first(m.observations, now);
    if seen_by(m, run.scan, location, fingerprint) {
        ledger::lemma_find_first(m.observations, at_place);
        let at = ledger::find_first(m.observations, at_place)->Some_0;
        assert(ledger::is_first(m.observations, now, at)) by {
            assert forall|j: int| 0 <= j < at implies !now(#[trigger] m.observations[j]) by {
                assert(!at_place(m.observations[j]));
            }
        }
        ledger::lemma_found(m.observations, now, at);
    }
}

/// Recording keeps what was seen and what was recorded, and what it accepts is recorded.
proof fn lemma_recorded(
    m: LedgerView,
    run: RunView,
    times: Seq<i64>,
    ids: Seq<ObservationIds>,
    count: int,
    k: int,
    fingerprint: SourceFingerprint,
)
    requires
        recorded(m, run, times, ids, count).1 is Ok,
        0 <= k,
        seen_by(m, run.scan, run.accepted[k].record.location, fingerprint),
    ensures
        same_but_admitted(m.observations, recorded(m, run, times, ids, count).0.observations),
        k < count ==> recorded_as(
            recorded(m, run, times, ids, count).0,
            run.scan.source_id,
            run.accepted[k].record.location,
            fingerprint,
        ),
    decreases count,
{
    if count > 0 {
        let before = recorded(m, run, times, ids, count - 1).0;
        let after = recorded(m, run, times, ids, count).0;
        let location = run.accepted[k].record.location;
        lemma_recorded(m, run, times, ids, count - 1, k, fingerprint);
        lemma_recorded_one(
            before,
            run,
            run.accepted[count - 1],
            times[count - 1],
            ids[count - 1],
            fingerprint,
        );
        lemma_same_place(m.observations, before.observations, run.scan.source_id, location);
        lemma_same_place(before.observations, after.observations, run.scan.source_id, location);
        ledger::lemma_find_first(
            m.observations,
            sources::seen_at(run.scan.source_id, location),
        );
        let at = ledger::find_first(
            m.observations,
            sources::seen_at(run.scan.source_id, location),
        )->Some_0;
        assert(before.observations[at].fingerprint == m.observations[at].fingerprint);
        assert(after.observations[at].fingerprint == before.observations[at].fingerprint);
    }
}

/// Looking at a found file marks it as seen by the scan, and leaves what is seen or recorded of
/// other files as it is.
pub proof fn law_observed_file_is_seen(
    m: LedgerView,
    run: RunView,
    source: SourceView,
    at: int,
    other: LocationView,
    fingerprint: SourceFingerprint,
)
    ensures
        observed(m, run, source, at).1 is Ok ==> seen_by(
            observed(m, run, source, at).0,
            run.scan,
            run.found[at].record.location,
            run.found[at].file.fingerprint,
        ),
        other != run.found[at].record.location && seen_by(m, run.scan, other, fingerprint)
            ==> seen_by(observed(m, run, source, at).0, run.scan, other, fingerprint),
        other != run.found[at].record.location && recorded_as(
            m,
            run.scan.source_id,
            other,
            fingerprint,
        ) ==> recorded_as(
            observed(m, run, source, at).0,
            run.scan.source_id,
            other,
            fingerprint,
        ),
{
    let location = run.found[at].record.location;
    let next = observed(m, run, source, at).0;
    let row = sources::looked(m, run.scan, location, run.found[at].file.fingerprint);
    let here = sources::seen_at(run.scan.source_id, location);
    let there = sources::seen_at(run.scan.source_id, other);
    ledger::lemma_find_first(m.observations, here);
    ledger::lemma_find_first(m.observations, there);
    if next.observations != m.observations {
        assert(next.observations == sources::with_observation(m, row).observations);
        match ledger::find_first(m.observations, here) {
            Some(i) => {
                assert(ledger::is_first(next.observations, here, i)) by {
                    assert forall|j: int| 0 <= j < i implies !here(#[trigger] next.observations[j]) by {
                        assert(!here(m.observations[j]));
                    }
                }
                ledger::lemma_found(next.observations, here, i);
            },
            None => {
                let i = m.observations.len() as int;
                assert(ledger::is_first(next.observations, here, i)) by {
                    assert forall|j: int| 0 <= j < i implies !here(#[trigger] next.observations[j]) by {
                        assert(!here(m.observations[j]));
                    }
                }
                ledger::lemma_found(next.observations, here, i);
            },
        }
        if other != location {
            if let Some(k) = ledger::find_first(m.observations, there) {
                assert(ledger::is_first(next.observations, there, k)) by {
                    assert forall|j: int| 0 <= j < k implies !there(#[trigger] next.observations[j]) by {
                        assert(!there(m.observations[j]));
                    }
                }
                ledger::lemma_found(next.observations, there, k);
            }
        }
    } else {
        assert(observed(m, run, source, at).1 is Ok ==> sources::with_observation(
            m,
            row,
        ).observations == m.observations);
        if observed(m, run, source, at).1 is Ok {
            if let Some(i) = ledger::find_first(m.observations, here) {
                assert(m.observations[i] == m.observations.update(i, row)[i]);
            } else {
                assert(m.observations.push(row).len() == m.observations.len() + 1);
            }
        }
    }
}

/// A file whose bytes are recorded under its fingerprint is left alone: no scan that finds it
/// unchanged reads it, whatever the source's bounds, and what the scan has read stays the same.
pub proof fn law_recorded_file_is_not_read(m: LedgerView, run: RunView, source: SourceView, at: int)
    requires
        recorded_as(
            m,
            run.scan.source_id,
            run.found[at].record.location,
            run.found[at].file.fingerprint,
        ),
    ensures
        observed(m, run, source, at).1 matches Ok((next, decision)) ==> decision
            != HashDecision::Read && next.report.bytes_hashed == run.report.bytes_hashed,
{
}

/// A first row that is kept stays the first of its place among the rows that are kept.
proof fn lemma_kept_row(
    rows: Seq<ObservationView>,
    keeps: spec_fn(ObservationView) -> bool,
    accepts: spec_fn(ObservationView) -> bool,
    at: int,
)
    requires
        ledger::is_first(rows, accepts, at),
        keeps(rows[at]),
    ensures
        ({
            let kept = rows.filter(keeps);
            &&& ledger::find_first(kept, accepts) matches Some(i)
            &&& kept[i] == rows[at]
        }),
    decreases rows.len(),
{
    let shorter = rows.drop_last();
    let kept = rows.filter(keeps);
    assert(rows =~= shorter.push(rows.last()));
    shorter.lemma_filter_push(rows.last(), keeps);
    if at < shorter.len() {
        assert(ledger::is_first(shorter, accepts, at)) by {
            assert forall|j: int| 0 <= j < at implies !accepts(#[trigger] shorter[j]) by {
                assert(!accepts(rows[j]));
            }
        }
        lemma_kept_row(shorter, keeps, accepts, at);
        let before = shorter.filter(keeps);
        ledger::lemma_find_first(before, accepts);
        let i = ledger::find_first(before, accepts)->Some_0;
        assert(ledger::is_first(kept, accepts, i)) by {
            assert forall|j: int| 0 <= j < i implies !accepts(#[trigger] kept[j]) by {
                assert(!accepts(before[j]));
            }
        }
        ledger::lemma_found(kept, accepts, i);
    } else {
        let before = shorter.filter(keeps);
        assert forall|j: int| 0 <= j < before.len() implies !accepts(#[trigger] before[j]) by {
            assert(before.contains(before[j]));
            shorter.lemma_filter_contains_rev(keeps, before[j]);
            let k = choose|k: int| 0 <= k < shorter.len() && shorter[k] == before[j];
            assert(!accepts(rows[k]));
        }
        let i = before.len() as int;
        assert(kept =~= before.push(rows[at]));
        assert(ledger::is_first(kept, accepts, i));
        ledger::lemma_found(kept, accepts, i);
    }
}

/// Ending a scan keeps that the bytes of a file which the scan saw are recorded.
proof fn lemma_recorded_after_end(
    m: LedgerView,
    run: RunView,
    source: SourceView,
    at_ms: i64,
    event_ids: Seq<EventId>,
    location: LocationView,
    fingerprint: SourceFingerprint,
)
    requires
        seen_by(m, run.scan, location, fingerprint),
        recorded_as(m, run.scan.source_id, location, fingerprint),
    ensures
        ended(m, run, source, at_ms, event_ids) matches Ok((next, report)) ==> recorded_as(
            next,
            run.scan.source_id,
            location,
            fingerprint,
        ),
{
    let accepts = sources::seen_at(run.scan.source_id, location);
    ledger::lemma_find_first(m.observations, accepts);
    let at = ledger::find_first(m.observations, accepts)->Some_0;
    if let DeletionMode::Guarded(grace) = source.deletion_mode {
        sources::lemma_miss_all_keeps_sources(
            m,
            run.scan,
            grace,
            at_ms,
            m.source_records.filter(sources::is_missing(run.scan)),
            event_ids,
        );
    }
    lemma_kept_row(m.observations, sources::is_fresh(run.scan), accepts, at);
}

/// Only changed, stable files are read again: a file whose revision a scan recorded, and which the
/// next scan of that source finds at its place under the same fingerprint, is not read by it.
pub proof fn law_unchanged_file_is_not_read_again(
    m: LedgerView,
    first: RunView,
    source: SourceView,
    times: Seq<i64>,
    ids: Seq<ObservationIds>,
    at_ms: i64,
    event_ids: Seq<EventId>,
    k: int,
    fingerprint: SourceFingerprint,
    again: SourceView,
    schema: SchemaView,
    probes: Seq<RootProbe>,
    second: RunView,
    at: int,
)
    requires
        0 <= k < first.accepted.len(),
        seen_by(m, first.scan, first.accepted[k].record.location, fingerprint),
        recorded(m, first, times, ids, first.accepted.len() as int).1 is Ok,
        ({
            let done = recorded(m, first, times, ids, first.accepted.len() as int).0;
            ended(done, first, source, at_ms, event_ids) matches Ok((after, report)) && begun(
                after,
                again,
                schema,
                probes,
            ) matches Ok((next, started)) && second.scan == started.scan
        }),
        second.scan.source_id == first.scan.source_id,
        second.found[at].record.location == first.accepted[k].record.location,
        second.found[at].file.fingerprint == fingerprint,
    ensures
        ({
            let done = recorded(m, first, times, ids, first.accepted.len() as int).0;
            let after = ended(done, first, source, at_ms, event_ids)->Ok_0.0;
            let next = begun(after, again, schema, probes)->Ok_0.0;
            observed(next, second, again, at).1 matches Ok((run, decision)) ==> decision
                != HashDecision::Read && run.report.bytes_hashed == second.report.bytes_hashed
        }),
{
    let count = first.accepted.len() as int;
    let location = first.accepted[k].record.location;
    let done = recorded(m, first, times, ids, count).0;
    lemma_recorded(m, first, times, ids, count, k, fingerprint);
    lemma_same_place(m.observations, done.observations, first.scan.source_id, location);
    ledger::lemma_find_first(
        m.observations,
        sources::seen_at(first.scan.source_id, location),
    );
    lemma_recorded_after_end(
        done,
        first,
        source,
        at_ms,
        event_ids,
        location,
        fingerprint,
    );
    let after = ended(done, first, source, at_ms, event_ids)->Ok_0.0;
    let next = begun(after, again, schema, probes)->Ok_0.0;
    assert(next.observations == after.observations);
    law_recorded_file_is_not_read(next, second, again, at);
}

/// A scan that accepted nothing and misses no record is silent: it makes no event, and what it
/// reports as read is what it had read.
pub proof fn law_scan_without_news_is_silent(
    m: LedgerView,
    run: RunView,
    source: SourceView,
    times: Seq<i64>,
    ids: Seq<ObservationIds>,
    at_ms: i64,
    event_ids: Seq<EventId>,
)
    requires
        run.accepted.len() == 0,
        run.report.events.len() == 0,
        m.source_records.filter(sources::is_missing(run.scan)).len() == 0,
    ensures
        recorded(m, run, times, ids, 0) == (
            m,
            Ok::<Seq<EventView>, SourceErrorView>(run.report.events),
        ),
        ended(m, run, source, at_ms, event_ids) matches Ok((next, report)) ==> {
            &&& report.events.len() == 0
            &&& report.bytes_hashed == run.report.bytes_hashed
            &&& same_history(m, next)
        },
{
}

/// Within a budget, no file is read whose length would exceed what is left of it.
pub proof fn law_budget_is_kept(
    source: SourceView,
    observation: SourceObservation,
    byte_length: u64,
    bytes_hashed: u64,
)
    requires
        source.hash_budget is Some,
    ensures
        decided(source, observation, byte_length, bytes_hashed) == HashDecision::Read
            ==> bytes_hashed + byte_length <= source.hash_budget->Some_0,
{
}

/// A file that changed while it was read, or since it was found, adds nothing to what is accepted.
pub proof fn law_changed_file_is_never_accepted(
    run: RunView,
    current: SourceFingerprint,
    record: Option<ParsedView>,
    after: SourceFingerprint,
)
    requires
        sound(run),
    ensures
        opened(run, current) matches Ok(next) ==> next.accepted == run.accepted,
        parsed(run, record) matches Ok(next) ==> next.accepted == run.accepted,
        run.phase matches PhaseView::Reopening { at, .. } ==> current
            != run.found[at].file.fingerprint ==> opened(run, current) == left_alone(
            run,
            PhaseView::Looking { next: at + 1 },
        ),
        run.phase matches PhaseView::Reparsing { at, .. } ==> record != Some(run.found[at].record)
            ==> parsed(run, record) == left_alone(run, PhaseView::Looking { next: at + 1 }),
        run.phase matches PhaseView::Closing { at, .. } ==> after != run.found[at].file.fingerprint
            ==> accepted(run, after) == left_alone(run, PhaseView::Looking { next: at + 1 }),
{
}

/// One step of a scan, with what was found out of it. A step that asks for the next action finds a
/// catalog.
pub enum ScanStep {
    Next { catalog: LedgerView },
    Enumerated { files: u64, candidates: Seq<FileView> },
    Opened { current: SourceFingerprint },
    Parsed { record: Option<ParsedView> },
    Hashed { revision: RevisionView },
    Accept { after: SourceFingerprint },
}

/// The scan after a step that comes to this: a step that is refused changes nothing.
pub open spec fn taken(run: RunView, outcome: Result<RunView, SourceErrorView>) -> RunView {
    match outcome {
        Ok(next) => next,
        Err(error) => run,
    }
}

/// The scan after a step.
pub open spec fn stepped(run: RunView, step: ScanStep) -> RunView {
    match step {
        ScanStep::Next { catalog } => advanced(catalog, run).1,
        ScanStep::Enumerated { files, candidates } => taken(
            run,
            enumerated(run, files, candidates),
        ),
        ScanStep::Opened { current } => taken(run, opened(run, current)),
        ScanStep::Parsed { record } => taken(run, parsed(run, record)),
        ScanStep::Hashed { revision } => taken(run, hashed(run, revision)),
        ScanStep::Accept { after } => taken(run, accepted(run, after)),
    }
}

/// The scan after steps in order, whatever they are.
pub open spec fn reached(run: RunView, steps: Seq<ScanStep>) -> RunView
    decreases steps.len(),
{
    if steps.len() == 0 {
        run
    } else {
        stepped(reached(run, steps.drop_last()), steps.last())
    }
}

/// Whether two scans are of the same source, under the same registration, begun at the same time with
/// the same roots.
pub open spec fn same_scan(a: RunView, b: RunView) -> bool {
    &&& a.source == b.source
    &&& a.probes == b.probes
    &&& a.scan == b.scan
    &&& a.registration == b.registration
}

proof fn lemma_begun_is_sound(
    m: LedgerView,
    source: SourceView,
    schema: SchemaView,
    probes: Seq<RootProbe>,
)
    ensures
        begun(m, source, schema, probes) matches Ok((next, run)) ==> sound(run),
{
}

proof fn lemma_enumerated_is_sound(run: RunView, files: u64, candidates: Seq<FileView>)
    requires
        sound(run),
    ensures
        enumerated(run, files, candidates) matches Ok(next) ==> sound(next) && same_scan(run, next)
            && dealt_with(run) <= dealt_with(next),
{
}

proof fn lemma_opened_is_sound(run: RunView, current: SourceFingerprint)
    requires
        sound(run),
    ensures
        opened(run, current) matches Ok(next) ==> sound(next) && same_scan(run, next) && dealt_with(
            run,
        ) <= dealt_with(next),
{
}

proof fn lemma_parsed_is_sound(run: RunView, record: Option<ParsedView>)
    requires
        sound(run),
    ensures
        parsed(run, record) matches Ok(next) ==> sound(next) && same_scan(run, next) && dealt_with(
            run,
        ) <= dealt_with(next),
{
}

proof fn lemma_hashed_is_sound(run: RunView, revision: RevisionView)
    requires
        sound(run),
    ensures
        hashed(run, revision) matches Ok(next) ==> sound(next) && same_scan(run, next)
            && dealt_with(run) <= dealt_with(next),
{
}

proof fn lemma_accepted_is_sound(run: RunView, after: SourceFingerprint)
    requires
        sound(run),
    ensures
        accepted(run, after) matches Ok(next) ==> sound(next) && same_scan(run, next) && dealt_with(
            run,
        ) <= dealt_with(next),
{
}

/// What looking at the found records from a place on keeps.
proof fn lemma_looking(m: LedgerView, run: RunView, from: int)
    requires
        0 <= from <= run.found.len(),
    ensures
        ({
            let next = looking(m, run, from).1;
            &&& same_scan(run, next)
            &&& next.candidates == run.candidates
            &&& next.found == run.found
            &&& next.accepted == run.accepted
            &&& match looking(m, run, from).2 {
                Ok(ActionView::Read { at }) => {
                    &&& from <= at < run.found.len()
                    &&& next.phase matches PhaseView::Reopening { at: given, sighting }
                    &&& given == at
                    &&& sighted(run, at, sighting)
                },
                Ok(action) => action is VerifyRoots && next.phase is Finished,
                Err(error) => next.phase is Broken,
            }
        }),
    decreases run.found.len() - from,
{
    if from < run.found.len() {
        let looked = observed(m, run, run.source, from);
        if let Ok((next, decision)) = looked.1 {
            if decision != HashDecision::Read {
                lemma_looking(looked.0, next, from + 1);
            }
        }
    }
}

proof fn lemma_advanced_is_sound(m: LedgerView, run: RunView)
    requires
        sound(run),
    ensures
        sound(advanced(m, run).1),
        same_scan(run, advanced(m, run).1),
        dealt_with(run) <= dealt_with(advanced(m, run).1),
{
    match run.phase {
        PhaseView::Inspecting { next } => {
            lemma_looking(m, run, 0);
        },
        PhaseView::Looking { next } => {
            lemma_looking(m, run, next);
        },
        _ => {},
    }
}

/// The bytes of a found file are asked for only where it was seen unchanged as often as the source
/// asks, its bytes are neither recorded nor over a bound, it is not dealt with yet, and no two
/// records have one identity.
pub proof fn law_read_is_asked_only_of_a_stable_file(m: LedgerView, run: RunView)
    requires
        sound(run),
    ensures
        advanced(m, run).2 matches Ok(ActionView::Read { at }) ==> {
            let next = advanced(m, run).1;
            &&& dealt_with(run) <= at < run.found.len()
            &&& first_repeat(run.found, 0) is None
            &&& next.phase matches PhaseView::Reopening { at: given, sighting }
            &&& given == at
            &&& sighted(next, at, sighting)
            &&& sighting.observation.unchanged_observations >= run.source.stability
            &&& sighting.observation.needs_hash
        },
{
    lemma_advanced_is_sound(m, run);
    match run.phase {
        PhaseView::Inspecting { next } => {
            lemma_looking(m, run, 0);
        },
        PhaseView::Looking { next } => {
            lemma_looking(m, run, next);
        },
        _ => {},
    }
}

/// Every step keeps a scan sound and leaves it the same scan, and none takes it back.
pub proof fn law_scan_goes_forward(run: RunView, step: ScanStep)
    requires
        sound(run),
    ensures
        sound(stepped(run, step)),
        same_scan(run, stepped(run, step)),
        dealt_with(run) <= dealt_with(stepped(run, step)),
{
    match step {
        ScanStep::Next { catalog } => {
            lemma_advanced_is_sound(catalog, run);
        },
        ScanStep::Enumerated { files, candidates } => {
            lemma_enumerated_is_sound(run, files, candidates);
        },
        ScanStep::Opened { current } => {
            lemma_opened_is_sound(run, current);
        },
        ScanStep::Parsed { record } => {
            lemma_parsed_is_sound(run, record);
        },
        ScanStep::Hashed { revision } => {
            lemma_hashed_is_sound(run, revision);
        },
        ScanStep::Accept { after } => {
            lemma_accepted_is_sound(run, after);
        },
    }
}

/// Once a found record is dealt with, no steps bring the scan to ask for its file again.
pub proof fn law_no_file_is_asked_for_again(
    run: RunView,
    steps: Seq<ScanStep>,
    m: LedgerView,
    at: int,
)
    requires
        sound(run),
        at < dealt_with(run),
    ensures
        sound(reached(run, steps)),
        dealt_with(run) <= dealt_with(reached(run, steps)),
        advanced(m, reached(run, steps)).2 matches Ok(ActionView::Read { at: asked }) ==> asked
            != at,
    decreases steps.len(),
{
    if steps.len() > 0 {
        law_no_file_is_asked_for_again(run, steps.drop_last(), m, at);
        law_scan_goes_forward(reached(run, steps.drop_last()), steps.last());
    }
    law_read_is_asked_only_of_a_stable_file(m, reached(run, steps));
}

/// A scan that began is sound after whatever steps, and still the scan that began.
pub proof fn law_scan_stays_sound(
    m: LedgerView,
    source: SourceView,
    schema: SchemaView,
    probes: Seq<RootProbe>,
    steps: Seq<ScanStep>,
)
    ensures
        begun(m, source, schema, probes) matches Ok((next, run)) ==> {
            &&& sound(reached(run, steps))
            &&& same_scan(run, reached(run, steps))
            &&& reached(run, steps).source == source
            &&& reached(run, steps).probes == probes
        },
    decreases steps.len(),
{
    lemma_begun_is_sound(m, source, schema, probes);
    if let Ok((next, run)) = begun(m, source, schema, probes) {
        if steps.len() > 0 {
            law_scan_stays_sound(m, source, schema, probes, steps.drop_last());
            law_scan_goes_forward(reached(run, steps.drop_last()), steps.last());
        }
    }
}

/// Whatever steps were taken, what a commit records was found in this scan, had been seen unchanged
/// as often as the source asks, was found again when its file was opened to be read, and its file had
/// the fingerprint found both then and once its bytes were read. No two of the records found have one
/// identity, each is recorded once at most, and every root was healthy when the scan began and when it
/// was committed.
pub proof fn law_commit_records_only_what_was_checked(
    m: LedgerView,
    source: SourceView,
    schema: SchemaView,
    probes: Seq<RootProbe>,
    steps: Seq<ScanStep>,
    again: Seq<RootProbe>,
    i: int,
    j: int,
)
    ensures
        begun(m, source, schema, probes) matches Ok((next, started)) ==> commit_refusal(
            reached(started, steps),
            again,
        ) is None ==> {
            let run = reached(started, steps);
            &&& run.scan == started.scan
            &&& run.registration == started.registration
            &&& run.source == source
            &&& source_fs::roots_fault(source.roots, probes) is None
            &&& source_fs::roots_fault(source.roots, again) is None
            &&& 0 <= i < j < run.found.len() ==> run.found[i].record.identity
                != run.found[j].record.identity
            &&& 0 <= i < j < run.accepted.len() ==> run.accepted[i].record.identity
                != run.accepted[j].record.identity
            &&& 0 <= i < run.accepted.len() ==> {
                let entry = run.accepted[i];
                let trail = entry.trail;
                let found = run.found[trail.at];
                &&& 0 <= trail.at < run.found.len()
                &&& entry.record == found.record
                &&& sources::look(
                    trail.sighting.catalog,
                    run.scan,
                    found.record.location,
                    found.file.fingerprint,
                ).1 == Ok::<SourceObservation, CatalogErrorView>(trail.sighting.observation)
                &&& trail.sighting.observation.unchanged_observations >= source.stability
                &&& trail.before == found.file.fingerprint
                &&& trail.again == found.record
                &&& trail.after == found.file.fingerprint
            }
        },
{
    law_scan_stays_sound(m, source, schema, probes, steps);
    if let Ok((next, started)) = begun(m, source, schema, probes) {
        let run = reached(started, steps);
        if commit_refusal(run, again) is None {
            law_distinct_identities_pass(run.found);
            if 0 <= i < j < run.found.len() {
                assert(run.found[i].record.identity != run.found[j].record.identity);
            }
            if 0 <= i < run.accepted.len() {
                assert(checked(run, run.accepted[i]));
            }
            if 0 <= i < j < run.accepted.len() {
                assert(checked(run, run.accepted[j]));
                let first = run.accepted[i].trail.at;
                let second = run.accepted[j].trail.at;
                assert(first < second);
                assert(run.found[first].record.identity != run.found[second].record.identity);
            }
        }
    }
}

/// A scan is committed only where it is finished, no two of its records have one identity, and its
/// roots are healthy.
pub proof fn law_commit_is_refused_unless_finished(run: RunView, probes: Seq<RootProbe>)
    requires
        sound(run),
    ensures
        commit_refusal(run, probes) is None ==> run.phase is Finished && first_repeat(run.found, 0)
            is None && source_fs::roots_fault(run.source.roots, probes) is None,
        source_fs::roots_fault(run.source.roots, probes) is Some ==> commit_refusal(run, probes)
            is Some,
        first_repeat(run.found, 0) is Some ==> commit_refusal(run, probes) is Some,
        !(run.phase is Finished) ==> commit_refusal(run, probes) is Some,
{
}

/// A scan makes no event and touches no record or delivery before it is committed, so a scan that
/// is given up leaves none behind.
pub proof fn law_scan_makes_no_event_before_commit(
    m: LedgerView,
    run: RunView,
    source: SourceView,
    schema: SchemaView,
    probes: Seq<RootProbe>,
)
    ensures
        begun(m, source, schema, probes) matches Ok((next, started)) ==> same_history(m, next),
        same_history(m, advanced(m, run).0),
{
    match run.phase {
        PhaseView::Inspecting { next } => {
            lemma_looking_keeps_history(m, run, 0);
        },
        PhaseView::Looking { next } => {
            lemma_looking_keeps_history(m, run, next);
        },
        _ => {},
    }
}

proof fn lemma_looking_keeps_history(m: LedgerView, run: RunView, from: int)
    ensures
        same_history(m, looking(m, run, from).0),
    decreases run.found.len() - from,
{
    if from < run.found.len() {
        let looked = observed(m, run, run.source, from);
        if let Ok((next, decision)) = looked.1 {
            if decision != HashDecision::Read {
                lemma_looking_keeps_history(looked.0, next, from + 1);
            }
        }
    }
}

/// Whether two catalogs hold the same records, revisions, events, subscriptions and deliveries.
pub open spec fn same_history(a: LedgerView, b: LedgerView) -> bool {
    &&& a.records == b.records
    &&& a.revisions == b.revisions
    &&& a.events == b.events
    &&& a.subscriptions == b.subscriptions
    &&& a.deliveries == b.deliveries
}

/// Nothing is refused as a duplicate exactly where all identities differ.
pub proof fn law_distinct_identities_pass(found: Seq<FoundView>)
    ensures
        first_repeat(found, 0) is None <==> forall|i: int, j: int|
            0 <= i < j < found.len() ==> (#[trigger] found[i]).record.identity != (
            #[trigger] found[j]).record.identity,
{
    lemma_first_repeat(found, 0);
    if forall|i: int, j: int|
        0 <= i < j < found.len() ==> (#[trigger] found[i]).record.identity != (
        #[trigger] found[j]).record.identity {
        if let Some(at) = first_repeat(found, 0) {
            let i = choose|i: int|
                0 <= i < at && (#[trigger] found[i]).record.identity == found[at].record.identity;
            assert(found[i].record.identity != found[at].record.identity);
        }
    }
    if first_repeat(found, 0) is None {
        assert forall|i: int, j: int| 0 <= i < j < found.len() implies (
        #[trigger] found[i]).record.identity != (#[trigger] found[j]).record.identity by {
            assert(!repeats(found, j));
        }
    }
}

proof fn lemma_first_repeat(found: Seq<FoundView>, from: int)
    requires
        0 <= from,
    ensures
        match first_repeat(found, from) {
            Some(at) => from <= at < found.len() && repeats(found, at),
            None => forall|at: int| from <= at < found.len() ==> !#[trigger] repeats(found, at),
        },
    decreases found.len() - from,
{
    if from < found.len() && !repeats(found, from) {
        lemma_first_repeat(found, from + 1);
    }
}

} // verus!
