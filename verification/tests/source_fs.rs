use std::cell::RefCell;
use std::collections::BTreeMap;
use std::rc::Rc;

use agent_bookkeeper::ident::Uuid;
use agent_bookkeeper::scan::{FileCandidate, RevisionHasher, ScanAction, ScanRun};
use agent_bookkeeper::source_fs::{verify_root, verify_roots, RootProbe};
use agent_bookkeeper::{
    Blake3RevisionHasher, CanonicalRevision, Catalog, CatalogError, CodexRolloutLayout, DeletionMode, EventKind,
    IdentitySchema, LayoutPlugin, ProducerId, ReconcileReport, Reconciler, RootGuard,
    SourceConfig, SourceError, SourceFingerprint, SourceRoot, StabilityPolicy, TombstoneGrace,
};

struct StoredFile {
    bytes: Vec<u8>,
    inode: u64,
    modified: i64,
}

/// Files by their path below a root.
#[derive(Default)]
struct Directory {
    files: BTreeMap<(String, String), StoredFile>,
    writes: i64,
}

impl Directory {
    fn write(&mut self, root: &str, path: &str, bytes: &[u8]) {
        self.writes += 1;
        let key = (root.to_owned(), path.to_owned());
        let inode = match self.files.get(&key) {
            Some(file) => file.inode,
            None => self.writes as u64,
        };
        let file = StoredFile { bytes: bytes.to_vec(), inode, modified: self.writes };
        self.files.insert(key, file);
    }

    fn append(&mut self, root: &str, path: &str, bytes: &[u8]) {
        let mut whole = self.bytes(root, path);
        whole.extend_from_slice(bytes);
        self.write(root, path, &whole);
    }

    fn remove(&mut self, root: &str, path: &str) {
        self.files.remove(&(root.to_owned(), path.to_owned())).unwrap();
    }

    fn bytes(&self, root: &str, path: &str) -> Vec<u8> {
        self.files[&(root.to_owned(), path.to_owned())].bytes.clone()
    }

    fn fingerprint(&self, root: &str, path: &str) -> SourceFingerprint {
        let file = &self.files[&(root.to_owned(), path.to_owned())];
        SourceFingerprint::from_metadata(
            true,
            file.bytes.len() as u64,
            (file.modified, 0),
            Some(1),
            Some(file.inode),
        )
        .unwrap()
    }
}

type Disk = Rc<RefCell<Directory>>;

fn probes(config: &SourceConfig, disk: &Disk) -> Vec<RootProbe> {
    let mut found = Vec::new();
    for root in config.roots() {
        let marker = root
            .guard()
            .map(|guard| disk.borrow().bytes(root.path(), guard.marker_relative_path()));
        let marker = marker.map(|bytes| CanonicalRevision::from_bytes(&bytes));
        found.push(RootProbe::Directory(marker));
    }
    found
}

fn listed(config: &SourceConfig, disk: &Disk) -> Vec<FileCandidate> {
    let directory = disk.borrow();
    let mut files = Vec::new();
    for (root_index, root) in config.roots().iter().enumerate() {
        for (place, path) in directory.files.keys() {
            if place == root.path() {
                files.push(FileCandidate {
                    root_index,
                    relative_path: path.clone(),
                    path_is_text: true,
                    fingerprint: directory.fingerprint(place, path),
                });
            }
        }
    }
    files
}

/// Performs one action; `open` is the file that is open.
fn perform<L: LayoutPlugin, H: RevisionHasher>(
    reconciler: &Reconciler<L, H>,
    run: &mut ScanRun<'_>,
    action: ScanAction,
    disk: &Disk,
    open: &mut (String, String),
) -> Result<(), SourceError> {
    let config = reconciler.config();
    match action {
        ScanAction::Enumerate => reconciler.enumerated(run, listed(config, disk)),
        ScanAction::Inspect { at } => {
            let file = run.candidate_at(at);
            *open = (
                config.roots()[file.root_index].path().to_owned(),
                file.relative_path.clone(),
            );
            run.opened(&disk.borrow().fingerprint(&open.0, &open.1))
        }
        ScanAction::Read { at } => {
            let file = &run.found_at(at).file;
            *open = (
                config.roots()[file.root_index].path().to_owned(),
                file.relative_path.clone(),
            );
            run.opened(&disk.borrow().fingerprint(&open.0, &open.1))
        }
        ScanAction::ReadHead => {
            let head = disk.borrow().bytes(&open.0, &open.1);
            reconciler.parsed(run, &head)
        }
        ScanAction::ReadBytes => {
            let bytes = disk.borrow().bytes(&open.0, &open.1);
            reconciler.hashed(run, &vec![bytes])
        }
        ScanAction::Stat => run.accept(&disk.borrow().fingerprint(&open.0, &open.1)),
        ScanAction::VerifyRoots => Ok(()),
    }
}

/// Performs what the scan asks for, up to an action that `stops`.
fn run_until<L: LayoutPlugin, H: RevisionHasher>(
    reconciler: &Reconciler<L, H>,
    run: &mut ScanRun<'_>,
    catalog: &mut Catalog,
    disk: &Disk,
    stops: fn(ScanAction) -> bool,
) -> Result<ScanAction, SourceError> {
    let mut open = (String::new(), String::new());
    loop {
        let action = run.next(catalog)?;
        if stops(action) {
            return Ok(action);
        }
        perform(reconciler, run, action, disk, &mut open)?;
    }
}

fn is_end(action: ScanAction) -> bool {
    action == ScanAction::VerifyRoots
}

fn scan<L: LayoutPlugin, H: RevisionHasher>(
    reconciler: &mut Reconciler<L, H>,
    catalog: &mut Catalog,
    disk: &Disk,
) -> Result<ReconcileReport, SourceError> {
    let config = reconciler.config();
    let mut run = reconciler.begin(catalog, probes(config, disk))?;
    run_until(reconciler, &mut run, catalog, disk, is_end)?;
    run.commit(catalog, probes(config, disk))
}

fn session_file(disk: &Disk, root: &str, id: Uuid, body: &str) -> String {
    let path = format!("sessions/rollout-2026-08-01T00-00-00-{}.jsonl", id.to_text());
    let content = format!(
        "{{\"type\":\"session_meta\",\"payload\":{{\"id\":\"{}\"}}}}\n{body}",
        id.to_text()
    );
    disk.borrow_mut().write(root, &path, content.as_bytes());
    path
}

fn guarded_config_of(disk: &Disk, root: &str, producer_id: ProducerId, mode: DeletionMode) -> SourceConfig {
    disk.borrow_mut()
        .write(root, ".bookkeeper-root", b"bookkeeper test root\n");
    let guard =
        RootGuard::from_marker_bytes(".bookkeeper-root", b"bookkeeper test root\n").unwrap();
    let source_root = SourceRoot::new("active", root, Some(guard)).unwrap();
    SourceConfig::new(
        "fixture-source",
        producer_id,
        vec![source_root],
        mode,
        StabilityPolicy::new(2).unwrap(),
    )
    .unwrap()
}

fn guarded_config(disk: &Disk, root: &str, deletion_mode: DeletionMode) -> SourceConfig {
    guarded_config_of(disk, root, ProducerId::new(), deletion_mode)
}

fn guarded_deletion() -> DeletionMode {
    DeletionMode::Guarded(TombstoneGrace::default())
}

#[test]
fn codex_source_waits_for_stability_then_tracks_rewrite() {
    let disk: Disk = Rc::default();
    let id = Uuid::new_v4();
    let path = session_file(&disk, "/root", id, "first\n");
    let mut reconciler = Reconciler::new(
        guarded_config(&disk, "/root", guarded_deletion()),
        CodexRolloutLayout,
    );
    let mut catalog = Catalog::open_in_memory().unwrap();

    let first = scan(&mut reconciler, &mut catalog, &disk).unwrap();
    let second = scan(&mut reconciler, &mut catalog, &disk).unwrap();
    disk.borrow_mut().append("/root", &path, b"second\n");
    let changed = scan(&mut reconciler, &mut catalog, &disk).unwrap();
    let stable_rewrite = scan(&mut reconciler, &mut catalog, &disk).unwrap();

    assert_eq!(first.events.len(), 0);
    assert_eq!(first.awaiting_stability, 1);
    assert_eq!(second.events.len(), 1);
    assert_eq!(second.events[0].kind, EventKind::RevisionCommitted);
    assert_eq!(changed.events.len(), 0);
    assert_eq!(stable_rewrite.events.len(), 1);
    assert_eq!(stable_rewrite.events[0].kind, EventKind::RevisionCommitted);
    assert_eq!(catalog.events_after(0).unwrap().len(), 2);
}

#[test]
fn stability_observations_survive_reconciler_restart() {
    let disk: Disk = Rc::default();
    session_file(&disk, "/source", Uuid::new_v4(), "first\n");
    let producer = ProducerId::new();
    let config = guarded_config_of(&disk, "/source", producer, guarded_deletion());
    let mut stored = Catalog::open_in_memory().unwrap().to_columns();

    let first = {
        let mut catalog = Catalog::from_columns(&stored).unwrap();
        let mut reconciler = Reconciler::new(config, CodexRolloutLayout);
        let report = scan(&mut reconciler, &mut catalog, &disk).unwrap();
        stored = catalog.to_columns();
        report
    };
    let second = {
        let mut catalog = Catalog::from_columns(&stored).unwrap();
        let config = guarded_config_of(&disk, "/source", producer, guarded_deletion());
        let mut reconciler = Reconciler::new(config, CodexRolloutLayout);
        scan(&mut reconciler, &mut catalog, &disk).unwrap()
    };

    assert!(first.events.is_empty());
    assert_eq!(second.events.len(), 1);
    assert_eq!(second.events[0].kind, EventKind::RevisionCommitted);
}

#[test]
fn guarded_absence_requires_two_complete_scans_before_tombstone() {
    let disk: Disk = Rc::default();
    let path = session_file(&disk, "/root", Uuid::new_v4(), "first\n");
    let mut reconciler = Reconciler::new(
        guarded_config(&disk, "/root", guarded_deletion()),
        CodexRolloutLayout,
    );
    let mut catalog = Catalog::open_in_memory().unwrap();

    scan(&mut reconciler, &mut catalog, &disk).unwrap();
    scan(&mut reconciler, &mut catalog, &disk).unwrap();
    disk.borrow_mut().remove("/root", &path);
    let first_missing = scan(&mut reconciler, &mut catalog, &disk).unwrap();
    let second_missing = scan(&mut reconciler, &mut catalog, &disk).unwrap();

    assert!(first_missing.events.is_empty());
    assert_eq!(second_missing.events.len(), 1);
    assert_eq!(second_missing.events[0].kind, EventKind::RecordTombstoned);
}

#[test]
fn disabled_deletion_never_turns_absence_into_a_tombstone() {
    let disk: Disk = Rc::default();
    let path = session_file(&disk, "/root", Uuid::new_v4(), "first\n");
    let mut reconciler = Reconciler::new(
        guarded_config(&disk, "/root", DeletionMode::Disabled),
        CodexRolloutLayout,
    );
    let mut catalog = Catalog::open_in_memory().unwrap();

    scan(&mut reconciler, &mut catalog, &disk).unwrap();
    scan(&mut reconciler, &mut catalog, &disk).unwrap();
    disk.borrow_mut().remove("/root", &path);
    let first_missing = scan(&mut reconciler, &mut catalog, &disk).unwrap();
    let second_missing = scan(&mut reconciler, &mut catalog, &disk).unwrap();

    assert!(first_missing.events.is_empty());
    assert!(second_missing.events.is_empty());
    assert_eq!(catalog.events_after(0).unwrap().len(), 1);
}

#[test]
fn a_cross_root_move_is_seen_before_tombstone_grace() {
    let disk: Disk = Rc::default();
    disk.borrow_mut().write("/active", ".bookkeeper-root", b"active root\n");
    disk.borrow_mut().write("/archived", ".bookkeeper-root", b"archived root\n");
    let active_guard = RootGuard::from_marker_bytes(".bookkeeper-root", b"active root\n").unwrap();
    let archived_guard =
        RootGuard::from_marker_bytes(".bookkeeper-root", b"archived root\n").unwrap();
    let active_root = SourceRoot::new("active", "/active", Some(active_guard)).unwrap();
    let archived_root = SourceRoot::new("archived", "/archived", Some(archived_guard)).unwrap();
    let config = SourceConfig::new(
        "moving-source",
        ProducerId::new(),
        vec![active_root, archived_root],
        guarded_deletion(),
        StabilityPolicy::new(2).unwrap(),
    )
    .unwrap();
    let path = session_file(&disk, "/active", Uuid::new_v4(), "first\n");
    let mut reconciler = Reconciler::new(config, CodexRolloutLayout);
    let mut catalog = Catalog::open_in_memory().unwrap();

    scan(&mut reconciler, &mut catalog, &disk).unwrap();
    scan(&mut reconciler, &mut catalog, &disk).unwrap();
    let bytes = disk.borrow().bytes("/active", &path);
    disk.borrow_mut().remove("/active", &path);
    disk.borrow_mut().write("/archived", &path, &bytes);
    let first_move_scan = scan(&mut reconciler, &mut catalog, &disk).unwrap();
    let stable_move = scan(&mut reconciler, &mut catalog, &disk).unwrap();

    assert!(first_move_scan.events.is_empty());
    assert_eq!(stable_move.events.len(), 1);
    assert_eq!(stable_move.events[0].kind, EventKind::LocationChanged);
    assert!(
        catalog
            .events_after(0)
            .unwrap()
            .iter()
            .all(|event| event.kind != EventKind::RecordTombstoned)
    );
}

#[test]
fn guard_failure_creates_no_catalog_event() {
    let disk: Disk = Rc::default();
    session_file(&disk, "/root", Uuid::new_v4(), "body\n");
    let config = guarded_config(&disk, "/root", guarded_deletion());
    disk.borrow_mut().write("/root", ".bookkeeper-root", b"wrong root\n");
    let mut reconciler = Reconciler::new(config, CodexRolloutLayout);
    let mut catalog = Catalog::open_in_memory().unwrap();

    assert!(matches!(
        scan(&mut reconciler, &mut catalog, &disk),
        Err(SourceError::UnhealthyRoot { .. })
    ));
    assert!(catalog.events_after(0).unwrap().is_empty());
}

#[test]
fn a_later_guard_failure_cannot_tombstone_a_known_record() {
    let disk: Disk = Rc::default();
    session_file(&disk, "/root", Uuid::new_v4(), "body\n");
    let mut reconciler = Reconciler::new(
        guarded_config(&disk, "/root", guarded_deletion()),
        CodexRolloutLayout,
    );
    let mut catalog = Catalog::open_in_memory().unwrap();

    scan(&mut reconciler, &mut catalog, &disk).unwrap();
    scan(&mut reconciler, &mut catalog, &disk).unwrap();
    disk.borrow_mut().write("/root", ".bookkeeper-root", b"wrong root\n");
    assert!(matches!(
        scan(&mut reconciler, &mut catalog, &disk),
        Err(SourceError::UnhealthyRoot { .. })
    ));
    let events = catalog.events_after(0).unwrap();

    assert_eq!(events.len(), 1);
    assert_eq!(events[0].kind, EventKind::RevisionCommitted);
}

#[test]
fn metadata_filename_mismatch_is_rejected_without_guessing_identity() {
    let disk: Disk = Rc::default();
    let filename_id = Uuid::new_v4();
    let path = session_file(&disk, "/root", filename_id, "body\n");
    let different_id = Uuid::new_v4().to_text();
    disk.borrow_mut().write(
        "/root",
        &path,
        format!("{{\"type\":\"session_meta\",\"payload\":{{\"id\":\"{different_id}\"}}}}\nbody\n")
            .as_bytes(),
    );
    let mut reconciler = Reconciler::new(
        guarded_config(&disk, "/root", DeletionMode::Disabled),
        CodexRolloutLayout,
    );
    let mut catalog = Catalog::open_in_memory().unwrap();

    assert!(matches!(
        scan(&mut reconciler, &mut catalog, &disk),
        Err(SourceError::InvalidProviderRecord { .. })
    ));
    assert!(catalog.events_after(0).unwrap().is_empty());
}

#[test]
fn duplicate_live_session_identity_blocks_the_whole_scan_before_commit() {
    let disk: Disk = Rc::default();
    let id = Uuid::new_v4();
    session_file(&disk, "/root", id, "first\n");
    let id = id.to_text();
    disk.borrow_mut().write(
        "/root",
        &format!("duplicate/rollout-2026-08-01T00-00-01-{id}.jsonl"),
        format!("{{\"type\":\"session_meta\",\"payload\":{{\"id\":\"{id}\"}}}}\nsecond\n").as_bytes(),
    );
    let mut reconciler = Reconciler::new(
        guarded_config(&disk, "/root", DeletionMode::Disabled),
        CodexRolloutLayout,
    );
    let mut catalog = Catalog::open_in_memory().unwrap();

    assert!(matches!(
        scan(&mut reconciler, &mut catalog, &disk),
        Err(SourceError::DuplicateLiveIdentity { .. })
    ));
    assert!(catalog.events_after(0).unwrap().is_empty());
}

/// Overwrites a file while another is hashed.
struct MutatingHasher {
    disk: Disk,
    path: String,
    bytes: &'static [u8],
}

impl RevisionHasher for MutatingHasher {
    fn hash(&self, reads: &Vec<Vec<u8>>) -> Result<CanonicalRevision, SourceError> {
        self.disk.borrow_mut().write("/root", &self.path, self.bytes);
        Blake3RevisionHasher.hash(reads)
    }
}

#[test]
fn changed_file_during_hash_never_creates_a_revision() {
    let disk: Disk = Rc::default();
    let path = session_file(&disk, "/root", Uuid::new_v4(), "body\n");
    let config = guarded_config(&disk, "/root", DeletionMode::Disabled);
    let hasher = MutatingHasher {
        disk: Rc::clone(&disk),
        path,
        bytes: b"changed during hash\n",
    };
    let mut reconciler = Reconciler::with_hasher(config, CodexRolloutLayout, hasher);
    let mut catalog = Catalog::open_in_memory().unwrap();

    scan(&mut reconciler, &mut catalog, &disk).unwrap();
    let report = scan(&mut reconciler, &mut catalog, &disk).unwrap();

    assert_eq!(report.changed_during_scan, 1);
    assert!(catalog.events_after(0).unwrap().is_empty());
}

#[test]
fn a_guard_changed_after_hash_blocks_all_pending_events() {
    let disk: Disk = Rc::default();
    session_file(&disk, "/root", Uuid::new_v4(), "body\n");
    let config = guarded_config(&disk, "/root", guarded_deletion());
    let hasher = MutatingHasher {
        disk: Rc::clone(&disk),
        path: ".bookkeeper-root".to_owned(),
        bytes: b"replaced guard\n",
    };
    let mut reconciler = Reconciler::with_hasher(config, CodexRolloutLayout, hasher);
    let mut catalog = Catalog::open_in_memory().unwrap();

    scan(&mut reconciler, &mut catalog, &disk).unwrap();
    assert!(matches!(
        scan(&mut reconciler, &mut catalog, &disk),
        Err(SourceError::UnhealthyRoot { .. })
    ));
    assert!(catalog.events_after(0).unwrap().is_empty());
}

#[test]
fn a_hash_budget_defers_and_a_size_limit_leaves_alone() {
    let disk: Disk = Rc::default();
    session_file(&disk, "/root", Uuid::new_v4(), "a\n");
    session_file(&disk, "/root", Uuid::new_v4(), "b\n");
    session_file(&disk, "/root", Uuid::new_v4(), &"c".repeat(500));
    let config = guarded_config(&disk, "/root", DeletionMode::Disabled)
        .with_hash_byte_budget_per_scan(100)
        .with_max_candidate_bytes(300)
        .unwrap();
    let mut reconciler = Reconciler::new(config, CodexRolloutLayout);
    let mut catalog = Catalog::open_in_memory().unwrap();

    let first = scan(&mut reconciler, &mut catalog, &disk).unwrap();
    assert_eq!(first.awaiting_stability, 3);
    let second = scan(&mut reconciler, &mut catalog, &disk).unwrap();
    assert_eq!(second.deferred_by_size_limit, 1);
    assert_eq!(second.deferred_by_hash_budget, 1);
    assert_eq!(second.events.len(), 1);
    let third = scan(&mut reconciler, &mut catalog, &disk).unwrap();
    assert_eq!(third.already_stable, 1);
    assert_eq!(third.events.len(), 1);
    let fourth = scan(&mut reconciler, &mut catalog, &disk).unwrap();
    assert_eq!(fourth.already_stable, 2);
    assert!(fourth.events.is_empty());
    assert_eq!(fourth.bytes_hashed, 0);
}

#[test]
fn source_configuration_is_checked() {
    let root = || SourceRoot::new("active", "/root", None).unwrap();
    assert!(matches!(
        SourceRoot::new("active", "relative", None),
        Err(SourceError::InvalidConfiguration(_))
    ));
    assert!(StabilityPolicy::new(0).is_err());
    assert!(RootGuard::from_marker_bytes("../marker", b"x").is_err());
    assert!(IdentitySchema::new("", 1).is_err());
    assert!(matches!(
        SourceConfig::new(
            "source",
            ProducerId::new(),
            vec![root(), root()],
            DeletionMode::Disabled,
            StabilityPolicy::default(),
        ),
        Err(SourceError::InvalidConfiguration(_))
    ));
    assert!(matches!(
        SourceConfig::new(
            "source",
            ProducerId::new(),
            vec![root()],
            guarded_deletion(),
            StabilityPolicy::default(),
        ),
        Err(SourceError::InvalidConfiguration(_))
    ));
    assert!(matches!(
        verify_root(&root(), RootProbe::NotADirectory),
        Err(SourceError::UnhealthyRoot { .. })
    ));
    let unavailable = verify_root(&root(), RootProbe::Unavailable("gone".to_owned())).unwrap_err();
    assert_eq!(unavailable.message(), "source root \"active\" is unavailable: gone");
    assert!(verify_root(&root(), RootProbe::Directory(None)).is_ok());
}

#[test]
fn rollout_layout_reads_names_and_metadata() {
    let layout = CodexRolloutLayout;
    let id = Uuid::new_v4().to_text();
    let path = format!("2026/rollout-2026-08-01T00-00-00-{id}.jsonl");
    assert!(layout.is_candidate_path(&path));
    assert!(!layout.is_candidate_path("2026/notes.txt"));
    let head = format!("{{\"type\":\"session_meta\",\"payload\":{{\"id\":\"{id}\"}}}}\nrest");
    let producer = ProducerId::new();
    let parsed = layout
        .parse_record(producer, "active", &path, head.as_bytes())
        .unwrap()
        .unwrap();
    assert_eq!(parsed.identity().session_id(), id);
    assert_eq!(parsed.identity().producer_id(), producer);
    assert_eq!(parsed.location().source_relative_path(), path);
    for broken in ["", "no json", "{\"type\":\"other\"}", "{\"type\":\"session_meta\"}"] {
        assert!(matches!(
            layout.parse_record(producer, "active", &path, broken.as_bytes()),
            Err(SourceError::InvalidProviderRecord { .. })
        ));
    }
}

#[test]
fn an_unavailable_root_is_named() {
    let root = SourceRoot::new("active", "/source", None).unwrap();
    assert_eq!(
        verify_root(&root, RootProbe::Unavailable("No such file or directory".to_owned())),
        Err(SourceError::RootUnavailable {
            root_role: "active".to_owned(),
            source: "No such file or directory".to_owned(),
        })
    );
}

#[test]
fn a_source_keeps_its_producer() {
    let disk: Disk = Rc::default();
    let mut catalog = Catalog::open_in_memory().unwrap();
    let first = guarded_config(&disk, "/source", DeletionMode::Disabled);
    scan(&mut Reconciler::new(first, CodexRolloutLayout), &mut catalog, &disk).unwrap();
    let second = guarded_config(&disk, "/source", DeletionMode::Disabled);
    assert!(matches!(
        scan(&mut Reconciler::new(second, CodexRolloutLayout), &mut catalog, &disk),
        Err(SourceError::Catalog(CatalogError::SourceRegistrationConflict(_)))
    ));
}

#[test]
fn an_unchanged_file_is_not_hashed_again() {
    let disk: Disk = Rc::default();
    let path = session_file(&disk, "/root", Uuid::new_v4(), "a\n");
    let config = guarded_config(&disk, "/root", DeletionMode::Disabled);
    let mut reconciler = Reconciler::new(config, CodexRolloutLayout);
    let mut catalog = Catalog::open_in_memory().unwrap();

    scan(&mut reconciler, &mut catalog, &disk).unwrap();
    let second = scan(&mut reconciler, &mut catalog, &disk).unwrap();
    assert_eq!(second.events.len(), 1);
    assert!(second.bytes_hashed > 0);
    for _ in 0..2 {
        let again = scan(&mut reconciler, &mut catalog, &disk).unwrap();
        assert!(again.events.is_empty());
        assert_eq!(again.bytes_hashed, 0);
        assert_eq!(again.already_stable, 1);
    }

    disk.borrow_mut().append("/root", &path, b"b\n");
    let changed = scan(&mut reconciler, &mut catalog, &disk).unwrap();
    assert_eq!(changed.awaiting_stability, 1);
    let settled = scan(&mut reconciler, &mut catalog, &disk).unwrap();
    assert_eq!(settled.events.len(), 1);
    assert!(settled.bytes_hashed > 0);
}

fn refused_as_not_due<T>(result: Result<T, SourceError>) -> bool {
    match result {
        Err(error) => {
            error.message() == "source scan is stale or not active: scan step is not due"
        }
        Ok(_) => false,
    }
}

fn is_read(action: ScanAction) -> bool {
    matches!(action, ScanAction::Read { .. }) || is_end(action)
}

fn is_inspect(action: ScanAction) -> bool {
    matches!(action, ScanAction::Inspect { .. }) || is_end(action)
}

/// A catalog in which one file was seen once, so that the next scan reads it.
fn seen_once(disk: &Disk) -> (Reconciler<CodexRolloutLayout, Blake3RevisionHasher>, Catalog, String) {
    let path = session_file(disk, "/root", Uuid::new_v4(), "body\n");
    let config = guarded_config(disk, "/root", guarded_deletion());
    let mut reconciler = Reconciler::new(config, CodexRolloutLayout);
    let mut catalog = Catalog::open_in_memory().unwrap();
    scan(&mut reconciler, &mut catalog, disk).unwrap();
    (reconciler, catalog, path)
}

#[test]
fn a_step_out_of_turn_is_refused_and_changes_nothing() {
    let disk: Disk = Rc::default();
    let (reconciler, mut catalog, path) = seen_once(&disk);
    let fingerprint = disk.borrow().fingerprint("/root", &path);
    let bytes = disk.borrow().bytes("/root", &path);
    let config = reconciler.config();
    let mut run = reconciler.begin(&mut catalog, probes(config, &disk)).unwrap();

    assert!(refused_as_not_due(run.opened(&fingerprint)));
    assert!(refused_as_not_due(reconciler.parsed(&mut run, &bytes)));
    assert!(refused_as_not_due(reconciler.hashed(&mut run, &vec![bytes.clone()])));
    assert!(refused_as_not_due(run.accept(&fingerprint)));
    assert_eq!(run.next(&mut catalog).unwrap(), ScanAction::Enumerate);

    let found = run_until(&reconciler, &mut run, &mut catalog, &disk, is_read).unwrap();
    assert_eq!(found, ScanAction::Read { at: 0 });
    assert!(refused_as_not_due(run.enumerated(0, Vec::new())));
    assert!(refused_as_not_due(reconciler.hashed(&mut run, &vec![bytes.clone()])));
    assert!(refused_as_not_due(run.accept(&fingerprint)));
    assert_eq!(run.next(&mut catalog).unwrap(), ScanAction::Read { at: 0 });

    run.opened(&fingerprint).unwrap();
    assert_eq!(run.next(&mut catalog).unwrap(), ScanAction::ReadHead);
    assert!(refused_as_not_due(reconciler.hashed(&mut run, &vec![bytes.clone()])));
    reconciler.parsed(&mut run, &bytes).unwrap();
    assert_eq!(run.next(&mut catalog).unwrap(), ScanAction::ReadBytes);
    assert!(refused_as_not_due(run.accept(&fingerprint)));
    reconciler.hashed(&mut run, &vec![bytes.clone()]).unwrap();
    assert_eq!(run.next(&mut catalog).unwrap(), ScanAction::Stat);
    run.accept(&fingerprint).unwrap();
    assert!(refused_as_not_due(run.accept(&fingerprint)));
    assert_eq!(run.due(), None);
    assert_eq!(run.next(&mut catalog).unwrap(), ScanAction::VerifyRoots);
    assert_eq!(run.due(), Some(ScanAction::VerifyRoots));

    let report = run.commit(&mut catalog, probes(config, &disk)).unwrap();
    assert_eq!(report.events.len(), 1);
    assert_eq!(report.bytes_hashed, bytes.len() as u64);
}

#[test]
fn an_unfinished_scan_is_not_committed() {
    for stops in [is_inspect as fn(ScanAction) -> bool, is_read] {
        let disk: Disk = Rc::default();
        let (reconciler, mut catalog, _) = seen_once(&disk);
        let config = reconciler.config();
        let mut run = reconciler.begin(&mut catalog, probes(config, &disk)).unwrap();
        run_until(&reconciler, &mut run, &mut catalog, &disk, stops).unwrap();
        let before = catalog.to_columns();
        assert!(refused_as_not_due(run.commit(&mut catalog, probes(config, &disk))));
        assert_eq!(catalog.to_columns(), before);
    }
}

#[test]
fn an_unhealthy_root_at_the_end_changes_nothing() {
    let disk: Disk = Rc::default();
    let (reconciler, mut catalog, _) = seen_once(&disk);
    let config = reconciler.config();
    for broken in 0..4 {
        let mut run = reconciler.begin(&mut catalog, probes(config, &disk)).unwrap();
        run_until(&reconciler, &mut run, &mut catalog, &disk, is_end).unwrap();
        let before = catalog.to_columns();
        let found = match broken {
            0 => Vec::new(),
            1 => vec![RootProbe::NotADirectory],
            2 => vec![RootProbe::Directory(None)],
            _ => vec![RootProbe::Unreadable(SourceError::UnexpectedFileType)],
        };
        let refusal = run.commit(&mut catalog, found).unwrap_err();
        match broken {
            3 => assert_eq!(refusal, SourceError::UnexpectedFileType),
            _ => assert!(matches!(refusal, SourceError::UnhealthyRoot { .. })),
        }
        assert_eq!(catalog.to_columns(), before);
    }
}

#[test]
fn no_scan_begins_while_a_root_is_unhealthy() {
    let disk: Disk = Rc::default();
    let reconciler = Reconciler::new(
        guarded_config(&disk, "/root", DeletionMode::Disabled),
        CodexRolloutLayout,
    );
    let mut catalog = Catalog::open_in_memory().unwrap();
    let before = catalog.to_columns();
    let refusal = reconciler.begin(&mut catalog, Vec::new()).err().unwrap();
    assert_eq!(
        refusal.message(),
        "source root \"active\" is unhealthy: root was not inspected"
    );
    let refusal = reconciler
        .begin(&mut catalog, vec![RootProbe::Unreadable(SourceError::Read("gone".to_owned()))])
        .err()
        .unwrap();
    assert_eq!(refusal, SourceError::Read("gone".to_owned()));
    assert_eq!(catalog.to_columns(), before);
}

#[test]
fn the_first_unhealthy_root_is_named() {
    let roots = vec![
        SourceRoot::new("first", "/first", None).unwrap(),
        SourceRoot::new("second", "/second", None).unwrap(),
        SourceRoot::new("third", "/third", None).unwrap(),
    ];
    let found = vec![
        RootProbe::Directory(None),
        RootProbe::NotADirectory,
        RootProbe::Unavailable("gone".to_owned()),
    ];
    assert_eq!(
        verify_roots(&roots, found).unwrap_err().message(),
        "source root \"second\" is unhealthy: root is not a real directory"
    );
    let found = vec![RootProbe::Directory(None), RootProbe::Directory(None)];
    assert_eq!(
        verify_roots(&roots, found).unwrap_err().message(),
        "source root \"third\" is unhealthy: root was not inspected"
    );
    let found = (0..3).map(|_| RootProbe::Directory(None)).collect();
    assert!(verify_roots(&roots, found).is_ok());
}

#[test]
fn a_file_that_changes_before_it_is_read_is_left_alone() {
    let disk: Disk = Rc::default();
    let (reconciler, mut catalog, path) = seen_once(&disk);
    let config = reconciler.config();
    let mut run = reconciler.begin(&mut catalog, probes(config, &disk)).unwrap();
    run_until(&reconciler, &mut run, &mut catalog, &disk, is_read).unwrap();
    disk.borrow_mut().append("/root", &path, b"more\n");
    let action = run_until(&reconciler, &mut run, &mut catalog, &disk, is_end).unwrap();
    assert_eq!(action, ScanAction::VerifyRoots);
    let report = run.commit(&mut catalog, probes(config, &disk)).unwrap();
    assert_eq!(report.changed_during_scan, 1);
    assert!(report.events.is_empty());
}

#[test]
fn a_candidate_whose_path_is_no_text_is_refused() {
    let disk: Disk = Rc::default();
    let (reconciler, mut catalog, path) = seen_once(&disk);
    let config = reconciler.config();
    let mut files = listed(config, &disk);
    for file in &mut files {
        if file.relative_path == path {
            file.path_is_text = false;
        }
    }
    let mut run = reconciler.begin(&mut catalog, probes(config, &disk)).unwrap();
    reconciler.enumerated(&mut run, files).unwrap();
    assert_eq!(
        run.next(&mut catalog),
        Err(SourceError::InvalidProviderRecord {
            relative_path: path,
            reason: "source-relative path is not UTF-8".to_owned(),
        })
    );
}

#[test]
fn a_file_below_no_root_is_refused() {
    let disk: Disk = Rc::default();
    let (reconciler, mut catalog, _) = seen_once(&disk);
    let config = reconciler.config();
    let mut files = listed(config, &disk);
    for file in &mut files {
        file.root_index = 1;
    }
    let mut run = reconciler.begin(&mut catalog, probes(config, &disk)).unwrap();
    assert!(refused_as_not_due(reconciler.enumerated(&mut run, files)));
    assert_eq!(run.report().files_enumerated, 0);
    reconciler.enumerated(&mut run, listed(config, &disk)).unwrap();
    assert_eq!(run.report().files_enumerated, 2);
    assert_eq!(run.found_count(), 0);
}

#[test]
fn files_are_asked_for_in_order_and_once() {
    let disk: Disk = Rc::default();
    for _ in 0..3 {
        session_file(&disk, "/root", Uuid::new_v4(), "body\n");
    }
    let mut reconciler = Reconciler::new(
        guarded_config(&disk, "/root", DeletionMode::Disabled),
        CodexRolloutLayout,
    );
    let mut catalog = Catalog::open_in_memory().unwrap();
    scan(&mut reconciler, &mut catalog, &disk).unwrap();

    let config = reconciler.config();
    let mut run = reconciler.begin(&mut catalog, probes(config, &disk)).unwrap();
    let mut asked = Vec::new();
    let mut open = (String::new(), String::new());
    loop {
        let action = run.next(&mut catalog).unwrap();
        if let ScanAction::Read { at } = action {
            asked.push(at);
        }
        if is_end(action) {
            break;
        }
        perform(&reconciler, &mut run, action, &disk, &mut open).unwrap();
    }
    assert_eq!(asked, vec![0, 1, 2]);
    let report = run.commit(&mut catalog, probes(config, &disk)).unwrap();
    assert_eq!(report.events.len(), 3);
    for event in &report.events {
        let text = event.id.id.to_text();
        assert_eq!(text.as_bytes()[14], b'4');
        assert!(b"89ab".contains(&text.as_bytes()[19]));
    }
}
