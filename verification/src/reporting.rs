//! What reports, backups and stored values come to.
use crate::admin::StatusView;
use crate::backup;
use crate::backup::{ArtifactView, DestinationState, MetadataView};
use crate::catalog::{CatalogErrorView, SCHEMA_VERSION};
use crate::cli;
use crate::cli::{ConfigView, TotalsView};
use crate::controller::{AttemptView, OutcomeView};
use crate::delivery;
use crate::delivery::{DeliveryState, SubscriptionId, SubscriptionMode};
use crate::domain;
use crate::domain::{EventKind, RecordState};
use crate::ident;
use crate::ident::Uuid;
use crate::json;
use crate::json::JsonView;
use crate::ledger::LedgerView;
use crate::naming;
use crate::paths;
use crate::rows;
use crate::source_fs;
use crate::source_fs::MAX_SESSION_METADATA_LINE_BYTES;
use crate::transcript;
use vstd::prelude::*;

verus! {

proof fn lemma_report_names()
    ensures
        "format_version"@.len() == 14,
        "source_id"@.len() == 9,
        "source_id"@[0] == 's',
        "consumer_id"@.len() == 11,
        "subscription_id"@.len() == 15,
        "hindsight"@.len() == 9,
        "hindsight"@[0] == 'h',
        "reconcile_passes"@.len() == 16,
        "reconcile"@.len() == 9,
        "reconcile"@[0] == 'r',
        "delivery"@.len() == 8,
        "catalog"@.len() == 7,
        "bank_id"@.len() == 7,
        "attempts"@.len() == 8,
        "payload_bytes_admitted"@.len() == 22,
        "outcomes"@.len() == 8,
        "outcomes"@[0] == 'o',
        "attempts"@[0] == 'a',
        "latest_event_sequence"@.len() == 21,
        "active_records"@.len() == 14,
        "tombstoned_records"@.len() == 18,
        "revisions"@.len() == 9,
{
    reveal_strlit("format_version");
    reveal_strlit("source_id");
    reveal_strlit("consumer_id");
    reveal_strlit("subscription_id");
    reveal_strlit("hindsight");
    reveal_strlit("reconcile_passes");
    reveal_strlit("reconcile");
    reveal_strlit("delivery");
    reveal_strlit("catalog");
    reveal_strlit("bank_id");
    reveal_strlit("attempts");
    reveal_strlit("payload_bytes_admitted");
    reveal_strlit("outcomes");
    reveal_strlit("latest_event_sequence");
    reveal_strlit("active_records");
    reveal_strlit("tombstoned_records");
    reveal_strlit("revisions");
}

/// The report of a run tells whose it was, how many attempts were made and what each came to, in their
/// order, how many bytes were admitted, and how the catalog stands.
pub proof fn law_report_tells_the_run(
    config: ConfigView,
    subscription_id: SubscriptionId,
    sums: TotalsView,
    attempts: Seq<AttemptView>,
    payload_bytes_admitted: u64,
    status: StatusView,
)
    requires
        attempts.len() <= u64::MAX,
        status.active_records <= u64::MAX,
        status.tombstoned_records <= u64::MAX,
        status.revisions <= u64::MAX,
    ensures
        cli::report_json(
            config,
            subscription_id,
            sums,
            attempts,
            payload_bytes_admitted,
            status,
        ) matches JsonView::Object(told) && {
            &&& told["source_id"@] == JsonView::Text(config.source_id)
            &&& told["consumer_id"@] == JsonView::Text(config.consumer_id)
            &&& told["subscription_id"@] == JsonView::Text(ident::uuid_text(subscription_id.id))
            &&& told["reconcile_passes"@] == JsonView::Unsigned(config.reconcile_passes as u64)
            &&& told["hindsight"@] matches JsonView::Object(memory)
            &&& memory["bank_id"@] == JsonView::Text(config.hindsight_bank)
            &&& told["delivery"@] matches JsonView::Object(work)
            &&& work["attempts"@] matches JsonView::Unsigned(count)
            &&& count == attempts.len()
            &&& work["payload_bytes_admitted"@] == JsonView::Unsigned(payload_bytes_admitted)
            &&& work["outcomes"@] matches JsonView::Array(outcomes)
            &&& outcomes.len() == attempts.len()
            &&& forall|i: int|
                0 <= i < outcomes.len() ==> #[trigger] outcomes[i] == cli::attempt_json(attempts[i])
            &&& told["catalog"@] matches JsonView::Object(catalog)
            &&& catalog["latest_event_sequence"@] == JsonView::Unsigned(
                status.latest_event_sequence,
            )
            &&& catalog["active_records"@] matches JsonView::Unsigned(active)
            &&& active == status.active_records
            &&& catalog["tombstoned_records"@] matches JsonView::Unsigned(deleted)
            &&& deleted == status.tombstoned_records
            &&& catalog["revisions"@] matches JsonView::Unsigned(revisions)
            &&& revisions == status.revisions
        },
{
    lemma_report_names();
}

proof fn lemma_attempt_names()
    ensures
        "event_id"@.len() == 8,
        "record_id"@.len() == 9,
        "record_version"@.len() == 14,
        "outcome"@.len() == 7,
        "state"@.len() == 5,
        "reason"@.len() == 6,
        "settled"@.len() == 7,
        "retried"@.len() == 7,
        "settled"@[0] == 's',
        "retried"@[0] == 'r',
        "deferred_by_byte_budget"@.len() == 23,
{
    reveal_strlit("event_id");
    reveal_strlit("record_id");
    reveal_strlit("record_version");
    reveal_strlit("outcome");
    reveal_strlit("state");
    reveal_strlit("reason");
    reveal_strlit("settled");
    reveal_strlit("retried");
    reveal_strlit("deferred_by_byte_budget");
}

/// The report of an attempt tells its event and record, and what it came to: the outcome of one that
/// settled, the reason of one that is to be retried.
pub proof fn law_report_tells_the_attempt(attempt: AttemptView)
    ensures
        cli::attempt_json(attempt) matches JsonView::Object(told) && {
            &&& told["event_id"@] == JsonView::Text(ident::uuid_text(attempt.event_id.id))
            &&& told["record_id"@] == JsonView::Text(ident::uuid_text(attempt.record_id.id))
            &&& told["record_version"@] == JsonView::Unsigned(attempt.record_version)
            &&& told["outcome"@] matches JsonView::Object(came)
            &&& attempt.outcome is Settled <==> came["state"@] == JsonView::Text("settled"@)
            &&& attempt.outcome is Retried <==> came["state"@] == JsonView::Text("retried"@)
            &&& attempt.outcome matches OutcomeView::Settled(outcome) ==> came["outcome"@]
                == JsonView::Text(cli::outcome_name(outcome))
            &&& attempt.outcome matches OutcomeView::Retried { reason } ==> came["reason"@]
                == JsonView::Text(reason)
        },
{
    lemma_attempt_names();
}

proof fn lemma_total_names()
    ensures
        "files_enumerated"@.len() == 16,
        "awaiting_stability"@.len() == 18,
        "already_stable"@.len() == 14,
        "deferred_by_hash_budget"@.len() == 23,
        "deferred_by_size_limit"@.len() == 22,
        "changed_during_scan"@.len() == 19,
        "bytes_hashed"@.len() == 12,
        "events"@.len() == 6,
{
    reveal_strlit("files_enumerated");
    reveal_strlit("awaiting_stability");
    reveal_strlit("already_stable");
    reveal_strlit("deferred_by_hash_budget");
    reveal_strlit("deferred_by_size_limit");
    reveal_strlit("changed_during_scan");
    reveal_strlit("bytes_hashed");
    reveal_strlit("events");
}

/// The report of the scans tells each sum under its own name.
pub proof fn law_report_tells_the_sums(sums: TotalsView)
    requires
        sums.fits(),
    ensures
        cli::totals_json(sums) matches JsonView::Object(told) && {
            &&& told["files_enumerated"@] == JsonView::Unsigned(sums.files_enumerated as u64)
            &&& told["awaiting_stability"@] == JsonView::Unsigned(sums.awaiting_stability as u64)
            &&& told["already_stable"@] == JsonView::Unsigned(sums.already_stable as u64)
            &&& told["deferred_by_hash_budget"@] == JsonView::Unsigned(
                sums.deferred_by_hash_budget as u64,
            )
            &&& told["deferred_by_size_limit"@] == JsonView::Unsigned(
                sums.deferred_by_size_limit as u64,
            )
            &&& told["changed_during_scan"@] == JsonView::Unsigned(sums.changed_during_scan as u64)
            &&& told["bytes_hashed"@] == JsonView::Unsigned(sums.bytes_hashed as u64)
            &&& told["events"@] == JsonView::Unsigned(sums.events as u64)
        },
{
    lemma_total_names();
}

/// A backup and what is written for it stand in one directory: the manifest under the name of the backup
/// with an ending, and what is not finished under a hidden name of its own.
pub proof fn law_backup_files_stand_together(
    directory: Seq<char>,
    name: Seq<char>,
    label: Seq<char>,
    nonce: Uuid,
)
    requires
        directory.len() > 0,
        directory.last() != '/',
        directory.last() != '.',
        name.len() > 0,
        name != seq!['.'],
        name != seq!['.', '.'],
        forall|i: int| 0 <= i < name.len() ==> #[trigger] name[i] != '/',
    ensures
        ({
            let destination = directory.push('/') + name;
            &&& backup::manifest_place(destination) == directory.push('/') + (name
                + ".metadata.json"@)
            &&& backup::temporary_place(destination, label, nonce) == directory.push('/') + ("."@
                + name + "."@ + label + "-"@ + ident::uuid_text(nonce) + ".partial"@)
        }),
{
    let destination = directory.push('/') + name;
    naming::law_file_name_is_behind_the_last_slash(directory, name);
    reveal_strlit(".");
    let manifest = name + ".metadata.json"@;
    assert(manifest[0] == name[0]);
    assert(paths::joined(directory, manifest) =~= directory.push('/') + manifest);
    let hidden = "."@ + name + "."@ + label + "-"@ + ident::uuid_text(nonce) + ".partial"@;
    assert(hidden[0] == '.');
    assert(paths::joined(directory, hidden) =~= directory.push('/') + hidden);
}

/// A backup is made exactly where its place is an absolute path in a real directory, has a name, and is
/// free; and it is made there.
pub proof fn law_backup_is_made_at_its_place(
    destination: Seq<char>,
    state: DestinationState,
    metadata: MetadataView,
)
    ensures
        ({
            let made = backup::placed(destination, state, metadata);
            &&& made is Ok <==> destination.len() > 0 && destination[0] == '/' && paths::parent(
                destination,
            ) is Some && paths::file_name(destination) is Some && state.parent_is_directory
                && !state.taken
            &&& made matches Ok(artifact) ==> {
                &&& artifact.catalog_path == destination
                &&& artifact.manifest_path == backup::manifest_place(destination)
                &&& artifact.metadata == metadata
            }
        }),
{
}

/// The metadata of a backup tell its time, the configuration that it was made under, and the last event that
/// is in it.
pub proof fn law_metadata_are_of_the_catalog(m: LedgerView, digest: Seq<u8>, created_at_ms: i64)
    ensures
        ({
            let metadata = backup::catalog_metadata(m, digest, created_at_ms);
            &&& metadata.created_at_ms == created_at_ms
            &&& metadata.schema_version == SCHEMA_VERSION
            &&& metadata.source_configuration_digest == digest
            &&& m.events.len() == 0 ==> metadata.latest_event_sequence == 0
            &&& m.events.len() > 0 ==> metadata.latest_event_sequence == m.events.last().sequence
        }),
{
}

/// A stored backup is taken exactly where its schema and its last event are those of its manifest.
pub proof fn law_stored_backup_is_the_declared_one(
    artifact: ArtifactView,
    found_schema: i64,
    latest_event: i64,
)
    ensures
        ({
            let verdict = backup::stored_verdict(artifact, found_schema, latest_event);
            &&& verdict is Ok <==> artifact.metadata.schema_version == found_schema
                && artifact.metadata.latest_event_sequence == latest_event
            &&& verdict matches Ok(taken) ==> taken == artifact
        }),
{
}

/// A stored number is read as it is, where it is not negative, or fits.
pub proof fn law_stored_number_is_read_as_it_is(value: i64, field: Seq<char>)
    ensures
        rows::whole_of(value, field) is Ok <==> value >= 0,
        rows::whole_of(value, field) is Ok ==> rows::whole_of(value, field)->Ok_0 == value,
        rows::small_of(value, field) is Ok <==> 0 <= value <= u32::MAX,
        rows::small_of(value, field) is Ok ==> rows::small_of(value, field)->Ok_0 == value,
        rows::optional_whole_of(None, field) == Ok::<Option<u64>, CatalogErrorView>(None),
        rows::optional_whole_of(Some(value), field) is Ok <==> value >= 0,
        rows::optional_whole_of(Some(value), field) matches Ok(read) ==> read matches Some(number)
            && number == value,
{
}

/// A stored state, kind or mode is read back from the name that it is stored under, and from no other.
pub proof fn law_stored_name_is_read_back(
    state: RecordState,
    kind: EventKind,
    mode: SubscriptionMode,
    delivery_state: DeliveryState,
    name: Seq<char>,
)
    ensures
        rows::state_of(domain::record_state_name(state)) == Ok::<RecordState, CatalogErrorView>(
            state,
        ),
        rows::kind_of(domain::event_kind_name(kind)) == Ok::<EventKind, CatalogErrorView>(kind),
        rows::mode_of(delivery::mode_name(mode)) == Ok::<SubscriptionMode, CatalogErrorView>(mode),
        rows::delivery_state_of(delivery::delivery_state_name(delivery_state)) == Ok::<
            DeliveryState,
            CatalogErrorView,
        >(delivery_state),
        rows::state_of(name) matches Ok(read) ==> name == domain::record_state_name(read),
        rows::kind_of(name) matches Ok(read) ==> name == domain::event_kind_name(read),
        rows::mode_of(name) matches Ok(read) ==> name == delivery::mode_name(read),
        rows::delivery_state_of(name) matches Ok(read) ==> name == delivery::delivery_state_name(
            read,
        ),
{
    if domain::record_state_name(state) == domain::record_state_name(RecordState::Active) {
        domain::law_record_state_name_injective(state, RecordState::Active);
    }
    if domain::event_kind_name(kind) == domain::event_kind_name(EventKind::RevisionCommitted) {
        domain::law_event_kind_name_injective(kind, EventKind::RevisionCommitted);
    }
    if domain::event_kind_name(kind) == domain::event_kind_name(EventKind::LocationChanged) {
        domain::law_event_kind_name_injective(kind, EventKind::LocationChanged);
    }
    if domain::event_kind_name(kind) == domain::event_kind_name(EventKind::RecordTombstoned) {
        domain::law_event_kind_name_injective(kind, EventKind::RecordTombstoned);
    }
    if delivery::mode_name(mode) == delivery::mode_name(SubscriptionMode::ReplayEvents) {
        delivery::law_mode_name_injective(mode, SubscriptionMode::ReplayEvents);
    }
    let written = delivery::delivery_state_name(delivery_state);
    let found = choose|state: DeliveryState| written == #[trigger] delivery::delivery_state_name(
        state,
    );
    delivery::law_delivery_state_name_injective(found, delivery_state);
}

/// Stored identities and digests are read by their bytes: sixteen make an identity, thirty-two a digest, and
/// two identities are the same exactly where their bytes are.
pub proof fn law_stored_identity_is_its_bytes(blob: Seq<u8>, other: Seq<u8>)
    ensures
        rows::uuid_of(blob) is Ok <==> blob.len() == 16,
        rows::digest_of(blob) is Ok <==> blob.len() == 32,
        rows::digest_of(blob) matches Ok(digest) ==> digest == blob,
        rows::optional_uuid_of(None) == Ok::<Option<Uuid>, CatalogErrorView>(None),
        rows::optional_uuid_of(Some(blob)) is Ok <==> blob.len() == 16,
{
}

/// A stored retry policy is read as it is, where it allows an attempt and its waits do not shrink.
pub proof fn law_stored_policy_is_read_as_it_is(max_attempts: i64, initial: i64, maximum: i64)
    ensures
        ({
            let read = rows::policy_of(max_attempts, initial, maximum);
            &&& read is Ok <==> 0 < max_attempts <= u32::MAX && 0 <= initial <= maximum
            &&& read matches Ok(policy) ==> {
                &&& policy.max_attempts == max_attempts
                &&& policy.initial_backoff_ms == initial
                &&& policy.max_backoff_ms == maximum
            }
        }),
{
}

/// The first line of a file ends with its first line feed, whatever follows; and a file without one is one line.
pub proof fn law_first_line_ends_with_a_line_feed(line: Seq<u8>, rest: Seq<u8>)
    requires
        forall|i: int| 0 <= i < line.len() ==> #[trigger] line[i] != 10,
    ensures
        source_fs::first_line(line.push(10u8) + rest) == line.push(10u8),
        source_fs::first_line(line) == line,
{
    let whole = line.push(10u8) + rest;
    assert forall|i: int| 0 <= i < line.len() implies #[trigger] whole[i] != 10 by {
        assert(whole[i] == line[i]);
    }
    lemma_line_end(whole, 0, line.len() as int);
    lemma_line_end(line, 0, line.len() as int);
    assert(whole.take((line.len() + 1) as int) =~= line.push(10u8));
}

proof fn lemma_line_end(bytes: Seq<u8>, from: int, end: int)
    requires
        0 <= from <= end <= bytes.len(),
        forall|i: int| from <= i < end ==> #[trigger] bytes[i] != 10,
        end == bytes.len() || bytes[end] == 10,
    ensures
        transcript::line_end(bytes, from) == end,
    decreases end - from,
{
    if from < end {
        lemma_line_end(bytes, from + 1, end);
    }
}

/// A session file is told by the beginning and the end of its name.
pub proof fn law_session_file_is_told_by_name(directory: Seq<char>, name: Seq<char>)
    requires
        name.len() > 0,
        name != seq!['.'],
        name != seq!['.', '.'],
        forall|i: int| 0 <= i < name.len() ==> #[trigger] name[i] != '/',
    ensures
        source_fs::is_rollout_path(directory.push('/') + name) <==> name.len() >= 8 && name.take(8)
            == "rollout-"@ && name.skip(name.len() - 6) == ".jsonl"@,
{
    naming::law_file_name_is_behind_the_last_slash(directory, name);
    reveal_strlit("rollout-");
    reveal_strlit(".jsonl");
    if name.len() >= 8 {
        assert(name.take(8) =~= name.subrange(0, 8));
        assert(name.skip(name.len() - 6) =~= name.subrange(name.len() - 6, name.len() as int));
    }
}

/// A manifest is read by its members, each of its own kind, where it is of the version that is known.
pub proof fn law_manifest_is_read_by_its_members(value: JsonView)
    ensures
        backup::manifest_of(value) matches Ok(metadata) ==> {
            &&& value is Object
            &&& json::get(value, "format_version"@) == Some(JsonView::Unsigned(1))
            &&& metadata.format_version == 1
            &&& json::get(value, "latest_event_sequence"@) == Some(
                JsonView::Unsigned(metadata.latest_event_sequence),
            )
            &&& json::as_integer(json::get(value, "created_at_ms"@)) == Some(metadata.created_at_ms)
            &&& json::as_integer(json::get(value, "schema_version"@)) == Some(
                metadata.schema_version,
            )
            &&& json::get(value, "source_configuration_digest"@) matches Some(
                JsonView::Text(digits),
            ) && backup::decoded(digits) == Ok::<Seq<u8>, CatalogErrorView>(
                metadata.source_configuration_digest,
            )
            &&& metadata.source_configuration_digest.len() == 32
        },
{
}

/// The last event that is stored is the one with the greatest number.
pub proof fn law_last_stored_event_has_the_greatest_number(events: Seq<rows::EventColumns>, i: int)
    requires
        0 <= i < events.len(),
    ensures
        events[i].sequence <= backup::last_stored(events),
        exists|k: int|
            0 <= k < events.len() && (#[trigger] events[k]).sequence == backup::last_stored(events),
    decreases events.len(),
{
    let front = events.drop_last();
    let last = events.len() - 1;
    assert(events[last] == events.last());
    if front.len() > 0 {
        law_last_stored_event_has_the_greatest_number(
            front,
            if i < last {
                i
            } else {
                0
            },
        );
        let k = choose|k: int|
            0 <= k < front.len() && (#[trigger] front[k]).sequence == backup::last_stored(front);
        assert(events[k] == front[k]);
        if i < last {
            assert(front[i] == events[i]);
        }
    }
}

/// Only the beginning of a session file is looked at for its session: a first line that ends within it is read, and a
/// longer one is refused, whatever follows.
pub proof fn law_first_line_is_read_within_its_limit(line: Seq<u8>, rest: Seq<u8>)
    requires
        forall|i: int| 0 <= i < line.len() ==> #[trigger] line[i] != 10,
    ensures
        line.len() < MAX_SESSION_METADATA_LINE_BYTES ==> source_fs::metadata_session(
            line.push(10u8) + rest,
        ) == source_fs::session_in(json::json_of_bytes(line.push(10u8))),
        line.len() >= MAX_SESSION_METADATA_LINE_BYTES ==> source_fs::metadata_session(
            line.push(10u8) + rest,
        ) is Err,
{
    let whole = line.push(10u8) + rest;
    let head = source_fs::head_of(whole);
    let most = MAX_SESSION_METADATA_LINE_BYTES as int;
    assert forall|i: int| 0 <= i < line.len() implies #[trigger] whole[i] != 10 by {
        assert(whole[i] == line[i]);
    }
    assert(whole[line.len() as int] == 10);
    if line.len() < most {
        assert forall|i: int| 0 <= i < line.len() implies #[trigger] head[i] != 10 by {
            assert(head[i] == whole[i]);
        }
        assert(head[line.len() as int] == 10);
        lemma_line_end(head, 0, line.len() as int);
        assert(head.take((line.len() + 1) as int) =~= line.push(10u8));
        assert(source_fs::first_line(head) == line.push(10u8));
        assert(line.push(10u8).last() == 10);
    } else {
        assert(head == whole.take(most));
        assert forall|i: int| 0 <= i < most implies #[trigger] head[i] != 10 by {
            assert(head[i] == whole[i]);
        }
        lemma_line_end(head, 0, most);
        assert(source_fs::first_line(head) == head);
        assert(head.last() == head[most - 1]);
    }
}

} // verus!
