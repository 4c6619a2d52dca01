//! What options, sources, session files and reports come to.
use crate::admin::SubscriptionStatusView;
use crate::cli;
use crate::cli::{ChoiceView, ConfigView};
use crate::domain::ProducerId;
use crate::ident;
use crate::ident::Uuid;
use crate::json;
use crate::json::JsonView;
use crate::naming;
use crate::paths;
use crate::scan::ReportView;
use crate::source_fs;
use crate::source_fs::{DeletionMode, RootProbe, RootView, SchemaView, SourceView};
use crate::text;
use vstd::prelude::*;
use vstd::utf8::encode_utf8;

verus! {

/// Whether arguments give this value to the option of this name.
pub open spec fn gives(arguments: Seq<Seq<char>>, name: Seq<char>, value: Seq<char>) -> bool {
    exists|k: int|
        0 <= k && 2 * k + 1 < arguments.len() && #[trigger] arguments[2 * k] == name
            && arguments[2 * k + 1] == value
}

proof fn lemma_options(
    arguments: Seq<Seq<char>>,
    at: int,
    options: Seq<(Seq<char>, Seq<char>)>,
)
    requires
        at == 2 * options.len(),
        at <= arguments.len(),
        forall|k: int|
            0 <= k < options.len() ==> (#[trigger] options[k]).0 == arguments[2 * k]
                && options[k].1 == arguments[2 * k + 1],
    ensures
        cli::options_from(arguments, at, options) matches Ok(read) ==> {
            &&& arguments.len() == 2 * read.len()
            &&& read.len() >= options.len()
            &&& forall|k: int|
                0 <= k < read.len() ==> (#[trigger] read[k]).0 == arguments[2 * k] && read[k].1
                    == arguments[2 * k + 1]
            &&& forall|k: int|
                options.len() <= k < read.len() ==> text::occurs_at(
                    (#[trigger] read[k]).0,
                    "--"@,
                    0,
                ) && read[k].0 != "--help"@
            &&& forall|i: int, j: int|
                0 <= i < j < read.len() && j >= options.len() ==> (#[trigger] read[i]).0 != (
                #[trigger] read[j]).0
        },
    decreases arguments.len() - at,
{
    if at < arguments.len() {
        let key = arguments[at];
        if let Ok(read) = cli::options_from(arguments, at, options) {
            let next = options.push((key, arguments[at + 1]));
            assert forall|k: int| 0 <= k < next.len() implies (#[trigger] next[k]).0
                == arguments[2 * k] && next[k].1 == arguments[2 * k + 1] by {
                if k < options.len() {
                    assert(next[k] == options[k]);
                }
            }
            lemma_options(arguments, at + 2, next);
            lemma_value(options, key);
            let n = options.len() as int;
            assert(read[n].0 == arguments[2 * n]);
            assert forall|i: int| 0 <= i < n implies (#[trigger] read[i]).0 != key by {
                assert(options[i].0 == arguments[2 * i]);
            }
        }
    }
}

proof fn lemma_value(options: Seq<(Seq<char>, Seq<char>)>, name: Seq<char>)
    ensures
        cli::value_of(options, name) is None <==> forall|k: int|
            0 <= k < options.len() ==> (#[trigger] options[k]).0 != name,
        cli::value_of(options, name) matches Some(value) ==> exists|k: int|
            0 <= k < options.len() && (#[trigger] options[k]).0 == name && options[k].1 == value,
    decreases options.len(),
{
    if options.len() > 0 {
        let front = options.drop_last();
        lemma_value(front, name);
        assert(options[options.len() - 1] == options.last());
        assert forall|k: int| 0 <= k < front.len() implies #[trigger] options[k] == front[k] by {}
        if options.last().0 != name {
            if let Some(value) = cli::value_of(front, name) {
                let k = choose|k: int|
                    0 <= k < front.len() && (#[trigger] front[k]).0 == name && front[k].1 == value;
                assert(options[k] == front[k]);
            }
        }
    }
}

proof fn lemma_given(arguments: Seq<Seq<char>>, name: Seq<char>)
    requires
        cli::options_from(arguments, 0, Seq::empty()) is Ok,
    ensures
        ({
            let options = cli::options_from(arguments, 0, Seq::empty())->Ok_0;
            &&& cli::value_of(options, name) matches Some(value) ==> gives(arguments, name, value)
            &&& cli::value_of(options, name) is None ==> forall|k: int|
                0 <= k && 2 * k + 1 < arguments.len() ==> #[trigger] arguments[2 * k] != name
        }),
{
    let options = cli::options_from(arguments, 0, Seq::empty())->Ok_0;
    lemma_options(arguments, 0, Seq::empty());
    lemma_value(options, name);
    if let Some(value) = cli::value_of(options, name) {
        let k = choose|k: int|
            0 <= k < options.len() && (#[trigger] options[k]).0 == name && options[k].1 == value;
        assert(arguments[2 * k] == name);
    } else {
        assert forall|k: int| 0 <= k && 2 * k + 1 < arguments.len() implies #[trigger] arguments[2
            * k] != name by {
            assert(options[k].0 == arguments[2 * k]);
        }
    }
}

/// Options are pairs of a name and a value: every name begins with two dashes, and none is given twice.
pub proof fn law_options_are_pairs(arguments: Seq<Seq<char>>)
    requires
        cli::config_of(arguments) is Ok,
    ensures
        arguments.len() % 2 == 0,
        forall|k: int|
            0 <= k && 2 * k + 1 < arguments.len() ==> (#[trigger] arguments[2 * k]).len() >= 2
                && arguments[2 * k][0] == '-' && arguments[2 * k][1] == '-',
        forall|i: int, j: int|
            0 <= i < j && 2 * j + 1 < arguments.len() ==> #[trigger] arguments[2 * i]
                != #[trigger] arguments[2 * j],
{
    let options = cli::options_from(arguments, 0, Seq::empty())->Ok_0;
    lemma_options(arguments, 0, Seq::empty());
    reveal_strlit("--");
    assert forall|k: int| 0 <= k && 2 * k + 1 < arguments.len() implies (#[trigger] arguments[2
        * k]).len() >= 2 && arguments[2 * k][0] == '-' && arguments[2 * k][1] == '-' by {
        let key = options[k].0;
        assert(key.subrange(0, 2)[0] == "--"@[0]);
        assert(key.subrange(0, 2)[1] == "--"@[1]);
    }
    assert forall|i: int, j: int| 0 <= i < j && 2 * j + 1 < arguments.len() implies #[trigger] arguments[2
        * i] != #[trigger] arguments[2 * j] by {
        assert(options[i].0 != options[j].0);
    }
}

/// The texts of a configuration are the values of their options.
pub proof fn law_configuration_holds_what_was_given(arguments: Seq<Seq<char>>)
    requires
        cli::config_of(arguments) is Ok,
    ensures
        ({
            let c = cli::config_of(arguments)->Ok_0;
            &&& gives(arguments, "--catalog"@, c.catalog_path)
            &&& gives(arguments, "--source-id"@, c.source_id)
            &&& gives(arguments, "--active-root"@, c.active_root)
            &&& gives(arguments, "--archived-root"@, c.archived_root)
            &&& gives(arguments, "--cache-root"@, c.cache_root)
            &&& gives(arguments, "--receipt-root"@, c.receipt_root)
            &&& gives(arguments, "--hindsight-base-url"@, c.hindsight_base_url)
            &&& gives(arguments, "--hindsight-bank"@, c.hindsight_bank)
            &&& paths::absolute(c.active_root)
            &&& paths::absolute(c.archived_root)
            &&& paths::absolute(c.cache_root)
            &&& paths::absolute(c.receipt_root)
            &&& gives(arguments, "--consumer-id"@, c.consumer_id) || c.consumer_id
                == "hindsight-pilot"@
            &&& (exists|k: int|
                0 <= k && 2 * k + 1 < arguments.len() && #[trigger] arguments[2 * k]
                    == "--consumer-id"@) ==> gives(arguments, "--consumer-id"@, c.consumer_id)
            &&& exists|id: Seq<char>| #[trigger]
                gives(arguments, "--producer-id"@, id) && ident::uuid_number(id) is Some
                    && c.producer_id.value == ident::uuid_number(id)->Some_0 as u128
        }),
{
    let options = cli::options_from(arguments, 0, Seq::empty())->Ok_0;
    lemma_given(arguments, "--catalog"@);
    lemma_given(arguments, "--source-id"@);
    lemma_given(arguments, "--active-root"@);
    lemma_given(arguments, "--archived-root"@);
    lemma_given(arguments, "--cache-root"@);
    lemma_given(arguments, "--receipt-root"@);
    lemma_given(arguments, "--hindsight-base-url"@);
    lemma_given(arguments, "--hindsight-bank"@);
    lemma_given(arguments, "--consumer-id"@);
    lemma_given(arguments, "--producer-id"@);
    let id = cli::value_of(options, "--producer-id"@)->Some_0;
    assert(gives(arguments, "--producer-id"@, id));
}

/// The text behind a plus sign, or all of one that begins with none.
pub open spec fn unsigned_part(t: Seq<char>) -> Seq<char> {
    if t.len() > 0 && t[0] == '+' {
        t.skip(1)
    } else {
        t
    }
}

/// Whether this text is decimal digits, with a plus sign before them or without.
pub open spec fn is_number(t: Seq<char>) -> bool {
    let digits = unsigned_part(t);
    &&& digits.len() > 0
    &&& forall|i: int| 0 <= i < digits.len() ==> '0' <= #[trigger] digits[i] <= '9'
}

/// Whether this text tells this number.
pub open spec fn tells(t: Seq<char>, value: int) -> bool {
    is_number(t) && naming::number(unsigned_part(t)) == value
}

proof fn lemma_digits(digits: Seq<char>)
    ensures
        cli::digits_number(digits) is Some <==> forall|i: int|
            0 <= i < digits.len() ==> '0' <= #[trigger] digits[i] <= '9',
        cli::digits_number(digits) matches Some(value) ==> naming::number(digits) == value,
    decreases digits.len(),
{
    if digits.len() > 0 {
        let front = digits.drop_last();
        lemma_digits(front);
        assert(digits[digits.len() - 1] == digits.last());
        assert forall|i: int| 0 <= i < front.len() implies #[trigger] digits[i] == front[i] by {}
        if forall|i: int| 0 <= i < digits.len() ==> '0' <= #[trigger] digits[i] <= '9' {
            assert forall|i: int| 0 <= i < front.len() implies '0' <= #[trigger] front[i] <= '9' by {
                assert(digits[i] == front[i]);
            }
        }
    }
}

/// A text is a number exactly where it is decimal digits, with a plus sign before them or without.
pub proof fn law_number_is_told_in_digits(t: Seq<char>, value: int)
    ensures
        cli::unsigned_number(t) is Some <==> is_number(t),
        cli::unsigned_number(t) is Some ==> (tells(t, value) <==> cli::unsigned_number(t)->Some_0
            == value),
{
    lemma_digits(unsigned_part(t));
}

/// The numbers of a configuration are the ones that their options tell.
pub proof fn law_configuration_holds_the_numbers_given(arguments: Seq<Seq<char>>)
    requires
        cli::config_of(arguments) is Ok,
    ensures
        ({
            let c = cli::config_of(arguments)->Ok_0;
            &&& told(arguments, "--hindsight-timeout-seconds"@, c.hindsight_timeout_seconds as int)
            &&& told(arguments, "--hash-budget-bytes"@, c.hash_budget_bytes as int)
            &&& told(arguments, "--max-candidate-bytes"@, c.max_candidate_bytes as int)
            &&& told(arguments, "--max-deliveries"@, c.max_deliveries as int)
            &&& told(arguments, "--max-payload-bytes"@, c.max_payload_bytes as int)
            &&& told(arguments, "--lease-duration-ms"@, c.lease_duration_ms as int)
            &&& told(arguments, "--reconcile-passes"@, c.reconcile_passes as int)
                || c.reconcile_passes == 2
            &&& (exists|k: int|
                0 <= k && 2 * k + 1 < arguments.len() && #[trigger] arguments[2 * k]
                    == "--reconcile-passes"@) ==> told(
                arguments,
                "--reconcile-passes"@,
                c.reconcile_passes as int,
            )
        }),
{
    let c = cli::config_of(arguments)->Ok_0;
    lemma_told(arguments, "--hindsight-timeout-seconds"@);
    lemma_told(arguments, "--hash-budget-bytes"@);
    lemma_told(arguments, "--max-candidate-bytes"@);
    lemma_told(arguments, "--max-deliveries"@);
    lemma_told(arguments, "--max-payload-bytes"@);
    lemma_told(arguments, "--lease-duration-ms"@);
    lemma_told(arguments, "--reconcile-passes"@);
    lemma_given(arguments, "--reconcile-passes"@);
    reveal_strlit("2");
    law_number_is_told_in_digits("2"@, c.reconcile_passes as int);
    if cli::value_of(
        cli::options_from(arguments, 0, Seq::empty())->Ok_0,
        "--reconcile-passes"@,
    ) is None {
        assert("2"@.drop_last() =~= Seq::<char>::empty());
        assert(naming::number("2"@.drop_last()) == 0);
        assert("2"@.last() == '2');
        assert(naming::number("2"@) == 2);
        assert(tells("2"@, c.reconcile_passes as int));
    }
}

/// Whether arguments give this number to the option of this name.
pub open spec fn told(arguments: Seq<Seq<char>>, name: Seq<char>, value: int) -> bool {
    exists|t: Seq<char>| #[trigger] gives(arguments, name, t) && tells(t, value)
}

proof fn lemma_told(arguments: Seq<Seq<char>>, name: Seq<char>)
    requires
        cli::options_from(arguments, 0, Seq::empty()) is Ok,
    ensures
        ({
            let options = cli::options_from(arguments, 0, Seq::empty())->Ok_0;
            cli::value_of(options, name) matches Some(t) ==> (cli::unsigned_number(
                t,
            ) matches Some(value) ==> told(arguments, name, value as int))
        }),
{
    let options = cli::options_from(arguments, 0, Seq::empty())->Ok_0;
    lemma_given(arguments, name);
    if let Some(t) = cli::value_of(options, name) {
        if let Some(value) = cli::unsigned_number(t) {
            law_number_is_told_in_digits(t, value as int);
            assert(gives(arguments, name, t) && tells(t, value as int));
        }
    }
}

proof fn lemma_unknown(options: Seq<(Seq<char>, Seq<char>)>)
    ensures
        cli::unknown_names(options).len() == 0 <==> forall|k: int|
            0 <= k < options.len() ==> cli::is_known((#[trigger] options[k]).0),
    decreases options.len(),
{
    if options.len() > 0 {
        let front = options.drop_last();
        lemma_unknown(front);
        assert(options[options.len() - 1] == options.last());
        assert forall|k: int| 0 <= k < front.len() implies #[trigger] options[k] == front[k] by {}
        if forall|k: int| 0 <= k < options.len() ==> cli::is_known((#[trigger] options[k]).0) {
            assert forall|k: int| 0 <= k < front.len() implies cli::is_known(
                (#[trigger] front[k]).0,
            ) by {
                assert(options[k] == front[k]);
            }
        }
    }
}

/// A configuration is refused exactly where an option is not known, an identity is empty or not trimmed, a
/// limit is zero, or a file may be longer than a whole run may carry.
pub proof fn law_configuration_is_refused_for_a_reason(
    options: Seq<(Seq<char>, Seq<char>)>,
    c: ConfigView,
)
    ensures
        cli::config_fault(options, c) is None <==> {
            &&& forall|k: int| 0 <= k < options.len() ==> cli::is_known((#[trigger] options[k]).0)
            &&& c.source_id.len() > 0 && text::trim(c.source_id) == c.source_id
            &&& c.consumer_id.len() > 0 && text::trim(c.consumer_id) == c.consumer_id
            &&& c.hindsight_timeout_seconds > 0
            &&& c.max_deliveries > 0
            &&& c.max_payload_bytes > 0
            &&& c.lease_duration_ms > 0
            &&& c.reconcile_passes > 0
            &&& c.max_candidate_bytes <= c.max_payload_bytes
        },
{
    lemma_unknown(options);
}

proof fn lemma_filter_none<T>(items: Seq<T>, accepts: spec_fn(T) -> bool)
    ensures
        items.filter(accepts).len() == 0 <==> forall|i: int|
            0 <= i < items.len() ==> !accepts(#[trigger] items[i]),
    decreases items.len(),
{
    reveal(Seq::filter);
    if items.len() > 0 {
        let front = items.drop_last();
        lemma_filter_none(front, accepts);
        assert(items[items.len() - 1] == items.last());
        assert forall|i: int| 0 <= i < front.len() implies #[trigger] items[i] == front[i] by {}
        if forall|i: int| 0 <= i < items.len() ==> !accepts(#[trigger] items[i]) {
            assert forall|i: int| 0 <= i < front.len() implies !accepts(#[trigger] front[i]) by {
                assert(items[i] == front[i]);
            }
        }
    }
}

proof fn lemma_filter_one<T>(items: Seq<T>, accepts: spec_fn(T) -> bool, k: int)
    requires
        0 <= k < items.len(),
        accepts(items[k]),
    ensures
        items.filter(accepts).len() >= 1,
        (forall|i: int| 0 <= i < items.len() && i != k ==> !accepts(#[trigger] items[i]))
            ==> items.filter(accepts) == seq![items[k]],
        (exists|i: int| 0 <= i < items.len() && i != k && accepts(#[trigger] items[i]))
            ==> items.filter(accepts).len() >= 2,
    decreases items.len(),
{
    reveal(Seq::filter);
    let front = items.drop_last();
    let last = items.len() - 1;
    assert forall|i: int| 0 <= i < front.len() implies #[trigger] items[i] == front[i] by {}
    if k < last {
        lemma_filter_one(front, accepts, k);
        if forall|i: int| 0 <= i < items.len() && i != k ==> !accepts(#[trigger] items[i]) {
            assert(!accepts(items[last]));
            assert forall|i: int| 0 <= i < front.len() && i != k implies !accepts(
                #[trigger] front[i],
            ) by {
                assert(items[i] == front[i]);
            }
        }
        if exists|i: int| 0 <= i < items.len() && i != k && accepts(#[trigger] items[i]) {
            let i = choose|i: int|
                0 <= i < items.len() && i != k && accepts(#[trigger] items[i]);
            if i < last {
                assert(accepts(front[i]));
            }
        }
    } else {
        lemma_filter_none(front, accepts);
        if forall|i: int| 0 <= i < items.len() && i != k ==> !accepts(#[trigger] items[i]) {
            assert forall|i: int| 0 <= i < front.len() implies !accepts(#[trigger] front[i]) by {
                assert(items[i] == front[i]);
            }
            assert(front.filter(accepts) =~= Seq::<T>::empty());
            assert(items.filter(accepts) =~= seq![items[k]]);
        }
        if exists|i: int| 0 <= i < items.len() && i != k && accepts(#[trigger] items[i]) {
            let i = choose|i: int|
                0 <= i < items.len() && i != k && accepts(#[trigger] items[i]);
            assert(accepts(front[i]));
        }
    }
}

/// A consumer without a subscription gets one; with one it uses that; and with more it is told that it is
/// ambiguous.
pub proof fn law_consumer_has_one_subscription(
    subscriptions: Seq<SubscriptionStatusView>,
    consumer_id: Seq<char>,
    k: int,
)
    ensures
        ({
            let choice = cli::choice(subscriptions, consumer_id);
            &&& choice is Create <==> forall|i: int|
                0 <= i < subscriptions.len() ==> (#[trigger] subscriptions[i]).consumer_id
                    != consumer_id
            &&& 0 <= k < subscriptions.len() && subscriptions[k].consumer_id == consumer_id ==> {
                &&& (forall|i: int|
                    0 <= i < subscriptions.len() && i != k ==> (
                    #[trigger] subscriptions[i]).consumer_id != consumer_id) ==> choice
                    == ChoiceView::Use(subscriptions[k].id)
                &&& (exists|i: int|
                    0 <= i < subscriptions.len() && i != k && (
                    #[trigger] subscriptions[i]).consumer_id == consumer_id) ==> choice is Ambiguous
            }
        }),
{
    let accepts = cli::consumed_by(consumer_id);
    lemma_filter_none(subscriptions, accepts);
    if cli::choice(subscriptions, consumer_id) is Create {
        assert forall|i: int| 0 <= i < subscriptions.len() implies (
        #[trigger] subscriptions[i]).consumer_id != consumer_id by {
            assert(!accepts(subscriptions[i]));
        }
    }
    if 0 <= k < subscriptions.len() && subscriptions[k].consumer_id == consumer_id {
        lemma_filter_one(subscriptions, accepts, k);
        if forall|i: int|
            0 <= i < subscriptions.len() && i != k ==> (#[trigger] subscriptions[i]).consumer_id
                != consumer_id {
            assert forall|i: int| 0 <= i < subscriptions.len() && i != k implies !accepts(
                #[trigger] subscriptions[i],
            ) by {}
        }
        if exists|i: int|
            0 <= i < subscriptions.len() && i != k && (#[trigger] subscriptions[i]).consumer_id
                == consumer_id {
            let i = choose|i: int|
                0 <= i < subscriptions.len() && i != k && (
                #[trigger] subscriptions[i]).consumer_id == consumer_id;
            assert(accepts(subscriptions[i]));
        }
    }
}

/// The sums of some passes and one more are the sums of those and what the one counted.
pub proof fn law_passes_add_up(reports: Seq<ReportView>, report: ReportView)
    ensures
        ({
            let before = cli::totals(reports);
            let after = cli::totals(reports.push(report));
            &&& after.files_enumerated == before.files_enumerated + report.files_enumerated
            &&& after.awaiting_stability == before.awaiting_stability + report.awaiting_stability
            &&& after.already_stable == before.already_stable + report.already_stable
            &&& after.deferred_by_hash_budget == before.deferred_by_hash_budget
                + report.deferred_by_hash_budget
            &&& after.deferred_by_size_limit == before.deferred_by_size_limit
                + report.deferred_by_size_limit
            &&& after.changed_during_scan == before.changed_during_scan
                + report.changed_during_scan
            &&& after.bytes_hashed == before.bytes_hashed + report.bytes_hashed
            &&& after.events == before.events + report.events.len()
            &&& reports.len() == 0 ==> before.files_enumerated == 0 && before.awaiting_stability
                == 0 && before.already_stable == 0 && before.deferred_by_hash_budget == 0
                && before.deferred_by_size_limit == 0 && before.changed_during_scan == 0
                && before.bytes_hashed == 0 && before.events == 0
        }),
{
    assert(reports.push(report).drop_last() =~= reports);
}

/// A source is taken exactly where its identity is a label, it has a root, no two roots have one role, and
/// every root has a guard where it deletes.
pub proof fn law_source_is_refused_for_a_reason(
    source_id: Seq<char>,
    roots: Seq<RootView>,
    deletion_mode: DeletionMode,
)
    ensures
        source_fs::source_refusal(source_id, roots, deletion_mode) is None <==> {
            &&& text::is_label(source_id)
            &&& roots.len() > 0
            &&& forall|i: int, j: int|
                0 <= i < j < roots.len() ==> (#[trigger] roots[i]).root_role != (
                #[trigger] roots[j]).root_role
            &&& deletion_mode is Guarded ==> forall|i: int|
                0 <= i < roots.len() ==> (#[trigger] roots[i]).guard is Some
        },
{
}

/// A root is healthy exactly where it is a directory whose marker has the revision that its guard
/// expects, where it has a guard.
pub proof fn law_root_is_healthy_by_its_marker(root: RootView, probe: RootProbe)
    ensures
        source_fs::root_fault(root, probe) is None <==> probe is Directory && (
        root.guard matches Some(guard) ==> probe->Directory_0 is Some
            && probe->Directory_0->Some_0@ == guard.expected),
{
}

/// A scan is registered under its own source, producer and schema.
pub proof fn law_registration_is_of_its_source(source: SourceView, schema: SchemaView)
    ensures
        ({
            let registration = source_fs::registration_of(source, schema);
            &&& registration.source_id == source.source_id
            &&& registration.producer_id == source.producer_id
            &&& registration.identity_schema_name == schema.name
            &&& registration.identity_schema_version == schema.version
        }),
{
}

/// A session file holds the record of the session that both its name and its first line tell, at its place
/// below its root.
pub proof fn law_session_file_holds_its_session(
    producer_id: ProducerId,
    root_role: Seq<char>,
    path: Seq<char>,
    head: Seq<u8>,
)
    ensures
        ({
            let read = source_fs::rollout_record(producer_id, root_role, path, head);
            let named = source_fs::filename_session(path);
            let told = source_fs::metadata_session(head);
            &&& read matches Ok(Some(record)) ==> {
                &&& named matches Ok(Some(id)) && told == Ok::<nat, source_fs::SourceErrorView>(id)
                    && record.identity.session_id == ident::uuid_text(
                    Uuid { value: id as u128 },
                )
                &&& record.identity.producer_id == producer_id
                &&& record.identity.agent_namespace == "codex"@
                &&& record.identity.record_kind == "transcript"@
                &&& record.identity.record_key == "primary"@
                &&& record.location.root_role == root_role
                &&& Ok::<Seq<char>, source_fs::SourceErrorView>(record.location.source_relative_path)
                    == source_fs::normalized(path)
                &&& record.location.valid()
            }
            &&& named matches Ok(None) ==> read == Ok::<
                Option<source_fs::ParsedView>,
                source_fs::SourceErrorView,
            >(None)
            &&& read matches Ok(None) ==> named matches Ok(None)
        }),
{
}

proof fn lemma_encoded_behind(a: Seq<char>, b: Seq<char>)
    ensures
        encode_utf8(a + b) == encode_utf8(a) + encode_utf8(b),
    decreases a.len(),
{
    if a.len() == 0 {
        assert(a + b =~= b);
        assert(encode_utf8(a) + encode_utf8(b) =~= encode_utf8(b));
    } else {
        lemma_encoded_behind(a.drop_first(), b);
        assert((a + b).drop_first() =~= a.drop_first() + b);
        assert(encode_utf8(a + b) =~= encode_utf8(a) + encode_utf8(b));
    }
}

proof fn lemma_uuid_is_ascii(id: Uuid)
    ensures
        vstd::utf8::is_ascii_chars(ident::uuid_text(id)),
        ident::uuid_text(id).len() == 36,
{
    ident::law_uuid_text_reads_back(id);
    lemma_digits_are_ascii(id.value as nat, 32);
    let digits = ident::hex_digits(id.value as nat, 32);
    let t = ident::uuid_text(id);
    assert forall|i: int| 0 <= i < t.len() implies '\0' <= #[trigger] t[i] <= '\u{7f}' by {
        if i < 8 {
            assert(t[i] == digits[i]);
        } else if 8 < i < 13 {
            assert(t[i] == digits[i - 1]);
        } else if 13 < i < 18 {
            assert(t[i] == digits[i - 2]);
        } else if 18 < i < 23 {
            assert(t[i] == digits[i - 3]);
        } else if 23 < i {
            assert(t[i] == digits[i - 4]);
        } else {
            assert(t[i] == '-');
        }
    }
}

proof fn lemma_digits_are_ascii(value: nat, count: nat)
    ensures
        ident::hex_digits(value, count).len() == count,
        forall|i: int|
            0 <= i < count ==> '0' <= #[trigger] ident::hex_digits(value, count)[i] <= 'f',
    decreases count,
{
    if count > 0 {
        lemma_digits_are_ascii(value / 16, (count - 1) as nat);
    }
}

/// A session file is named by its session: whatever stands between the beginning of its name and the
/// identity of the session, that identity is read from it.
pub proof fn law_session_is_read_from_the_name(directory: Seq<char>, middle: Seq<char>, id: Uuid)
    requires
        forall|i: int| 0 <= i < middle.len() ==> #[trigger] middle[i] != '/',
    ensures
        ({
            let name = "rollout-"@ + (middle + seq!['-'] + ident::uuid_text(id)) + ".jsonl"@;
            source_fs::filename_session(directory.push('/') + name) == Ok::<
                Option<nat>,
                source_fs::SourceErrorView,
            >(Some(id.value as nat))
        }),
{
    let stem = middle + seq!['-'] + ident::uuid_text(id);
    let name = "rollout-"@ + stem + ".jsonl"@;
    reveal_strlit("rollout-");
    reveal_strlit(".jsonl");
    lemma_uuid_is_ascii(id);
    ident::law_uuid_text_reads_back(id);
    let written = ident::uuid_text(id);
    lemma_uuid_has_no_slash(id);
    assert forall|i: int| 0 <= i < name.len() implies #[trigger] name[i] != '/' by {
        if i < 8 {
            assert(name[i] == "rollout-"@[i]);
            lemma_plain_prefix(i);
        } else if i < 8 + stem.len() {
            let at = i - 8;
            assert(name[i] == stem[at]);
            if at < middle.len() {
                assert(stem[at] == middle[at]);
            } else if at > middle.len() {
                assert(stem[at] == written[at - middle.len() - 1]);
            }
        } else {
            assert(name[i] == ".jsonl"@[i - 8 - stem.len()]);
            lemma_plain_suffix(i - 8 - stem.len());
        }
    }
    naming::law_file_name_is_behind_the_last_slash(directory, name);
    assert(name.subrange(0, 8) =~= "rollout-"@);
    assert(name.subrange(name.len() - 6, name.len() as int) =~= ".jsonl"@);
    assert(name.subrange(8, name.len() - 6) =~= stem);
    assert(source_fs::rollout_stem(name) == Some(stem));
    lemma_encoded_behind(middle + seq!['-'], written);
    lemma_encoded_behind(middle, seq!['-']);
    vstd::utf8::is_ascii_chars_encode_utf8(written);
    assert(vstd::utf8::is_ascii_chars(seq!['-']));
    vstd::utf8::is_ascii_chars_encode_utf8(seq!['-']);
    let bytes = encode_utf8(stem);
    let start = bytes.len() - 36;
    assert(seq!['-'][0] as u8 == encode_utf8(seq!['-'])[0]);
    assert(bytes[start - 1] == 0x2d);
    assert(bytes.subrange(start, bytes.len() as int) =~= encode_utf8(written));
    vstd::utf8::encode_utf8_decode_utf8(written);
    vstd::utf8::encode_utf8_valid_utf8(written);
}

proof fn lemma_plain_prefix(i: int)
    requires
        0 <= i < 8,
    ensures
        "rollout-"@[i] != '/',
{
    reveal_strlit("rollout-");
    assert("rollout-"@[0] == 'r');
    assert("rollout-"@[1] == 'o');
    assert("rollout-"@[2] == 'l');
    assert("rollout-"@[3] == 'l');
    assert("rollout-"@[4] == 'o');
    assert("rollout-"@[5] == 'u');
    assert("rollout-"@[6] == 't');
    assert("rollout-"@[7] == '-');
}

proof fn lemma_plain_suffix(i: int)
    requires
        0 <= i < 6,
    ensures
        ".jsonl"@[i] != '/',
{
    reveal_strlit(".jsonl");
    assert(".jsonl"@[0] == '.');
    assert(".jsonl"@[1] == 'j');
    assert(".jsonl"@[2] == 's');
    assert(".jsonl"@[3] == 'o');
    assert(".jsonl"@[4] == 'n');
    assert(".jsonl"@[5] == 'l');
}

proof fn lemma_uuid_has_no_slash(id: Uuid)
    ensures
        forall|i: int| 0 <= i < 36 ==> #[trigger] ident::uuid_text(id)[i] != '/',
{
    ident::law_uuid_text_reads_back(id);
    lemma_digits_are_ascii(id.value as nat, 32);
    let digits = ident::hex_digits(id.value as nat, 32);
    let t = ident::uuid_text(id);
    assert forall|i: int| 0 <= i < 36 implies #[trigger] t[i] != '/' by {
        if i < 8 {
            assert(t[i] == digits[i]);
        } else if 8 < i < 13 {
            assert(t[i] == digits[i - 1]);
        } else if 13 < i < 18 {
            assert(t[i] == digits[i - 2]);
        } else if 18 < i < 23 {
            assert(t[i] == digits[i - 3]);
        } else if 23 < i {
            assert(t[i] == digits[i - 4]);
        } else {
            assert(t[i] == '-');
        }
    }
}

/// The first line of a session file tells its session by the identity in its payload, where it is of that
/// kind; and anything else is refused.
pub proof fn law_session_is_read_from_the_first_line(value: JsonView, payload: JsonView, id: Uuid)
    requires
        json::get(value, "type"@) == Some(JsonView::Text("session_meta"@)),
        json::get(value, "payload"@) == Some(payload),
    ensures
        json::get(payload, "id"@) == Some(JsonView::Text(ident::uuid_text(id)))
            ==> source_fs::session_in(Ok(value)) == Ok::<nat, source_fs::SourceErrorView>(
            id.value as nat,
        ),
        !(json::get(payload, "id"@) matches Some(JsonView::Text(_))) ==> source_fs::session_in(
            Ok(value),
        ) is Err,
{
    ident::law_uuid_text_reads_back(id);
}

/// A file whose first record is of another kind is no session file.
pub proof fn law_other_first_line_is_refused(value: JsonView)
    requires
        json::get(value, "type"@) != Some(JsonView::Text("session_meta"@)),
    ensures
        source_fs::session_in(Ok(value)) is Err,
{
}

/// The place of a record below its root is the parts of its path that name something, with one slash between them;
/// a path without any, or that leads elsewhere, is refused.
pub proof fn law_place_is_made_of_normal_parts(path: Seq<char>)
    ensures
        source_fs::normalized(path) is Ok <==> paths::normal_parts(path) is Some
            && paths::normal_parts(path)->Some_0.len() > 0,
        source_fs::normalized(path) matches Ok(place) ==> place == text::join(
            paths::normal_parts(path)->Some_0,
            seq!['/'],
        ),
{
    reveal_strlit("/");
    assert("/"@ =~= seq!['/']);
}

/// A root is taken exactly where its role is a label without separators and its path is absolute.
pub proof fn law_root_has_a_role_and_a_path(role: Seq<char>, path: Seq<char>)
    ensures
        source_fs::source_root_refusal(role, path) is None <==> {
            &&& text::is_label(role)
            &&& forall|i: int| 0 <= i < role.len() ==> #[trigger] role[i] != '/' && role[i] != '\\'
            &&& path.len() > 0 && path[0] == '/'
        },
{
    let anywhere = source_fs::anywhere(role);
    let place = "placeholder"@;
    naming::law_location_is_below_its_root(anywhere);
    reveal_strlit("placeholder");
    assert(place[0] == 'p');
    assert(place[1] == 'l');
    assert(place[2] == 'a');
    assert(place[3] == 'c');
    assert(place[4] == 'e');
    assert(place[5] == 'h');
    assert(place[6] == 'o');
    assert(place[7] == 'l');
    assert(place[8] == 'd');
    assert(place[9] == 'e');
    assert(place[10] == 'r');
    assert forall|i: int| 0 <= i < place.len() implies #[trigger] place[i] != '/' && place[i] != '\\'
        && place[i] != '\0' by {
        assert(i == 0 || i == 1 || i == 2 || i == 3 || i == 4 || i == 5 || i == 6 || i == 7 || i == 8
            || i == 9 || i == 10);
    }
    naming::law_path_parts_are_what_separators_part(Seq::empty(), '/', place);
    assert(crate::domain::path_components(place) == seq![place]);
    assert(place.len() == 11);
}

} // verus!
