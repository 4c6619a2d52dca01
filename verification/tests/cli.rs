use agent_bookkeeper::admin::SubscriptionStatus;
use agent_bookkeeper::cli::{
    choose_subscription, delivery_attempt_json, reconcile_totals, run_report, time_ms, usage,
    ControllerConfig, SubscriptionChoice,
};
use agent_bookkeeper::domain::{EventId, RecordId};
use agent_bookkeeper::ident::Uuid;
use agent_bookkeeper::{
    catalog_status, Catalog, ControlledDeliveryAttempt, ControlledDeliveryOutcome,
    ControlledRunReport, DeliveryCounts, DeliveryOutcome, ReconcileReport, SubscriptionId,
    SubscriptionMode,
};

const OPTIONS: [(&str, &str); 15] = [
    ("--catalog", "/data/catalog.sqlite3"),
    ("--source-id", "codex"),
    ("--producer-id", "01234567-89ab-cdef-0123-456789abcdef"),
    ("--active-root", "/active"),
    ("--archived-root", "/archived"),
    ("--cache-root", "/cache"),
    ("--receipt-root", "/receipts"),
    ("--hindsight-base-url", "http://localhost:8888"),
    ("--hindsight-bank", "bank"),
    ("--hindsight-timeout-seconds", "30"),
    ("--hash-budget-bytes", "1000"),
    ("--max-candidate-bytes", "100"),
    ("--max-deliveries", "+4"),
    ("--max-payload-bytes", "200"),
    ("--lease-duration-ms", "5000"),
];

fn arguments(change: &[(&str, Option<&str>)]) -> Vec<String> {
    let mut all = Vec::new();
    for (name, value) in OPTIONS {
        let changed = change.iter().find(|(changed, _)| *changed == name);
        match changed {
            Some((_, None)) => continue,
            Some((_, Some(value))) => {
                all.push(name.to_owned());
                all.push((*value).to_owned());
            }
            None => {
                all.push(name.to_owned());
                all.push(value.to_owned());
            }
        }
    }
    for (name, value) in change {
        if let Some(value) = value {
            if OPTIONS.iter().all(|(known, _)| known != name) {
                all.push((*name).to_owned());
                all.push((*value).to_owned());
            }
        }
    }
    all
}

fn refusal(change: &[(&str, Option<&str>)]) -> String {
    ControllerConfig::parse(&arguments(change)).unwrap_err()
}

#[test]
fn options_make_a_run() {
    let config = ControllerConfig::parse(&arguments(&[])).unwrap();
    assert_eq!(config.catalog_path, "/data/catalog.sqlite3");
    assert_eq!(config.producer_id.to_text(), "01234567-89ab-cdef-0123-456789abcdef");
    assert_eq!(config.max_deliveries, 4);
    assert_eq!(config.max_payload_bytes, 200);
    assert_eq!(config.reconcile_passes, 2);
    assert_eq!(config.consumer_id, "hindsight-pilot");
    let config = ControllerConfig::parse(&arguments(&[
        ("--reconcile-passes", Some("3")),
        ("--consumer-id", Some("other")),
    ]))
    .unwrap();
    assert_eq!(config.reconcile_passes, 3);
    assert_eq!(config.consumer_id, "other");
}

#[test]
fn refused_options_say_why() {
    let parse = |arguments: &[&str]| {
        let arguments: Vec<String> = arguments.iter().map(|value| (*value).to_owned()).collect();
        ControllerConfig::parse(&arguments).unwrap_err()
    };
    assert_eq!(parse(&["--help"]), usage());
    assert!(usage().starts_with("usage: agent-bookkeeper-hindsight-controller \\\n"));
    assert_eq!(
        parse(&["here"]),
        format!("unexpected positional argument \"here\"\n{}", usage())
    );
    assert_eq!(parse(&["--catalog"]), format!("missing value for --catalog\n{}", usage()));
    assert_eq!(
        parse(&["--catalog", "/a", "--catalog", "/b"]),
        "duplicate option --catalog"
    );
    assert_eq!(
        refusal(&[("--hindsight-bank", None)]),
        format!("missing required --hindsight-bank\n{}", usage())
    );
    assert_eq!(
        refusal(&[("--cache-root", Some("cache"))]),
        "--cache-root must be an absolute path"
    );
    assert!(refusal(&[("--producer-id", Some("none"))])
        .starts_with("--producer-id must be a UUID: "));
    assert_eq!(
        refusal(&[("--hash-budget-bytes", Some(""))]),
        "--hash-budget-bytes must be an unsigned integer: cannot parse integer from empty string"
    );
    assert_eq!(
        refusal(&[("--hash-budget-bytes", Some("-1"))]),
        "--hash-budget-bytes must be an unsigned integer: invalid digit found in string"
    );
    assert_eq!(
        refusal(&[("--max-deliveries", Some("4294967296"))]),
        "--max-deliveries must be an unsigned integer: number too large to fit in target type"
    );
    assert_eq!(
        refusal(&[("--zebra", Some("1")), ("--apple", Some("2"))]),
        format!("unknown option(s): --apple, --zebra\n{}", usage())
    );
    assert_eq!(
        refusal(&[("--source-id", Some(" codex"))]),
        "--source-id must be non-empty and trimmed"
    );
    assert_eq!(
        refusal(&[("--consumer-id", Some(""))]),
        "--consumer-id must be non-empty and trimmed"
    );
    assert_eq!(
        refusal(&[("--lease-duration-ms", Some("0"))]),
        "all controller limits must be greater than zero"
    );
    assert_eq!(
        refusal(&[("--max-payload-bytes", Some("99"))]),
        "--max-payload-bytes must be at least --max-candidate-bytes"
    );
}

fn subscription(consumer_id: &str, id: u128) -> SubscriptionStatus {
    SubscriptionStatus {
        id: SubscriptionId::from_uuid(Uuid::from_u128(id)),
        consumer_id: consumer_id.to_owned(),
        mode: SubscriptionMode::ReplayEvents,
        enabled: true,
        deliveries: DeliveryCounts {
            queued: 0,
            leased: 0,
            blocked: 0,
            acknowledged: 0,
            superseded: 0,
            ignored_by_policy: 0,
            dead_lettered: 0,
        },
        oldest_unresolved_age_ms: None,
        last_acknowledged_at_ms: None,
    }
}

#[test]
fn a_run_uses_the_only_subscription_of_its_consumer() {
    let all = vec![subscription("a", 1), subscription("b", 2), subscription("b", 3)];
    assert!(matches!(choose_subscription(&all, "c"), SubscriptionChoice::Create));
    assert!(matches!(
        choose_subscription(&all, "a"),
        SubscriptionChoice::Use(id) if id.as_uuid().as_u128() == 1
    ));
    match choose_subscription(&all, "b") {
        SubscriptionChoice::Ambiguous { message } => assert_eq!(
            message,
            "refusing ambiguous consumer_id \"b\": 2 subscription epochs exist; select or retire one explicitly"
        ),
        _ => panic!("not ambiguous"),
    }
}

fn report(bytes_hashed: u64) -> ReconcileReport {
    ReconcileReport {
        files_enumerated: 3,
        awaiting_stability: 1,
        already_stable: 1,
        deferred_by_hash_budget: 0,
        deferred_by_size_limit: 0,
        changed_during_scan: 0,
        bytes_hashed,
        events: Vec::new(),
    }
}

#[test]
fn a_run_reports_its_sums_and_attempts() {
    let config = ControllerConfig::parse(&arguments(&[])).unwrap();
    let totals = reconcile_totals(&vec![report(5), report(7)]).unwrap();
    assert_eq!(totals.files_enumerated, 6);
    assert_eq!(totals.bytes_hashed, 12);
    assert!(reconcile_totals(&vec![report(u64::MAX), report(1)]).is_none());
    let id = Uuid::from_u128(5);
    let attempt = |outcome| ControlledDeliveryAttempt {
        event_id: EventId::from_uuid(id),
        record_id: RecordId::from_uuid(id),
        record_version: 2,
        outcome,
    };
    let head = "{\"event_id\":\"00000000-0000-0000-0000-000000000005\",\"outcome\":";
    let tail = ",\"record_id\":\"00000000-0000-0000-0000-000000000005\",\"record_version\":2}";
    let settled = attempt(ControlledDeliveryOutcome::Settled(DeliveryOutcome::IgnoredByPolicy));
    assert_eq!(
        delivery_attempt_json(&settled).to_text(),
        format!("{head}{{\"outcome\":\"IgnoredByPolicy\",\"state\":\"settled\"}}{tail}")
    );
    let retried = attempt(ControlledDeliveryOutcome::Retried { reason: "r".to_owned() });
    assert_eq!(
        delivery_attempt_json(&retried).to_text(),
        format!("{head}{{\"reason\":\"r\",\"state\":\"retried\"}}{tail}")
    );
    let deferred = attempt(ControlledDeliveryOutcome::DeferredByByteBudget);
    assert_eq!(
        delivery_attempt_json(&deferred).to_text(),
        format!("{head}{{\"state\":\"deferred_by_byte_budget\"}}{tail}")
    );
    let catalog = Catalog::open_in_memory().unwrap();
    let status = catalog_status(&catalog, 0).unwrap();
    let delivery = ControlledRunReport { attempts: vec![settled], payload_bytes_admitted: 9 };
    let printed =
        run_report(&config, SubscriptionId::from_uuid(id), &totals, &delivery, &status).to_text();
    assert_eq!(
        printed,
        format!(
            "{{\"catalog\":{{\"active_records\":0,\"latest_event_sequence\":0,\"revisions\":0,\"tombstoned_records\":0}},\"consumer_id\":\"hindsight-pilot\",\"delivery\":{{\"attempts\":1,\"outcomes\":[{head}{{\"outcome\":\"IgnoredByPolicy\",\"state\":\"settled\"}}{tail}],\"payload_bytes_admitted\":9}},\"format_version\":1,\"hindsight\":{{\"bank_id\":\"bank\"}},\"reconcile\":{{\"already_stable\":2,\"awaiting_stability\":2,\"bytes_hashed\":12,\"changed_during_scan\":0,\"deferred_by_hash_budget\":0,\"deferred_by_size_limit\":0,\"events\":0,\"files_enumerated\":6}},\"reconcile_passes\":2,\"source_id\":\"codex\",\"subscription_id\":\"00000000-0000-0000-0000-000000000005\"}}"
        )
    );
}

#[test]
fn time_fits_in_stored_milliseconds() {
    assert_eq!(time_ms(5), Ok(5));
    assert_eq!(
        time_ms(1 << 63),
        Err("system time exceeds i64 milliseconds".to_owned())
    );
}
