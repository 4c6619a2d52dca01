//! The command line of the one-shot controller: its options, its choice of a subscription, and
//! the report that it prints.
use vstd::prelude::*;

use crate::admin::{CatalogStatus, StatusView, SubscriptionStatus, SubscriptionStatusView};
use crate::controller::{
    AttemptView, ControlledDeliveryAttempt, ControlledDeliveryOutcome, ControlledRunReport,
    OutcomeView,
};
use crate::delivery::SubscriptionId;
use crate::domain::DeliveryOutcome;
use crate::ident;
use crate::ident::Uuid;
use crate::json::{Json, JsonObject, JsonView};
use crate::paths;
use crate::paths::is_absolute;
use crate::scan::{ReconcileReport, ReportView};
use crate::text;
use crate::text::{
    comes_before, concat2, concat3, debug_text, decimal_text, is_trimmed, join_text, same_text,
    starts_with,
};

verus! {

/// The consumer of a controller that names none.
pub open spec fn default_consumer_id() -> Seq<char> {
    "hindsight-pilot"@
}

/// How the controller is called.
pub open spec fn usage_text() -> Seq<char> {
    "usage: agent-bookkeeper-hindsight-controller \\\n+  --catalog ABSOLUTE_PATH --source-id ID --producer-id UUID \\\n+  --active-root ABSOLUTE_PATH --archived-root ABSOLUTE_PATH \\\n+  --cache-root ABSOLUTE_PATH --receipt-root ABSOLUTE_PATH \\\n+  --hindsight-base-url URL --hindsight-bank ID --hindsight-timeout-seconds N \\\n+  --hash-budget-bytes N --max-candidate-bytes N --max-deliveries N \\\n+  --max-payload-bytes N --lease-duration-ms N [--reconcile-passes N] [--consumer-id ID]"@
}

/// How the controller is called.
pub fn usage() -> (result: String)
    ensures
        result@ == usage_text(),
{
    "usage: agent-bookkeeper-hindsight-controller \\\n+  --catalog ABSOLUTE_PATH --source-id ID --producer-id UUID \\\n+  --active-root ABSOLUTE_PATH --archived-root ABSOLUTE_PATH \\\n+  --cache-root ABSOLUTE_PATH --receipt-root ABSOLUTE_PATH \\\n+  --hindsight-base-url URL --hindsight-bank ID --hindsight-timeout-seconds N \\\n+  --hash-budget-bytes N --max-candidate-bytes N --max-deliveries N \\\n+  --max-payload-bytes N --lease-duration-ms N [--reconcile-passes N] [--consumer-id ID]".to_owned()
}

/// The number that decimal digits spell, where each character is one.
pub open spec fn digits_number(digits: Seq<char>) -> Option<nat>
    decreases digits.len(),
{
    if digits.len() == 0 {
        Some(0)
    } else if '0' <= digits.last() <= '9' {
        match digits_number(digits.drop_last()) {
            Some(high) => Some(10 * high + (digits.last() as u32 - '0' as u32) as nat),
            None => None,
        }
    } else {
        None
    }
}

/// The number that a text spells: decimal digits, with a plus sign before them or without one.
pub open spec fn unsigned_number(text: Seq<char>) -> Option<nat> {
    let digits = if text.len() > 0 && text[0] == '+' {
        text.skip(1)
    } else {
        text
    };
    if digits.len() == 0 {
        None
    } else {
        digits_number(digits)
    }
}

/// The text of the error that reading `text` as a 64-bit number gives.
pub uninterp spec fn u64_error(text: Seq<char>) -> Seq<char>;

/// The text of the error that reading `text` as a 32-bit number gives.
pub uninterp spec fn u32_error(text: Seq<char>) -> Seq<char>;

/// `str::parse` for `u64`: an optional plus sign and decimal digits whose number fits, and nothing
/// else. The error's text is named, not described.
#[verifier::external_body]
fn outside_parse_u64(text: &str) -> (result: Result<u64, String>)
    ensures
        match result {
            Ok(number) => unsigned_number(text@) == Some(number as nat),
            Err(error) => {
                &&& (unsigned_number(text@) matches Some(number) ==> number > u64::MAX)
                &&& error@ == u64_error(text@)
            },
        },
{
    text.parse::<u64>().map_err(|error| error.to_string())
}

/// `str::parse` for `u32`: an optional plus sign and decimal digits whose number fits, and nothing
/// else. The error's text is named, not described.
#[verifier::external_body]
fn outside_parse_u32(text: &str) -> (result: Result<u32, String>)
    ensures
        match result {
            Ok(number) => unsigned_number(text@) == Some(number as nat),
            Err(error) => {
                &&& (unsigned_number(text@) matches Some(number) ==> number > u32::MAX)
                &&& error@ == u32_error(text@)
            },
        },
{
    text.parse::<u32>().map_err(|error| error.to_string())
}

/// A value, or the message of the refusal, with its text as a sequence.
pub open spec fn plain_outcome<T>(result: Result<T, String>) -> Result<T, Seq<char>> {
    match result {
        Ok(value) => Ok(value),
        Err(message) => Err(message@),
    }
}

/// A text, or the message of the refusal, as a sequence.
pub open spec fn text_outcome(result: Result<String, String>) -> Result<Seq<char>, Seq<char>> {
    match result {
        Ok(value) => Ok(value@),
        Err(message) => Err(message@),
    }
}

/// One option with its value.
#[derive(Debug)]
pub struct CliOption {
    pub name: String,
    pub value: String,
}

impl View for CliOption {
    type V = (Seq<char>, Seq<char>);

    open spec fn view(&self) -> (Seq<char>, Seq<char>) {
        (self.name@, self.value@)
    }
}

/// The value of the option called `name`.
pub open spec fn value_of(
    options: Seq<(Seq<char>, Seq<char>)>,
    name: Seq<char>,
) -> Option<Seq<char>>
    decreases options.len(),
{
    if options.len() == 0 {
        None
    } else if options.last().0 == name {
        Some(options.last().1)
    } else {
        value_of(options.drop_last(), name)
    }
}

/// What the arguments from `at` on add to the options read so far.
pub open spec fn options_from(
    arguments: Seq<Seq<char>>,
    at: int,
    options: Seq<(Seq<char>, Seq<char>)>,
) -> Result<Seq<(Seq<char>, Seq<char>)>, Seq<char>>
    decreases arguments.len() - at,
{
    if at >= arguments.len() {
        Ok(options)
    } else {
        let key = arguments[at];
        if key == "--help"@ {
            Err(usage_text())
        } else if !text::occurs_at(key, "--"@, 0) {
            Err(
                "unexpected positional argument "@ + text::debug_form(key) + "\n"@ + usage_text(),
            )
        } else if at + 1 >= arguments.len() {
            Err("missing value for "@ + key + "\n"@ + usage_text())
        } else if value_of(options, key) is Some {
            Err("duplicate option "@ + key)
        } else {
            options_from(arguments, at + 2, options.push((key, arguments[at + 1])))
        }
    }
}

/// A required option.
pub open spec fn required_of(options: Seq<(Seq<char>, Seq<char>)>, name: Seq<char>) -> Result<
    Seq<char>,
    Seq<char>,
> {
    match value_of(options, name) {
        Some(value) => Ok(value),
        None => Err("missing required "@ + name + "\n"@ + usage_text()),
    }
}

/// A required option that is an absolute path.
pub open spec fn path_of(options: Seq<(Seq<char>, Seq<char>)>, name: Seq<char>) -> Result<
    Seq<char>,
    Seq<char>,
> {
    match required_of(options, name) {
        Err(message) => Err(message),
        Ok(value) => if paths::absolute(value) {
            Ok(value)
        } else {
            Err(name + " must be an absolute path"@)
        },
    }
}

/// A 64-bit number.
pub open spec fn u64_of(value: Seq<char>, name: Seq<char>) -> Result<u64, Seq<char>> {
    match unsigned_number(value) {
        Some(number) => if number <= u64::MAX {
            Ok(number as u64)
        } else {
            Err(name + " must be an unsigned integer: "@ + u64_error(value))
        },
        None => Err(name + " must be an unsigned integer: "@ + u64_error(value)),
    }
}

/// A 32-bit number.
pub open spec fn u32_of(value: Seq<char>, name: Seq<char>) -> Result<u32, Seq<char>> {
    match unsigned_number(value) {
        Some(number) => if number <= u32::MAX {
            Ok(number as u32)
        } else {
            Err(name + " must be an unsigned integer: "@ + u32_error(value))
        },
        None => Err(name + " must be an unsigned integer: "@ + u32_error(value)),
    }
}

/// A required option that is a 64-bit number.
pub open spec fn required_u64_of(options: Seq<(Seq<char>, Seq<char>)>, name: Seq<char>) -> Result<
    u64,
    Seq<char>,
> {
    match required_of(options, name) {
        Err(message) => Err(message),
        Ok(value) => u64_of(value, name),
    }
}

/// A required option that is a 32-bit number.
pub open spec fn required_u32_of(options: Seq<(Seq<char>, Seq<char>)>, name: Seq<char>) -> Result<
    u32,
    Seq<char>,
> {
    match required_of(options, name) {
        Err(message) => Err(message),
        Ok(value) => u32_of(value, name),
    }
}

/// A required option that is an identifier.
pub open spec fn producer_of(options: Seq<(Seq<char>, Seq<char>)>) -> Result<Uuid, Seq<char>> {
    match required_of(options, "--producer-id"@) {
        Err(message) => Err(message),
        Ok(value) => match ident::uuid_number(value) {
            Some(number) => Ok(Uuid { value: number as u128 }),
            None => Err("--producer-id must be a UUID: "@ + ident::uuid_parse_error(value)),
        },
    }
}

/// An option with a value of its own where it is not given.
pub open spec fn value_or(
    options: Seq<(Seq<char>, Seq<char>)>,
    name: Seq<char>,
    otherwise: Seq<char>,
) -> Seq<char> {
    match value_of(options, name) {
        Some(value) => value,
        None => otherwise,
    }
}

/// Whether the controller has an option of that name.
pub open spec fn is_known(name: Seq<char>) -> bool {
    ||| name == "--catalog"@
    ||| name == "--source-id"@
    ||| name == "--producer-id"@
    ||| name == "--active-root"@
    ||| name == "--archived-root"@
    ||| name == "--cache-root"@
    ||| name == "--receipt-root"@
    ||| name == "--hindsight-base-url"@
    ||| name == "--hindsight-bank"@
    ||| name == "--hindsight-timeout-seconds"@
    ||| name == "--hash-budget-bytes"@
    ||| name == "--max-candidate-bytes"@
    ||| name == "--max-deliveries"@
    ||| name == "--max-payload-bytes"@
    ||| name == "--lease-duration-ms"@
    ||| name == "--reconcile-passes"@
    ||| name == "--consumer-id"@
}

/// Ascending names with one more in its place.
pub open spec fn inserted(names: Seq<Seq<char>>, name: Seq<char>) -> Seq<Seq<char>>
    decreases names.len(),
{
    if names.len() == 0 || text::text_before(names.last(), name) {
        names.push(name)
    } else {
        inserted(names.drop_last(), name).push(names.last())
    }
}

/// The names of the options that the controller does not have, ascending.
pub open spec fn unknown_names(options: Seq<(Seq<char>, Seq<char>)>) -> Seq<Seq<char>>
    decreases options.len(),
{
    if options.len() == 0 {
        Seq::empty()
    } else if is_known(options.last().0) {
        unknown_names(options.drop_last())
    } else {
        inserted(unknown_names(options.drop_last()), options.last().0)
    }
}

/// What one run of the controller is to do.
#[derive(Debug)]
pub struct ControllerConfig {
    pub catalog_path: String,
    pub source_id: String,
    pub producer_id: Uuid,
    pub active_root: String,
    pub archived_root: String,
    pub cache_root: String,
    pub receipt_root: String,
    pub hindsight_base_url: String,
    pub hindsight_bank: String,
    pub hindsight_timeout_seconds: u64,
    pub hash_budget_bytes: u64,
    pub max_candidate_bytes: u64,
    pub max_deliveries: u32,
    pub max_payload_bytes: u64,
    pub lease_duration_ms: u64,
    pub reconcile_passes: u32,
    pub consumer_id: String,
}

/// What one run of the controller is to do, its texts as character sequences.
#[verifier::ext_equal]
pub struct ConfigView {
    pub catalog_path: Seq<char>,
    pub source_id: Seq<char>,
    pub producer_id: Uuid,
    pub active_root: Seq<char>,
    pub archived_root: Seq<char>,
    pub cache_root: Seq<char>,
    pub receipt_root: Seq<char>,
    pub hindsight_base_url: Seq<char>,
    pub hindsight_bank: Seq<char>,
    pub hindsight_timeout_seconds: u64,
    pub hash_budget_bytes: u64,
    pub max_candidate_bytes: u64,
    pub max_deliveries: u32,
    pub max_payload_bytes: u64,
    pub lease_duration_ms: u64,
    pub reconcile_passes: u32,
    pub consumer_id: Seq<char>,
}

impl View for ControllerConfig {
    type V = ConfigView;

    open spec fn view(&self) -> ConfigView {
        ConfigView {
            catalog_path: self.catalog_path@,
            source_id: self.source_id@,
            producer_id: self.producer_id,
            active_root: self.active_root@,
            archived_root: self.archived_root@,
            cache_root: self.cache_root@,
            receipt_root: self.receipt_root@,
            hindsight_base_url: self.hindsight_base_url@,
            hindsight_bank: self.hindsight_bank@,
            hindsight_timeout_seconds: self.hindsight_timeout_seconds,
            hash_budget_bytes: self.hash_budget_bytes,
            max_candidate_bytes: self.max_candidate_bytes,
            max_deliveries: self.max_deliveries,
            max_payload_bytes: self.max_payload_bytes,
            lease_duration_ms: self.lease_duration_ms,
            reconcile_passes: self.reconcile_passes,
            consumer_id: self.consumer_id@,
        }
    }
}

/// Why options that can all be read still make no run.
pub open spec fn config_fault(
    options: Seq<(Seq<char>, Seq<char>)>,
    c: ConfigView,
) -> Option<Seq<char>> {
    let unknown = unknown_names(options);
    if unknown.len() > 0 {
        Some("unknown option(s): "@ + text::join(unknown, ", "@) + "\n"@ + usage_text())
    } else if text::trim(c.source_id) != c.source_id || c.source_id.len() == 0 {
        Some("--source-id must be non-empty and trimmed"@)
    } else if text::trim(c.consumer_id) != c.consumer_id || c.consumer_id.len() == 0 {
        Some("--consumer-id must be non-empty and trimmed"@)
    } else if c.hindsight_timeout_seconds == 0 || c.max_deliveries == 0 || c.max_payload_bytes == 0
        || c.lease_duration_ms == 0 || c.reconcile_passes == 0 {
        Some("all controller limits must be greater than zero"@)
    } else if c.max_payload_bytes < c.max_candidate_bytes {
        Some("--max-payload-bytes must be at least --max-candidate-bytes"@)
    } else {
        None
    }
}

/// What the options say, each read in turn.
pub open spec fn config_read(
    options: Seq<(Seq<char>, Seq<char>)>,
) -> Result<ConfigView, Seq<char>> {
    let catalog_path = path_of(options, "--catalog"@);
    let source_id = required_of(options, "--source-id"@);
    let producer_id = producer_of(options);
    let active_root = path_of(options, "--active-root"@);
    let archived_root = path_of(options, "--archived-root"@);
    let cache_root = path_of(options, "--cache-root"@);
    let receipt_root = path_of(options, "--receipt-root"@);
    let hindsight_base_url = required_of(options, "--hindsight-base-url"@);
    let hindsight_bank = required_of(options, "--hindsight-bank"@);
    let hindsight_timeout_seconds = required_u64_of(options, "--hindsight-timeout-seconds"@);
    let hash_budget_bytes = required_u64_of(options, "--hash-budget-bytes"@);
    let max_candidate_bytes = required_u64_of(options, "--max-candidate-bytes"@);
    let max_deliveries = required_u32_of(options, "--max-deliveries"@);
    let max_payload_bytes = required_u64_of(options, "--max-payload-bytes"@);
    let lease_duration_ms = required_u64_of(options, "--lease-duration-ms"@);
    let reconcile_passes = u32_of(
        value_or(options, "--reconcile-passes"@, "2"@),
        "--reconcile-passes"@,
    );
    if catalog_path is Err {
        Err(catalog_path->Err_0)
    } else if source_id is Err {
        Err(source_id->Err_0)
    } else if producer_id is Err {
        Err(producer_id->Err_0)
    } else if active_root is Err {
        Err(active_root->Err_0)
    } else if archived_root is Err {
        Err(archived_root->Err_0)
    } else if cache_root is Err {
        Err(cache_root->Err_0)
    } else if receipt_root is Err {
        Err(receipt_root->Err_0)
    } else if hindsight_base_url is Err {
        Err(hindsight_base_url->Err_0)
    } else if hindsight_bank is Err {
        Err(hindsight_bank->Err_0)
    } else if hindsight_timeout_seconds is Err {
        Err(hindsight_timeout_seconds->Err_0)
    } else if hash_budget_bytes is Err {
        Err(hash_budget_bytes->Err_0)
    } else if max_candidate_bytes is Err {
        Err(max_candidate_bytes->Err_0)
    } else if max_deliveries is Err {
        Err(max_deliveries->Err_0)
    } else if max_payload_bytes is Err {
        Err(max_payload_bytes->Err_0)
    } else if lease_duration_ms is Err {
        Err(lease_duration_ms->Err_0)
    } else if reconcile_passes is Err {
        Err(reconcile_passes->Err_0)
    } else {
        Ok(
            ConfigView {
                catalog_path: catalog_path->Ok_0,
                source_id: source_id->Ok_0,
                producer_id: producer_id->Ok_0,
                active_root: active_root->Ok_0,
                archived_root: archived_root->Ok_0,
                cache_root: cache_root->Ok_0,
                receipt_root: receipt_root->Ok_0,
                hindsight_base_url: hindsight_base_url->Ok_0,
                hindsight_bank: hindsight_bank->Ok_0,
                hindsight_timeout_seconds: hindsight_timeout_seconds->Ok_0,
                hash_budget_bytes: hash_budget_bytes->Ok_0,
                max_candidate_bytes: max_candidate_bytes->Ok_0,
                max_deliveries: max_deliveries->Ok_0,
                max_payload_bytes: max_payload_bytes->Ok_0,
                lease_duration_ms: lease_duration_ms->Ok_0,
                reconcile_passes: reconcile_passes->Ok_0,
                consumer_id: value_or(options, "--consumer-id"@, default_consumer_id()),
            },
        )
    }
}

/// What the arguments say, or the message of the refusal.
pub open spec fn config_of(arguments: Seq<Seq<char>>) -> Result<ConfigView, Seq<char>> {
    match options_from(arguments, 0, Seq::empty()) {
        Err(message) => Err(message),
        Ok(options) => match config_read(options) {
            Err(message) => Err(message),
            Ok(config) => match config_fault(options, config) {
                Some(message) => Err(message),
                None => Ok(config),
            },
        },
    }
}

fn find_option(options: &Vec<CliOption>, name: &str) -> (result: Option<String>)
    ensures
        text::view_option(result) == value_of(text::views(options@), name@),
{
    let ghost all = text::views(options@);
    let mut i: usize = options.len();
    assert(all.take(all.len() as int) =~= all);
    while i > 0
        invariant
            i <= options@.len(),
            all == text::views(options@),
            value_of(all, name@) == value_of(all.take(i as int), name@),
        decreases i,
    {
        i -= 1;
        proof {
            assert(all.take(i + 1).drop_last() =~= all.take(i as int));
            assert(all.take(i + 1).last() == options@[i as int]@);
        }
        if same_text(options[i].name.as_str(), name) {
            return Some(options[i].value.clone());
        }
    }
    assert(all.take(0) =~= Seq::empty());
    None
}

fn read_options(arguments: &Vec<String>) -> (result: Result<Vec<CliOption>, String>)
    ensures
        (match result {
            Ok(options) => Ok(text::views(options@)),
            Err(message) => Err(message@),
        }) == options_from(text::views(arguments@), 0, Seq::empty()),
{
    let ghost all = text::views(arguments@);
    let mut options: Vec<CliOption> = Vec::new();
    let mut index: usize = 0;
    assert(text::views(options@) =~= Seq::empty());
    while index < arguments.len()
        invariant
            0 <= index,
            all == text::views(arguments@),
            options_from(all, 0, Seq::empty()) == options_from(
                all,
                index as int,
                text::views(options@),
            ),
        decreases arguments@.len() - index,
    {
        let key = arguments[index].as_str();
        assert(all[index as int] == key@);
        if same_text(key, "--help") {
            return Err(usage());
        }
        if !starts_with(key, "--") {
            let mut message = concat2("unexpected positional argument ", debug_text(key).as_str());
            message.append("\n");
            message.append(usage().as_str());
            return Err(message);
        }
        if index >= arguments.len() - 1 {
            let mut message = concat2("missing value for ", key);
            message.append("\n");
            message.append(usage().as_str());
            return Err(message);
        }
        if find_option(&options, key).is_some() {
            return Err(concat2("duplicate option ", key));
        }
        let option = CliOption { name: key.to_owned(), value: arguments[index + 1].clone() };
        proof {
            assert(all[index + 1] == option.value@);
            text::lemma_views_push(options@, option);
        }
        options.push(option);
        index = if index + 1 == arguments.len() - 1 {
            arguments.len()
        } else {
            index + 2
        };
    }
    Ok(options)
}

fn required(options: &Vec<CliOption>, name: &str) -> (result: Result<String, String>)
    ensures
        text_outcome(result) == required_of(text::views(options@), name@),
{
    match find_option(options, name) {
        Some(value) => Ok(value),
        None => {
            let mut message = concat2("missing required ", name);
            message.append("\n");
            message.append(usage().as_str());
            Err(message)
        },
    }
}

fn absolute_path(options: &Vec<CliOption>, name: &str) -> (result: Result<String, String>)
    ensures
        text_outcome(result) == path_of(text::views(options@), name@),
{
    let value = required(options, name)?;
    if !is_absolute(value.as_str()) {
        return Err(concat2(name, " must be an absolute path"));
    }
    Ok(value)
}

fn parse_u64(value: &str, name: &str) -> (result: Result<u64, String>)
    ensures
        plain_outcome(result) == u64_of(value@, name@),
{
    match outside_parse_u64(value) {
        Ok(number) => Ok(number),
        Err(error) => Err(concat3(name, " must be an unsigned integer: ", error.as_str())),
    }
}

fn parse_u32(value: &str, name: &str) -> (result: Result<u32, String>)
    ensures
        plain_outcome(result) == u32_of(value@, name@),
{
    match outside_parse_u32(value) {
        Ok(number) => Ok(number),
        Err(error) => Err(concat3(name, " must be an unsigned integer: ", error.as_str())),
    }
}

fn required_u64(options: &Vec<CliOption>, name: &str) -> (result: Result<u64, String>)
    ensures
        plain_outcome(result) == required_u64_of(text::views(options@), name@),
{
    let value = required(options, name)?;
    parse_u64(value.as_str(), name)
}

fn required_u32(options: &Vec<CliOption>, name: &str) -> (result: Result<u32, String>)
    ensures
        plain_outcome(result) == required_u32_of(text::views(options@), name@),
{
    let value = required(options, name)?;
    parse_u32(value.as_str(), name)
}

fn required_producer(options: &Vec<CliOption>) -> (result: Result<Uuid, String>)
    ensures
        plain_outcome(result) == producer_of(text::views(options@)),
{
    let value = required(options, "--producer-id")?;
    match Uuid::parse_str(value.as_str()) {
        Ok(id) => Ok(id),
        Err(error) => Err(concat2("--producer-id must be a UUID: ", error.as_str())),
    }
}

fn option_or(options: &Vec<CliOption>, name: &str, otherwise: &str) -> (result: String)
    ensures
        result@ == value_or(text::views(options@), name@, otherwise@),
{
    match find_option(options, name) {
        Some(value) => value,
        None => otherwise.to_owned(),
    }
}

fn known(name: &str) -> (result: bool)
    ensures
        result == is_known(name@),
{
    same_text(name, "--catalog")
        || same_text(name, "--source-id")
        || same_text(name, "--producer-id")
        || same_text(name, "--active-root")
        || same_text(name, "--archived-root")
        || same_text(name, "--cache-root")
        || same_text(name, "--receipt-root")
        || same_text(name, "--hindsight-base-url")
        || same_text(name, "--hindsight-bank")
        || same_text(name, "--hindsight-timeout-seconds")
        || same_text(name, "--hash-budget-bytes")
        || same_text(name, "--max-candidate-bytes")
        || same_text(name, "--max-deliveries")
        || same_text(name, "--max-payload-bytes")
        || same_text(name, "--lease-duration-ms")
        || same_text(name, "--reconcile-passes")
        || same_text(name, "--consumer-id")
}

fn insert_name(names: &mut Vec<String>, name: String)
    ensures
        text::views(final(names)@) == inserted(text::views(old(names)@), name@),
{
    let ghost before = text::views(names@);
    let mut at: usize = names.len();
    assert(before.take(at as int) =~= before);
    assert(before.skip(at as int) =~= Seq::empty());
    assert(inserted(before, name@) =~= inserted(before.take(at as int), name@) + before.skip(
        at as int,
    ));
    while at > 0 && !comes_before(names[at - 1].as_str(), name.as_str())
        invariant
            at <= names@.len(),
            before == text::views(names@),
            inserted(before, name@) == inserted(before.take(at as int), name@) + before.skip(
                at as int,
            ),
        decreases at,
    {
        proof {
            let taken = before.take(at as int);
            assert(taken.last() == names@[at - 1]@);
            assert(taken.drop_last() =~= before.take(at - 1));
            assert(seq![taken.last()] + before.skip(at as int) =~= before.skip(at - 1));
            assert(inserted(taken, name@) + before.skip(at as int) =~= inserted(
                before.take(at - 1),
                name@,
            ) + before.skip(at - 1));
        }
        at -= 1;
    }
    proof {
        let taken = before.take(at as int);
        if at > 0 {
            assert(taken.last() == names@[at - 1]@);
        }
        assert(inserted(taken, name@) == taken.push(name@));
    }
    names.insert(at, name);
    assert(text::views(names@) =~= before.take(at as int).push(name@) + before.skip(at as int));
}

fn list_unknown(options: &Vec<CliOption>) -> (result: Vec<String>)
    ensures
        text::views(result@) == unknown_names(text::views(options@)),
{
    let ghost all = text::views(options@);
    let mut names: Vec<String> = Vec::new();
    let mut i: usize = 0;
    assert(all.take(0) =~= Seq::empty());
    assert(text::views(names@) =~= Seq::empty());
    while i < options.len()
        invariant
            0 <= i <= options@.len(),
            all == text::views(options@),
            text::views(names@) == unknown_names(all.take(i as int)),
        decreases options@.len() - i,
    {
        proof {
            assert(all.take(i + 1).drop_last() =~= all.take(i as int));
            assert(all.take(i + 1).last() == options@[i as int]@);
        }
        if !known(options[i].name.as_str()) {
            insert_name(&mut names, options[i].name.clone());
        }
        i += 1;
    }
    assert(all.take(all.len() as int) =~= all);
    names
}

impl ControllerConfig {
    /// Reads the arguments.
    pub fn parse(arguments: &Vec<String>) -> (result: Result<ControllerConfig, String>)
        ensures
            (match result {
                Ok(config) => Ok(config@),
                Err(message) => Err(message@),
            }) == config_of(text::views(arguments@)),
    {
        let options = read_options(arguments)?;
        let config = ControllerConfig::read(&options)?;
        match config.fault(&options) {
            Some(message) => Err(message),
            None => Ok(config),
        }
    }

    fn read(options: &Vec<CliOption>) -> (result: Result<ControllerConfig, String>)
        ensures
            (match result {
                Ok(config) => Ok(config@),
                Err(message) => Err(message@),
            }) == config_read(text::views(options@)),
    {
        let catalog_path = absolute_path(options, "--catalog")?;
        let source_id = required(options, "--source-id")?;
        let producer_id = required_producer(options)?;
        let active_root = absolute_path(options, "--active-root")?;
        let archived_root = absolute_path(options, "--archived-root")?;
        let cache_root = absolute_path(options, "--cache-root")?;
        let receipt_root = absolute_path(options, "--receipt-root")?;
        let hindsight_base_url = required(options, "--hindsight-base-url")?;
        let hindsight_bank = required(options, "--hindsight-bank")?;
        let hindsight_timeout_seconds: u64 = required_u64(options, "--hindsight-timeout-seconds")?;
        let hash_budget_bytes: u64 = required_u64(options, "--hash-budget-bytes")?;
        let max_candidate_bytes: u64 = required_u64(options, "--max-candidate-bytes")?;
        let max_deliveries: u32 = required_u32(options, "--max-deliveries")?;
        let max_payload_bytes: u64 = required_u64(options, "--max-payload-bytes")?;
        let lease_duration_ms: u64 = required_u64(options, "--lease-duration-ms")?;
        let passes = option_or(options, "--reconcile-passes", "2");
        let reconcile_passes: u32 = parse_u32(passes.as_str(), "--reconcile-passes")?;
        let consumer_id = option_or(options, "--consumer-id", "hindsight-pilot");
        let config = ControllerConfig {
            catalog_path,
            source_id,
            producer_id,
            active_root,
            archived_root,
            cache_root,
            receipt_root,
            hindsight_base_url,
            hindsight_bank,
            hindsight_timeout_seconds,
            hash_budget_bytes,
            max_candidate_bytes,
            max_deliveries,
            max_payload_bytes,
            lease_duration_ms,
            reconcile_passes,
            consumer_id,
        };
        assert(Ok::<ConfigView, Seq<char>>(config@) =~= config_read(text::views(options@)));
        Ok(config)
    }

    fn fault(&self, options: &Vec<CliOption>) -> (result: Option<String>)
        ensures
            text::view_option(result) == config_fault(text::views(options@), self@),
    {
        let unknown = list_unknown(options);
        if unknown.len() > 0 {
            let mut message = concat2(
                "unknown option(s): ",
                join_text(&unknown, ", ").as_str(),
            );
            message.append("\n");
            message.append(usage().as_str());
            return Some(message);
        }
        if !is_trimmed(self.source_id.as_str()) || self.source_id.as_str().is_empty() {
            return Some("--source-id must be non-empty and trimmed".to_owned());
        }
        if !is_trimmed(self.consumer_id.as_str()) || self.consumer_id.as_str().is_empty() {
            return Some("--consumer-id must be non-empty and trimmed".to_owned());
        }
        if self.hindsight_timeout_seconds == 0 || self.max_deliveries == 0
            || self.max_payload_bytes == 0 || self.lease_duration_ms == 0
            || self.reconcile_passes == 0 {
            return Some("all controller limits must be greater than zero".to_owned());
        }
        if self.max_payload_bytes < self.max_candidate_bytes {
            return Some("--max-payload-bytes must be at least --max-candidate-bytes".to_owned());
        }
        None
    }
}

/// Milliseconds since the epoch as a stored time.
pub fn time_ms(elapsed_ms: u128) -> (result: Result<i64, String>)
    ensures
        plain_outcome(result) == (if elapsed_ms <= i64::MAX {
            Ok::<i64, Seq<char>>(elapsed_ms as i64)
        } else {
            Err("system time exceeds i64 milliseconds"@)
        }),
{
    if elapsed_ms <= 0x7fff_ffff_ffff_ffff {
        Ok(elapsed_ms as i64)
    } else {
        Err("system time exceeds i64 milliseconds".to_owned())
    }
}

/// Which subscription a run delivers.
#[derive(Debug)]
pub enum SubscriptionChoice {
    /// None has the consumer: a new one is owed.
    Create,
    Use(SubscriptionId),
    /// More than one has the consumer, so the run refuses.
    Ambiguous { message: String },
}

/// Which subscription a run delivers.
pub enum ChoiceView {
    Create,
    Use(SubscriptionId),
    Ambiguous { message: Seq<char> },
}

impl View for SubscriptionChoice {
    type V = ChoiceView;

    open spec fn view(&self) -> ChoiceView {
        match *self {
            SubscriptionChoice::Create => ChoiceView::Create,
            SubscriptionChoice::Use(id) => ChoiceView::Use(id),
            SubscriptionChoice::Ambiguous { message } => ChoiceView::Ambiguous {
                message: message@
            },
        }
    }
}

/// The subscriptions of a consumer.
pub open spec fn consumed_by(consumer_id: Seq<char>) -> spec_fn(SubscriptionStatusView) -> bool {
    |status: SubscriptionStatusView| status.consumer_id == consumer_id
}

/// Which of the subscriptions is the only one of a consumer.
pub open spec fn choice(
    subscriptions: Seq<SubscriptionStatusView>,
    consumer_id: Seq<char>,
) -> ChoiceView {
    let own = subscriptions.filter(consumed_by(consumer_id));
    if own.len() == 0 {
        ChoiceView::Create
    } else if own.len() == 1 {
        ChoiceView::Use(own[0].id)
    } else {
        ChoiceView::Ambiguous {
            message: "refusing ambiguous consumer_id "@ + text::debug_form(consumer_id) + ": "@
                + text::decimal(own.len())
                + " subscription epochs exist; select or retire one explicitly"@,
        }
    }
}

/// Chooses the subscription that a run delivers.
pub fn choose_subscription(subscriptions: &Vec<SubscriptionStatus>, consumer_id: &str) -> (result:
    SubscriptionChoice)
    ensures
        result@ == choice(text::views(subscriptions@), consumer_id@),
{
    let ghost all = text::views(subscriptions@);
    let ghost own = consumed_by(consumer_id@);
    let mut count: u64 = 0;
    let mut found: Option<SubscriptionId> = None;
    let mut i: usize = 0;
    assert(all.take(0) =~= Seq::empty());
    proof {
        reveal(Seq::filter);
    }
    while i < subscriptions.len()
        invariant
            0 <= i <= subscriptions@.len(),
            all == text::views(subscriptions@),
            own == consumed_by(consumer_id@),
            count <= i,
            count == all.take(i as int).filter(own).len(),
            match found {
                Some(id) => count > 0 && id == all.take(i as int).filter(own)[0].id,
                None => count == 0,
            },
        decreases subscriptions@.len() - i,
    {
        proof {
            let taken = all.take(i + 1);
            assert(taken.drop_last() =~= all.take(i as int));
            assert(taken.last() == subscriptions@[i as int]@);
            reveal(Seq::filter);
        }
        if same_text(subscriptions[i].consumer_id.as_str(), consumer_id) {
            count += 1;
            if found.is_none() {
                found = Some(subscriptions[i].id);
            }
        }
        i += 1;
    }
    assert(all.take(all.len() as int) =~= all);
    match found {
        None => SubscriptionChoice::Create,
        Some(id) => if count == 1 {
            SubscriptionChoice::Use(id)
        } else {
            let mut message = concat2(
                "refusing ambiguous consumer_id ",
                debug_text(consumer_id).as_str(),
            );
            message.append(": ");
            message.append(decimal_text(count).as_str());
            message.append(" subscription epochs exist; select or retire one explicitly");
            SubscriptionChoice::Ambiguous { message }
        },
    }
}

/// What several scans did together.
#[derive(Clone, Copy, Debug, Eq, PartialEq, Structural)]
pub struct ReconcileTotals {
    pub files_enumerated: u64,
    pub awaiting_stability: u64,
    pub already_stable: u64,
    pub deferred_by_hash_budget: u64,
    pub deferred_by_size_limit: u64,
    pub changed_during_scan: u64,
    pub bytes_hashed: u64,
    pub events: u64,
}

/// What several scans did together, without a bound.
pub struct TotalsView {
    pub files_enumerated: nat,
    pub awaiting_stability: nat,
    pub already_stable: nat,
    pub deferred_by_hash_budget: nat,
    pub deferred_by_size_limit: nat,
    pub changed_during_scan: nat,
    pub bytes_hashed: nat,
    pub events: nat,
}

/// The sums over the reports.
pub open spec fn totals(reports: Seq<ReportView>) -> TotalsView
    decreases reports.len(),
{
    if reports.len() == 0 {
        TotalsView {
            files_enumerated: 0,
            awaiting_stability: 0,
            already_stable: 0,
            deferred_by_hash_budget: 0,
            deferred_by_size_limit: 0,
            changed_during_scan: 0,
            bytes_hashed: 0,
            events: 0,
        }
    } else {
        let before = totals(reports.drop_last());
        let report = reports.last();
        TotalsView {
            files_enumerated: before.files_enumerated + report.files_enumerated as nat,
            awaiting_stability: before.awaiting_stability + report.awaiting_stability as nat,
            already_stable: before.already_stable + report.already_stable as nat,
            deferred_by_hash_budget: before.deferred_by_hash_budget + report.deferred_by_hash_budget as nat,
            deferred_by_size_limit: before.deferred_by_size_limit + report.deferred_by_size_limit as nat,
            changed_during_scan: before.changed_during_scan + report.changed_during_scan as nat,
            bytes_hashed: before.bytes_hashed + report.bytes_hashed as nat,
            events: before.events + report.events.len(),
        }
    }
}

impl TotalsView {
    /// Every sum fits in 64 bits.
    pub open spec fn fits(self) -> bool {
        &&& self.files_enumerated <= u64::MAX
        &&& self.awaiting_stability <= u64::MAX
        &&& self.already_stable <= u64::MAX
        &&& self.deferred_by_hash_budget <= u64::MAX
        &&& self.deferred_by_size_limit <= u64::MAX
        &&& self.changed_during_scan <= u64::MAX
        &&& self.bytes_hashed <= u64::MAX
        &&& self.events <= u64::MAX
    }
}

impl View for ReconcileTotals {
    type V = TotalsView;

    open spec fn view(&self) -> TotalsView {
        TotalsView {
            files_enumerated: self.files_enumerated as nat,
            awaiting_stability: self.awaiting_stability as nat,
            already_stable: self.already_stable as nat,
            deferred_by_hash_budget: self.deferred_by_hash_budget as nat,
            deferred_by_size_limit: self.deferred_by_size_limit as nat,
            changed_during_scan: self.changed_during_scan as nat,
            bytes_hashed: self.bytes_hashed as nat,
            events: self.events as nat,
        }
    }
}

proof fn lemma_totals_grow(reports: Seq<ReportView>, count: int)
    requires
        0 <= count <= reports.len(),
        totals(reports).fits(),
    ensures
        totals(reports.take(count)).fits(),
    decreases reports.len(),
{
    if count == reports.len() {
        assert(reports.take(count) =~= reports);
    } else {
        assert(reports.drop_last().take(count) =~= reports.take(count));
        lemma_totals_grow(reports.drop_last(), count);
    }
}

/// Adds up what several scans did. `None` where a sum does not fit in 64 bits.
pub fn reconcile_totals(reports: &Vec<ReconcileReport>) -> (result: Option<ReconcileTotals>)
    ensures
        match result {
            Some(sums) => sums@ == totals(text::views(reports@)),
            None => !totals(text::views(reports@)).fits(),
        },
{
    let ghost all = text::views(reports@);
    let mut sums = ReconcileTotals {
        files_enumerated: 0,
        awaiting_stability: 0,
        already_stable: 0,
        deferred_by_hash_budget: 0,
        deferred_by_size_limit: 0,
        changed_during_scan: 0,
        bytes_hashed: 0,
        events: 0,
    };
    let mut i: usize = 0;
    assert(all.take(0) =~= Seq::empty());
    while i < reports.len()
        invariant
            0 <= i <= reports@.len(),
            all == text::views(reports@),
            sums@ == totals(all.take(i as int)),
        decreases reports@.len() - i,
    {
        let report = &reports[i];
        proof {
            let taken = all.take(i + 1);
            assert(taken.drop_last() =~= all.take(i as int));
            assert(taken.last() == report@);
            assert(report@.events.len() == report.events@.len());
            if totals(all).fits() {
                lemma_totals_grow(all, i + 1);
            }
        }
        sums = ReconcileTotals {
            files_enumerated: sums.files_enumerated.checked_add(report.files_enumerated)?,
            awaiting_stability: sums.awaiting_stability.checked_add(report.awaiting_stability)?,
            already_stable: sums.already_stable.checked_add(report.already_stable)?,
            deferred_by_hash_budget: sums.deferred_by_hash_budget.checked_add(
                report.deferred_by_hash_budget,
            )?,
            deferred_by_size_limit: sums.deferred_by_size_limit.checked_add(
                report.deferred_by_size_limit,
            )?,
            changed_during_scan: sums.changed_during_scan.checked_add(report.changed_during_scan)?,
            bytes_hashed: sums.bytes_hashed.checked_add(report.bytes_hashed)?,
            events: sums.events.checked_add(report.events.len() as u64)?,
        };
        i += 1;
    }
    assert(all.take(all.len() as int) =~= all);
    Some(sums)
}

/// The sums as JSON.
pub open spec fn totals_json(t: TotalsView) -> JsonView {
    JsonView::Object(
        Map::<Seq<char>, JsonView>::empty()
            .insert("files_enumerated"@, JsonView::Unsigned(t.files_enumerated as u64))
            .insert("awaiting_stability"@, JsonView::Unsigned(t.awaiting_stability as u64))
            .insert("already_stable"@, JsonView::Unsigned(t.already_stable as u64))
            .insert(
                "deferred_by_hash_budget"@,
                JsonView::Unsigned(t.deferred_by_hash_budget as u64),
            )
            .insert("deferred_by_size_limit"@, JsonView::Unsigned(t.deferred_by_size_limit as u64))
            .insert("changed_during_scan"@, JsonView::Unsigned(t.changed_during_scan as u64))
            .insert("bytes_hashed"@, JsonView::Unsigned(t.bytes_hashed as u64))
            .insert("events"@, JsonView::Unsigned(t.events as u64))
    )
}

fn make_totals(t: &ReconcileTotals) -> (result: Json)
    ensures
        result@ == totals_json(t@),
{
    let object = JsonObject::new()
        .with_number("files_enumerated", t.files_enumerated)
        .with_number("awaiting_stability", t.awaiting_stability)
        .with_number("already_stable", t.already_stable)
        .with_number("deferred_by_hash_budget", t.deferred_by_hash_budget)
        .with_number("deferred_by_size_limit", t.deferred_by_size_limit)
        .with_number("changed_during_scan", t.changed_during_scan)
        .with_number("bytes_hashed", t.bytes_hashed)
        .with_number("events", t.events);
    object.finish()
}

/// How an outcome is called.
pub open spec fn outcome_name(outcome: DeliveryOutcome) -> Seq<char> {
    match outcome {
        DeliveryOutcome::Acknowledged => "Acknowledged"@,
        DeliveryOutcome::Superseded => "Superseded"@,
        DeliveryOutcome::IgnoredByPolicy => "IgnoredByPolicy"@,
        DeliveryOutcome::DeadLettered => "DeadLettered"@,
    }
}

/// What became of a delivery, as JSON.
pub open spec fn outcome_json(outcome: OutcomeView) -> JsonView {
    let empty = Map::<Seq<char>, JsonView>::empty();
    JsonView::Object(
        match outcome {
            OutcomeView::Settled(outcome) => empty.insert(
                "state"@,
                JsonView::Text("settled"@),
            ).insert("outcome"@, JsonView::Text(outcome_name(outcome))),
            OutcomeView::Retried { reason } => empty.insert(
                "state"@,
                JsonView::Text("retried"@),
            ).insert("reason"@, JsonView::Text(reason)),
            OutcomeView::DeferredByByteBudget => empty.insert(
                "state"@,
                JsonView::Text("deferred_by_byte_budget"@),
            ),
        },
    )
}

/// A delivery that a run took up, as JSON.
pub open spec fn attempt_json(attempt: AttemptView) -> JsonView {
    JsonView::Object(
        Map::<Seq<char>, JsonView>::empty().insert(
            "event_id"@,
            JsonView::Text(ident::uuid_text(attempt.event_id.id)),
        ).insert("record_id"@, JsonView::Text(ident::uuid_text(attempt.record_id.id))).insert(
            "record_version"@,
            JsonView::Unsigned(attempt.record_version),
        ).insert("outcome"@, outcome_json(attempt.outcome)),
    )
}

/// A delivery that a run took up, as JSON.
pub fn delivery_attempt_json(attempt: &ControlledDeliveryAttempt) -> (result: Json)
    ensures
        result@ == attempt_json(attempt@),
{
    let outcome = match &attempt.outcome {
        ControlledDeliveryOutcome::Settled(outcome) => {
            let name = match outcome {
                DeliveryOutcome::Acknowledged => "Acknowledged",
                DeliveryOutcome::Superseded => "Superseded",
                DeliveryOutcome::IgnoredByPolicy => "IgnoredByPolicy",
                DeliveryOutcome::DeadLettered => "DeadLettered",
            };
            JsonObject::new().with_text("state", "settled").with_text("outcome", name)
        },
        ControlledDeliveryOutcome::Retried { reason } => JsonObject::new().with_text(
            "state",
            "retried",
        ).with_text("reason", reason.as_str()),
        ControlledDeliveryOutcome::DeferredByByteBudget => JsonObject::new().with_text(
            "state",
            "deferred_by_byte_budget",
        ),
    };
    let event_id = attempt.event_id.as_uuid().to_text();
    let record_id = attempt.record_id.as_uuid().to_text();
    JsonObject::new().with_text("event_id", event_id.as_str()).with_text(
        "record_id",
        record_id.as_str(),
    ).with_number("record_version", attempt.record_version).with(
        "outcome",
        outcome.finish(),
    ).finish()
}

/// Several deliveries as JSON, in order.
pub open spec fn attempts_json(attempts: Seq<AttemptView>) -> Seq<JsonView> {
    Seq::new(attempts.len(), |i: int| attempt_json(attempts[i]))
}

fn make_attempts(attempts: &Vec<ControlledDeliveryAttempt>) -> (result: Json)
    ensures
        result@ == JsonView::Array(attempts_json(text::views(attempts@))),
{
    let ghost all = text::views(attempts@);
    let mut items: Vec<Json> = Vec::new();
    let mut i: usize = 0;
    assert(crate::json::items_view(items@) =~= attempts_json(all.take(0)));
    while i < attempts.len()
        invariant
            0 <= i <= attempts@.len(),
            all == text::views(attempts@),
            crate::json::items_view(items@) == attempts_json(all.take(i as int)),
        decreases attempts@.len() - i,
    {
        let item = delivery_attempt_json(&attempts[i]);
        proof {
            crate::json::lemma_items_push(items@, item);
            assert(
                attempts_json(all.take(i + 1)) =~= attempts_json(all.take(i as int)).push(item@)
            );
        }
        items.push(item);
        i += 1;
    }
    assert(all.take(all.len() as int) =~= all);
    Json::Array(items)
}

/// What a run prints: what it was told, and what came of it.
pub open spec fn report_json(
    config: ConfigView,
    subscription_id: SubscriptionId,
    sums: TotalsView,
    attempts: Seq<AttemptView>,
    payload_bytes_admitted: u64,
    status: StatusView,
) -> JsonView {
    let empty = Map::<Seq<char>, JsonView>::empty();
    let hindsight = empty.insert("bank_id"@, JsonView::Text(config.hindsight_bank));
    let delivery = empty.insert("attempts"@, JsonView::Unsigned(attempts.len() as u64)).insert(
        "payload_bytes_admitted"@,
        JsonView::Unsigned(payload_bytes_admitted),
    ).insert("outcomes"@, JsonView::Array(attempts_json(attempts)));
    let catalog = empty.insert(
        "latest_event_sequence"@,
        JsonView::Unsigned(status.latest_event_sequence),
    ).insert("active_records"@, JsonView::Unsigned(status.active_records as u64)).insert(
        "tombstoned_records"@,
        JsonView::Unsigned(status.tombstoned_records as u64),
    ).insert("revisions"@, JsonView::Unsigned(status.revisions as u64));
    JsonView::Object(
        empty.insert("format_version"@, JsonView::Unsigned(1)).insert(
            "source_id"@,
            JsonView::Text(config.source_id),
        ).insert("consumer_id"@, JsonView::Text(config.consumer_id)).insert(
            "subscription_id"@,
            JsonView::Text(ident::uuid_text(subscription_id.id)),
        ).insert("hindsight"@, JsonView::Object(hindsight)).insert(
            "reconcile_passes"@,
            JsonView::Unsigned(config.reconcile_passes as u64),
        ).insert("reconcile"@, totals_json(sums)).insert(
            "delivery"@,
            JsonView::Object(delivery),
        ).insert("catalog"@, JsonView::Object(catalog)),
    )
}

/// What a run prints.
pub fn run_report(
    config: &ControllerConfig,
    subscription_id: SubscriptionId,
    sums: &ReconcileTotals,
    delivery: &ControlledRunReport,
    status: &CatalogStatus,
) -> (result: Json)
    ensures
        result@ == report_json(
            config@,
            subscription_id,
            sums@,
            text::views(delivery.attempts@),
            delivery.payload_bytes_admitted,
            status@,
        ),
{
    let hindsight = JsonObject::new().with_text("bank_id", config.hindsight_bank.as_str());
    let deliveries = JsonObject::new().with_number("attempts", delivery.attempts.len() as u64).with_number(
        "payload_bytes_admitted",
        delivery.payload_bytes_admitted,
    ).with("outcomes", make_attempts(&delivery.attempts));
    let catalog = JsonObject::new().with_number(
        "latest_event_sequence",
        status.latest_event_sequence,
    ).with_number("active_records", status.active_records).with_number(
        "tombstoned_records",
        status.tombstoned_records,
    ).with_number("revisions", status.revisions);
    let id = subscription_id.as_uuid().to_text();
    JsonObject::new().with_number("format_version", 1).with_text(
        "source_id",
        config.source_id.as_str(),
    ).with_text("consumer_id", config.consumer_id.as_str()).with_text(
        "subscription_id",
        id.as_str(),
    ).with("hindsight", hindsight.finish()).with_number(
        "reconcile_passes",
        config.reconcile_passes as u64,
    ).with("reconcile", make_totals(sums)).with("delivery", deliveries.finish()).with(
        "catalog",
        catalog.finish(),
    ).finish()
}

/// A run uses only a subscription of its own consumer.
pub proof fn law_choice_is_of_the_consumer(
    subscriptions: Seq<SubscriptionStatusView>,
    consumer_id: Seq<char>,
    id: SubscriptionId,
)
    requires
        choice(subscriptions, consumer_id) == ChoiceView::Use(id),
    ensures
        exists|i: int|
            0 <= i < subscriptions.len() && (#[trigger] subscriptions[i]).id == id
                && subscriptions[i].consumer_id == consumer_id,
{
    let own = subscriptions.filter(consumed_by(consumer_id));
    subscriptions.lemma_filter_pred(consumed_by(consumer_id), 0);
    assert(own.contains(own[0]));
    subscriptions.lemma_filter_contains_rev(consumed_by(consumer_id), own[0]);
    assert(subscriptions.contains(own[0]));
    let i = choose|i: int| 0 <= i < subscriptions.len() && subscriptions[i] == own[0];
    assert(subscriptions[i].id == id);
}

/// A run that the arguments allow has every limit above zero and room for any file that it reads.
pub proof fn law_limits_of_a_run(arguments: Seq<Seq<char>>)
    requires
        config_of(arguments) is Ok,
    ensures
        config_of(arguments)->Ok_0.max_deliveries > 0,
        config_of(arguments)->Ok_0.max_payload_bytes > 0,
        config_of(arguments)->Ok_0.lease_duration_ms > 0,
        config_of(arguments)->Ok_0.reconcile_passes > 0,
        config_of(arguments)->Ok_0.hindsight_timeout_seconds > 0,
        config_of(arguments)->Ok_0.max_payload_bytes >= config_of(
            arguments,
        )->Ok_0.max_candidate_bytes,
        paths::absolute(config_of(arguments)->Ok_0.catalog_path),
{
}

} // verus!
