//! The vocabulary of the archive: identities, locations, revisions, states and events.
use crate::hash;
use crate::hash::{
    outside_hash, outside_hasher_finalize, outside_hasher_new, outside_hasher_update,
};
use crate::ident::Uuid;
use crate::text;
use crate::text::{chars_of, concat2, contains_char, hex_encode, label_ok, same_text};
use vstd::prelude::*;

verus! {

/// A random, stable archive identity for one authorized record producer.
#[derive(Clone, Copy, Debug, Eq, Hash, PartialEq, Structural)]
pub struct ProducerId {
    pub id: Uuid,
}

/// The identity of one cataloged record.
#[derive(Clone, Copy, Debug, Eq, Hash, PartialEq, Structural)]
pub struct RecordId {
    pub id: Uuid,
}

/// The identity of one revision of a record.
#[derive(Clone, Copy, Debug, Eq, Hash, PartialEq, Structural)]
pub struct RevisionId {
    pub id: Uuid,
}

/// The identity of one archive event.
#[derive(Clone, Copy, Debug, Eq, Hash, PartialEq, Structural)]
pub struct EventId {
    pub id: Uuid,
}

/// Whether every identity has the form of a random one.
pub open spec fn all_drawn(ids: Seq<EventId>) -> bool {
    forall|i: int| 0 <= i < ids.len() ==> crate::ident::is_random_form((#[trigger] ids[i]).id.value)
}

impl ProducerId {
    /// A fresh random identity.
    pub fn new() -> (result: ProducerId)
        ensures
            crate::ident::is_random_form(result.id.value),
    {
        ProducerId { id: Uuid::new_v4() }
    }

    pub fn from_uuid(value: Uuid) -> (result: ProducerId)
        ensures
            result.id == value,
    {
        ProducerId { id: value }
    }

    pub fn as_uuid(self) -> (result: Uuid)
        ensures
            result == self.id,
    {
        self.id
    }

    /// The hyphenated text of the identity.
    pub fn to_text(self) -> (result: String)
        ensures
            result@ == crate::ident::uuid_text(self.id),
    {
        self.id.to_text()
    }
}

impl Default for ProducerId {
    fn default() -> (result: ProducerId)
        ensures
            crate::ident::is_random_form(result.id.value),
    {
        ProducerId::new()
    }
}

impl RecordId {
    /// A fresh random identity.
    pub fn new() -> (result: RecordId)
        ensures
            crate::ident::is_random_form(result.id.value),
    {
        RecordId { id: Uuid::new_v4() }
    }

    pub fn from_uuid(value: Uuid) -> (result: RecordId)
        ensures
            result.id == value,
    {
        RecordId { id: value }
    }

    pub fn as_uuid(self) -> (result: Uuid)
        ensures
            result == self.id,
    {
        self.id
    }
}

impl RevisionId {
    /// A fresh random identity.
    pub fn new() -> (result: RevisionId)
        ensures
            crate::ident::is_random_form(result.id.value),
    {
        RevisionId { id: Uuid::new_v4() }
    }

    pub fn from_uuid(value: Uuid) -> (result: RevisionId)
        ensures
            result.id == value,
    {
        RevisionId { id: value }
    }

    pub fn as_uuid(self) -> (result: Uuid)
        ensures
            result == self.id,
    {
        self.id
    }
}

impl EventId {
    /// A fresh random identity.
    pub fn new() -> (result: EventId)
        ensures
            crate::ident::is_random_form(result.id.value),
    {
        EventId { id: Uuid::new_v4() }
    }

    pub fn from_uuid(value: Uuid) -> (result: EventId)
        ensures
            result.id == value,
    {
        EventId { id: value }
    }

    pub fn as_uuid(self) -> (result: Uuid)
        ensures
            result == self.id,
    {
        self.id
    }
}

/// Why a value of the archive's vocabulary was refused.
#[derive(Debug, Eq, PartialEq)]
pub enum DomainError {
    InvalidIdentifier { field: &'static str },
    InvalidLocation(String),
    RecordTooLarge,
    CorruptState(String),
}

/// A `DomainError` with its texts as character sequences.
pub enum DomainErrorView {
    InvalidIdentifier { field: Seq<char> },
    InvalidLocation(Seq<char>),
    RecordTooLarge,
    CorruptState(Seq<char>),
}

impl View for DomainError {
    type V = DomainErrorView;

    open spec fn view(&self) -> DomainErrorView {
        match *self {
            DomainError::InvalidIdentifier { field } => DomainErrorView::InvalidIdentifier {
                field: field@,
            },
            DomainError::InvalidLocation(reason) => DomainErrorView::InvalidLocation(reason@),
            DomainError::RecordTooLarge => DomainErrorView::RecordTooLarge,
            DomainError::CorruptState(value) => DomainErrorView::CorruptState(value@),
        }
    }
}

/// The message of a domain error.
pub open spec fn domain_message(error: DomainErrorView) -> Seq<char> {
    match error {
        DomainErrorView::InvalidIdentifier { field } => field
            + " must be non-empty, trimmed, and free of NUL bytes"@,
        DomainErrorView::InvalidLocation(reason) => "invalid source-relative path: "@ + reason,
        DomainErrorView::RecordTooLarge => "record byte length exceeds u64"@,
        DomainErrorView::CorruptState(value) => "catalog contains an unknown state value: "@ + value,
    }
}

impl DomainError {
    /// The message for an operator.
    pub fn message(&self) -> (result: String)
        ensures
            result@ == domain_message(self@),
    {
        match self {
            DomainError::InvalidIdentifier { field } => concat2(
                field,
                " must be non-empty, trimmed, and free of NUL bytes",
            ),
            DomainError::InvalidLocation(reason) => concat2(
                "invalid source-relative path: ",
                reason.as_str(),
            ),
            DomainError::RecordTooLarge => "record byte length exceeds u64".to_owned(),
            DomainError::CorruptState(value) => concat2(
                "catalog contains an unknown state value: ",
                value.as_str(),
            ),
        }
    }
}

/// `value` where it is non-empty, trimmed and free of NUL characters.
pub fn required_identifier(field: &'static str, value: &str) -> (result: Result<
    String,
    DomainError,
>)
    ensures
        match result {
            Ok(text) => text::is_label(value@) && text@ == value@,
            Err(error) => !text::is_label(value@) && error@
                == (DomainErrorView::InvalidIdentifier { field: field@ }),
        },
{
    if label_ok(value) {
        Ok(value.to_owned())
    } else {
        Err(DomainError::InvalidIdentifier { field })
    }
}

/// The path-independent five-part identity of one raw agent record.
#[derive(Debug, Eq, Hash, PartialEq)]
pub struct RecordIdentity {
    producer_id: ProducerId,
    agent_namespace: String,
    session_id: String,
    record_kind: String,
    record_key: String,
}

/// The five parts of a record identity.
#[verifier::ext_equal]
pub struct IdentityView {
    pub producer_id: ProducerId,
    pub agent_namespace: Seq<char>,
    pub session_id: Seq<char>,
    pub record_kind: Seq<char>,
    pub record_key: Seq<char>,
}

impl IdentityView {
    /// Every text part is a label.
    pub open spec fn valid(self) -> bool {
        &&& text::is_label(self.agent_namespace)
        &&& text::is_label(self.session_id)
        &&& text::is_label(self.record_kind)
        &&& text::is_label(self.record_key)
    }

    /// The first text part that is no label.
    pub open spec fn first_invalid(self) -> Seq<char> {
        if !text::is_label(self.agent_namespace) {
            "agent_namespace"@
        } else if !text::is_label(self.session_id) {
            "session_id"@
        } else if !text::is_label(self.record_kind) {
            "record_kind"@
        } else {
            "record_key"@
        }
    }
}

impl View for RecordIdentity {
    type V = IdentityView;

    closed spec fn view(&self) -> IdentityView {
        IdentityView {
            producer_id: self.producer_id,
            agent_namespace: self.agent_namespace@,
            session_id: self.session_id@,
            record_kind: self.record_kind@,
            record_key: self.record_key@,
        }
    }
}

impl Clone for RecordIdentity {
    fn clone(&self) -> (result: RecordIdentity)
        ensures
            result@ == self@,
    {
        proof {
            use_type_invariant(self);
        }
        RecordIdentity {
            producer_id: self.producer_id,
            agent_namespace: self.agent_namespace.clone(),
            session_id: self.session_id.clone(),
            record_kind: self.record_kind.clone(),
            record_key: self.record_key.clone(),
        }
    }
}

impl RecordIdentity {
    /// The parts of a constructed identity are labels.
    #[verifier::type_invariant]
    pub open spec fn inv(self) -> bool {
        self@.valid()
    }

    /// The identity of these five parts, where each text part is a label.
    pub fn new(
        producer_id: ProducerId,
        agent_namespace: &str,
        session_id: &str,
        record_kind: &str,
        record_key: &str,
    ) -> (result: Result<RecordIdentity, DomainError>)
        ensures
            ({
                let parts = IdentityView {
                    producer_id,
                    agent_namespace: agent_namespace@,
                    session_id: session_id@,
                    record_kind: record_kind@,
                    record_key: record_key@,
                };
                match result {
                    Ok(identity) => parts.valid() && identity@ == parts,
                    Err(error) => !parts.valid() && error@ == (DomainErrorView::InvalidIdentifier {
                        field: parts.first_invalid(),
                    }),
                }
            }),
    {
        let agent_namespace = required_identifier("agent_namespace", agent_namespace)?;
        let session_id = required_identifier("session_id", session_id)?;
        let record_kind = required_identifier("record_kind", record_kind)?;
        let record_key = required_identifier("record_key", record_key)?;
        Ok(RecordIdentity { producer_id, agent_namespace, session_id, record_kind, record_key })
    }

    pub fn producer_id(&self) -> (result: ProducerId)
        ensures
            result == self@.producer_id,
    {
        self.producer_id
    }

    pub fn agent_namespace(&self) -> (result: &str)
        ensures
            result@ == self@.agent_namespace,
    {
        self.agent_namespace.as_str()
    }

    pub fn session_id(&self) -> (result: &str)
        ensures
            result@ == self@.session_id,
    {
        self.session_id.as_str()
    }

    pub fn record_kind(&self) -> (result: &str)
        ensures
            result@ == self@.record_kind,
    {
        self.record_kind.as_str()
    }

    pub fn record_key(&self) -> (result: &str)
        ensures
            result@ == self@.record_key,
    {
        self.record_key.as_str()
    }

    /// Whether two identities agree in all five parts.
    pub fn same(&self, other: &RecordIdentity) -> (result: bool)
        ensures
            result == (self@ == other@),
    {
        self.producer_id == other.producer_id && same_text(
            self.agent_namespace.as_str(),
            other.agent_namespace.as_str(),
        ) && same_text(self.session_id.as_str(), other.session_id.as_str()) && same_text(
            self.record_kind.as_str(),
            other.record_kind.as_str(),
        ) && same_text(self.record_key.as_str(), other.record_key.as_str())
    }
}

/// Whether `c` separates path components.
pub open spec fn is_separator(c: char) -> bool {
    c == '/' || c == '\\'
}

/// The parts of `path` between separators.
pub open spec fn path_components(path: Seq<char>) -> Seq<Seq<char>>
    decreases path.len(),
{
    if path.len() == 0 {
        seq![Seq::empty()]
    } else {
        let before = path_components(path.drop_last());
        if is_separator(path.last()) {
            before.push(Seq::empty())
        } else {
            before.drop_last().push(before.last().push(path.last()))
        }
    }
}

/// A component that names something below its directory.
pub open spec fn is_plain_component(component: Seq<char>) -> bool {
    &&& component.len() > 0
    &&& component != seq!['.']
    &&& component != seq!['.', '.']
}

/// A non-empty path that starts at no root and holds no NUL.
pub open spec fn is_relative(path: Seq<char>) -> bool {
    &&& path.len() > 0
    &&& !is_separator(path[0])
    &&& !path.contains('\0')
}

/// Every component of the path is plain.
pub open spec fn is_confined(path: Seq<char>) -> bool {
    forall|i: int|
        0 <= i < path_components(path).len() ==> is_plain_component(#[trigger] path_components(path)[i])
}

/// The two parts of a logical location.
#[verifier::ext_equal]
pub struct LocationView {
    pub root_role: Seq<char>,
    pub source_relative_path: Seq<char>,
}

/// A root role is a label of one component.
pub open spec fn is_role(role: Seq<char>) -> bool {
    &&& text::is_label(role)
    &&& !role.contains('/')
    &&& !role.contains('\\')
}

impl LocationView {
    pub open spec fn valid(self) -> bool {
        &&& is_role(self.root_role)
        &&& is_relative(self.source_relative_path)
        &&& is_confined(self.source_relative_path)
    }

    /// Why an invalid location is refused.
    pub open spec fn refusal(self) -> DomainErrorView {
        if !text::is_label(self.root_role) {
            DomainErrorView::InvalidIdentifier { field: "root_role"@ }
        } else if !is_role(self.root_role) {
            DomainErrorView::InvalidLocation("root_role must be one normalized component"@)
        } else {
            path_refusal(self.source_relative_path)
        }
    }
}

/// Why a path that is not relative or not confined is refused.
pub open spec fn path_refusal(path: Seq<char>) -> DomainErrorView {
    if !is_relative(path) {
        DomainErrorView::InvalidLocation("path must be a non-empty relative path"@)
    } else {
        DomainErrorView::InvalidLocation("path may not contain empty, dot, or parent components"@)
    }
}

/// A provider-normalized current location. It is deliberately not record identity.
#[derive(Debug, Eq, PartialEq)]
pub struct LogicalLocation {
    root_role: String,
    source_relative_path: String,
}

impl View for LogicalLocation {
    type V = LocationView;

    closed spec fn view(&self) -> LocationView {
        LocationView {
            root_role: self.root_role@,
            source_relative_path: self.source_relative_path@,
        }
    }
}

impl Clone for LogicalLocation {
    fn clone(&self) -> (result: LogicalLocation)
        ensures
            result@ == self@,
    {
        proof {
            use_type_invariant(self);
        }
        LogicalLocation {
            root_role: self.root_role.clone(),
            source_relative_path: self.source_relative_path.clone(),
        }
    }
}

/// Whether `chars[from..to]` is a plain component.
fn plain_component(chars: &Vec<char>, from: usize, to: usize) -> (result: bool)
    requires
        from <= to <= chars@.len(),
    ensures
        result == is_plain_component(chars@.subrange(from as int, to as int)),
{
    let ghost part = chars@.subrange(from as int, to as int);
    if from == to {
        return false;
    }
    if to - from == 1 && chars[from] == '.' {
        assert(part =~= seq!['.']);
        return false;
    }
    if to - from == 2 && chars[from] == '.' && chars[from + 1] == '.' {
        assert(part =~= seq!['.', '.']);
        return false;
    }
    proof {
        let one = seq!['.'];
        let two = seq!['.', '.'];
        if part == one {
            assert(one.len() == 1 && one[0] == '.' && part[0] == chars@[from as int]);
        }
        if part == two {
            assert(two.len() == 2 && two[0] == '.' && two[1] == '.');
            assert(part[0] == chars@[from as int]);
            assert(part[1] == chars@[from + 1]);
        }
    }
    true
}

/// Whether every component of `chars` is plain.
fn confined(chars: &Vec<char>) -> (result: bool)
    ensures
        result == is_confined(chars@),
{
    let mut from: usize = 0;
    let mut i: usize = 0;
    let mut good: bool = true;
    assert(chars@.take(0) =~= Seq::<char>::empty());
    while i < chars.len()
        invariant
            from <= i <= chars@.len(),
            path_components(chars@.take(i as int)).len() > 0,
            path_components(chars@.take(i as int)).last() == chars@.subrange(from as int, i as int),
            good == forall|j: int|
                0 <= j < path_components(chars@.take(i as int)).len() - 1 ==> is_plain_component(
                    #[trigger] path_components(chars@.take(i as int))[j],
                ),
        decreases chars@.len() - i,
    {
        let ghost before = path_components(chars@.take(i as int));
        let ghost after = path_components(chars@.take(i + 1));
        assert(chars@.take(i + 1).drop_last() =~= chars@.take(i as int));
        assert(chars@.take(i + 1).last() == chars@[i as int]);
        if chars[i] == '/' || chars[i] == '\\' {
            let ok = plain_component(chars, from, i);
            proof {
                assert(after =~= before.push(Seq::empty()));
                assert forall|j: int| 0 <= j < after.len() - 1 implies after[j] == before[j] by {}
                if good && ok {
                    assert forall|j: int| 0 <= j < after.len() - 1 implies is_plain_component(
                        #[trigger] after[j],
                    ) by {
                        if j == before.len() - 1 {
                            assert(after[j] == before.last());
                        }
                    }
                } else if !ok {
                    assert(!is_plain_component(after[before.len() - 1]));
                } else {
                    let j = choose|j: int|
                        0 <= j < before.len() - 1 && !is_plain_component(#[trigger] before[j]);
                    assert(!is_plain_component(after[j]));
                }
            }
            good = good && ok;
            from = i + 1;
            assert(chars@.subrange(from as int, i + 1) =~= Seq::<char>::empty());
        } else {
            proof {
                assert(after =~= before.drop_last().push(before.last().push(chars@[i as int])));
                assert(chars@.subrange(from as int, i + 1) =~= before.last().push(chars@[i as int]));
                assert forall|j: int| 0 <= j < before.len() - 1 implies after[j] == before[j] by {}
                if !good {
                    let j = choose|j: int|
                        0 <= j < before.len() - 1 && !is_plain_component(#[trigger] before[j]);
                    assert(!is_plain_component(after[j]));
                }
            }
        }
        i += 1;
    }
    let ok = plain_component(chars, from, chars.len());
    proof {
        assert(chars@.take(chars@.len() as int) =~= chars@);
        let all = path_components(chars@);
        assert(all.last() == all[all.len() - 1]);
        if good && ok {
            assert forall|j: int| 0 <= j < all.len() implies is_plain_component(#[trigger] all[j]) by {}
        }
    }
    good && ok
}

/// Accepts a non-empty relative path without empty, dot or parent components.
pub fn validate_relative_path(value: &str) -> (result: Result<(), DomainError>)
    ensures
        match result {
            Ok(_) => is_relative(value@) && is_confined(value@),
            Err(error) => !(is_relative(value@) && is_confined(value@)) && error@ == path_refusal(
                value@,
            ),
        },
{
    let chars = chars_of(value);
    if chars.len() == 0 || chars[0] == '/' || chars[0] == '\\' || contains_char(value, '\0') {
        return Err(
            DomainError::InvalidLocation("path must be a non-empty relative path".to_owned()),
        );
    }
    if !confined(&chars) {
        return Err(
            DomainError::InvalidLocation(
                "path may not contain empty, dot, or parent components".to_owned(),
            ),
        );
    }
    Ok(())
}

impl LogicalLocation {
    /// A constructed location has a one-component role and a confined relative path.
    #[verifier::type_invariant]
    pub open spec fn inv(self) -> bool {
        self@.valid()
    }

    /// The location of `source_relative_path` below the root with this role.
    pub fn new(root_role: &str, source_relative_path: &str) -> (result: Result<
        LogicalLocation,
        DomainError,
    >)
        ensures
            ({
                let parts = LocationView {
                    root_role: root_role@,
                    source_relative_path: source_relative_path@,
                };
                match result {
                    Ok(location) => parts.valid() && location@ == parts,
                    Err(error) => !parts.valid() && error@ == parts.refusal(),
                }
            }),
    {
        let root_role = required_identifier("root_role", root_role)?;
        if contains_char(root_role.as_str(), '/') || contains_char(root_role.as_str(), '\\') {
            return Err(
                DomainError::InvalidLocation(
                    "root_role must be one normalized component".to_owned(),
                ),
            );
        }
        validate_relative_path(source_relative_path)?;
        Ok(LogicalLocation { root_role, source_relative_path: source_relative_path.to_owned() })
    }

    pub fn root_role(&self) -> (result: &str)
        ensures
            result@ == self@.root_role,
    {
        self.root_role.as_str()
    }

    pub fn source_relative_path(&self) -> (result: &str)
        ensures
            result@ == self@.source_relative_path,
    {
        self.source_relative_path.as_str()
    }

    /// Whether two locations agree in both parts.
    pub fn same(&self, other: &LogicalLocation) -> (result: bool)
        ensures
            result == (self@ == other@),
    {
        same_text(self.root_role.as_str(), other.root_role.as_str()) && same_text(
            self.source_relative_path.as_str(),
            other.source_relative_path.as_str(),
        )
    }
}

/// The length and digest of a revision.
#[verifier::ext_equal]
pub struct RevisionView {
    pub byte_length: u64,
    pub digest: Seq<u8>,
}

/// The revision of a whole record.
pub open spec fn revision_of(bytes: Seq<u8>) -> RevisionView {
    RevisionView { byte_length: bytes.len() as u64, digest: hash::blake3_digest(bytes) }
}

/// BLAKE3-256 and byte length over the complete raw record.
#[derive(Clone, Copy, Debug, Eq, Hash, PartialEq)]
pub struct CanonicalRevision {
    byte_length: u64,
    digest: [u8; 32],
}

impl View for CanonicalRevision {
    type V = RevisionView;

    closed spec fn view(&self) -> RevisionView {
        RevisionView { byte_length: self.byte_length, digest: self.digest@ }
    }
}

/// The bytes of the reads before the first empty one, in order.
pub open spec fn bytes_read(reads: Seq<Seq<u8>>) -> Seq<u8>
    decreases reads.len(),
{
    if reads.len() == 0 || reads[0].len() == 0 {
        Seq::empty()
    } else {
        reads[0] + bytes_read(reads.subrange(1, reads.len() as int))
    }
}

impl CanonicalRevision {
    /// The name of the digest algorithm.
    pub fn algorithm() -> (result: &'static str)
        ensures
            result@ == "blake3-256"@,
    {
        "blake3-256"
    }

    /// The revision of a record held in memory.
    pub fn from_bytes(bytes: &[u8]) -> (result: CanonicalRevision)
        ensures
            result@ == revision_of(bytes@),
    {
        CanonicalRevision { byte_length: bytes.len() as u64, digest: outside_hash(bytes) }
    }

    /// The revision of a record that arrives in successive reads, up to the first empty read.
    pub fn from_reader(reads: &Vec<Vec<u8>>) -> (result: Result<CanonicalRevision, DomainError>)
        ensures
            ({
                let bytes = bytes_read(text::views(reads@));
                match result {
                    Ok(revision) => bytes.len() <= u64::MAX && revision@ == revision_of(bytes),
                    Err(error) => bytes.len() > u64::MAX && error@
                        == DomainErrorView::RecordTooLarge,
                }
            }),
    {
        let mut builder = RevisionBuilder::new();
        let mut i: usize = 0;
        let ghost all = text::views(reads@);
        assert(all.subrange(0, all.len() as int) =~= all);
        assert(builder.input() + bytes_read(all) =~= bytes_read(all));
        while i < reads.len() && reads[i].len() > 0
            invariant
                i <= reads@.len(),
                all == text::views(reads@),
                builder.input() + bytes_read(all.subrange(i as int, all.len() as int))
                    == bytes_read(all),
            decreases reads@.len() - i,
        {
            let ghost rest = all.subrange(i as int, all.len() as int);
            let ghost before = builder.input();
            proof {
                assert(rest.subrange(1, rest.len() as int) =~= all.subrange(
                    i + 1,
                    all.len() as int,
                ));
                assert(rest[0] == reads@[i as int]@);
                assert(bytes_read(rest) == reads@[i as int]@ + bytes_read(
                    all.subrange(i + 1, all.len() as int),
                ));
            }
            match builder.absorb(reads[i].as_slice()) {
                Ok(_) => {},
                Err(error) => {
                    return Err(error);
                },
            }
            assert(builder.input() + bytes_read(all.subrange(i + 1, all.len() as int))
                =~= before + bytes_read(rest));
            i += 1;
        }
        proof {
            let rest = all.subrange(i as int, all.len() as int);
            if rest.len() > 0 {
                assert(rest[0] == reads@[i as int]@);
            }
            assert(builder.input() + Seq::<u8>::empty() =~= builder.input());
        }
        Ok(builder.finish())
    }

    pub fn byte_length(self) -> (result: u64)
        ensures
            result == self@.byte_length,
    {
        self.byte_length
    }

    pub fn digest(self) -> (result: [u8; 32])
        ensures
            result@ == self@.digest,
    {
        self.digest
    }

    /// The digest in lower-case hexadecimal digits.
    pub fn digest_hex(self) -> (result: String)
        ensures
            result@ == text::hex(self@.digest),
    {
        hex_encode(vstd::array::array_as_slice(&self.digest))
    }

    /// The revision with this length and digest.
    pub fn from_parts(byte_length: u64, digest: [u8; 32]) -> (result: CanonicalRevision)
        ensures
            result@ == (RevisionView { byte_length, digest: digest@ }),
    {
        CanonicalRevision { byte_length, digest }
    }

    /// Whether two revisions agree in length and digest.
    pub fn same(&self, other: &CanonicalRevision) -> (result: bool)
        ensures
            result == (self@ == other@),
    {
        if self.byte_length != other.byte_length {
            return false;
        }
        let mut i: usize = 0;
        while i < 32
            invariant
                i <= 32,
                forall|j: int| 0 <= j < i ==> self.digest@[j] == other.digest@[j],
            decreases 32 - i,
        {
            if self.digest[i] != other.digest[i] {
                assert(self@.digest[i as int] != other@.digest[i as int]);
                return false;
            }
            i += 1;
        }
        assert(self.digest@ =~= other.digest@);
        true
    }
}

/// A revision under construction from bytes that arrive in pieces.
pub struct RevisionBuilder {
    hasher: blake3::Hasher,
    byte_length: u64,
}

impl RevisionBuilder {
    #[verifier::type_invariant]
    spec fn inv(self) -> bool {
        self.byte_length == hash::hasher_input(self.hasher).len()
    }

    /// The bytes absorbed so far.
    pub closed spec fn input(&self) -> Seq<u8> {
        hash::hasher_input(self.hasher)
    }

    /// A builder that has absorbed nothing.
    pub fn new() -> (result: RevisionBuilder)
        ensures
            result.input() == Seq::<u8>::empty(),
    {
        RevisionBuilder { hasher: outside_hasher_new(), byte_length: 0 }
    }

    /// Absorbs `bytes` behind what came before, where the length still fits in `u64`.
    pub fn absorb(&mut self, bytes: &[u8]) -> (result: Result<(), DomainError>)
        ensures
            match result {
                Ok(_) => old(self).input().len() + bytes@.len() <= u64::MAX && final(self).input()
                    == old(self).input() + bytes@,
                Err(error) => old(self).input().len() + bytes@.len() > u64::MAX && error@
                    == DomainErrorView::RecordTooLarge && *final(self) == *old(self),
            },
    {
        proof {
            use_type_invariant(&*self);
        }
        match self.byte_length.checked_add(bytes.len() as u64) {
            Some(byte_length) => {
                let mut current = RevisionBuilder::new();
                std::mem::swap(&mut current, self);
                let mut hasher = current.hasher;
                outside_hasher_update(&mut hasher, bytes);
                *self = RevisionBuilder { hasher, byte_length };
                Ok(())
            },
            None => Err(DomainError::RecordTooLarge),
        }
    }

    /// The revision of the bytes absorbed.
    pub fn finish(&self) -> (result: CanonicalRevision)
        ensures
            result@ == revision_of(self.input()),
            self.input().len() <= u64::MAX,
    {
        proof {
            use_type_invariant(self);
        }
        CanonicalRevision {
            byte_length: self.byte_length,
            digest: outside_hasher_finalize(&self.hasher),
        }
    }
}

/// A revision depends on the record's bytes alone: dividing one read in two changes nothing.
pub proof fn law_revision_independent_of_chunking(a: Seq<u8>, b: Seq<u8>, rest: Seq<Seq<u8>>)
    requires
        a.len() > 0,
        b.len() > 0,
    ensures
        revision_of(bytes_read(seq![a, b] + rest)) == revision_of(bytes_read(seq![a + b] + rest)),
{
    let divided = seq![a, b] + rest;
    let whole = seq![a + b] + rest;
    assert(divided.subrange(1, divided.len() as int) =~= seq![b] + rest);
    let tail = seq![b] + rest;
    assert(tail.subrange(1, tail.len() as int) =~= rest);
    assert(whole.subrange(1, whole.len() as int) =~= rest);
    assert(divided[0] == a && tail[0] == b && whole[0] == a + b);
    assert(bytes_read(tail) == b + bytes_read(rest));
    assert(bytes_read(divided) == a + bytes_read(tail));
    assert(a + (b + bytes_read(rest)) =~= (a + b) + bytes_read(rest));
}

/// Whether a record is present or deleted.
#[derive(Clone, Copy, Debug, Eq, PartialEq, Structural)]
pub enum RecordState {
    Active,
    Tombstoned,
}

/// The stored name of a record state.
pub open spec fn record_state_name(state: RecordState) -> Seq<char> {
    match state {
        RecordState::Active => "active"@,
        RecordState::Tombstoned => "tombstoned"@,
    }
}

impl RecordState {
    pub fn as_db(self) -> (result: &'static str)
        ensures
            result@ == record_state_name(self),
    {
        match self {
            RecordState::Active => "active",
            RecordState::Tombstoned => "tombstoned",
        }
    }

    pub fn from_db(value: &str) -> (result: Result<RecordState, DomainError>)
        ensures
            match result {
                Ok(state) => value@ == record_state_name(state),
                Err(error) => {
                    &&& forall|state: RecordState| value@ != #[trigger] record_state_name(state)
                    &&& error@ == DomainErrorView::CorruptState(value@)
                },
            },
    {
        if same_text(value, "active") {
            Ok(RecordState::Active)
        } else if same_text(value, "tombstoned") {
            Ok(RecordState::Tombstoned)
        } else {
            Err(DomainError::CorruptState(value.to_owned()))
        }
    }
}

/// Distinct record states have distinct stored names.
pub proof fn law_record_state_name_injective(a: RecordState, b: RecordState)
    requires
        record_state_name(a) == record_state_name(b),
    ensures
        a == b,
{
    reveal_strlit("active");
    reveal_strlit("tombstoned");
    assert("active"@.len() == 6 && "tombstoned"@.len() == 10);
}

/// What happened to a record.
#[derive(Clone, Copy, Debug, Eq, PartialEq, Structural)]
pub enum EventKind {
    RevisionCommitted,
    LocationChanged,
    RecordTombstoned,
    RecordRestored,
}

/// The stored name of an event kind.
pub open spec fn event_kind_name(kind: EventKind) -> Seq<char> {
    match kind {
        EventKind::RevisionCommitted => "revision_committed"@,
        EventKind::LocationChanged => "location_changed"@,
        EventKind::RecordTombstoned => "record_tombstoned"@,
        EventKind::RecordRestored => "record_restored"@,
    }
}

impl EventKind {
    pub fn as_db(self) -> (result: &'static str)
        ensures
            result@ == event_kind_name(self),
    {
        match self {
            EventKind::RevisionCommitted => "revision_committed",
            EventKind::LocationChanged => "location_changed",
            EventKind::RecordTombstoned => "record_tombstoned",
            EventKind::RecordRestored => "record_restored",
        }
    }

    pub fn from_db(value: &str) -> (result: Result<EventKind, DomainError>)
        ensures
            match result {
                Ok(kind) => value@ == event_kind_name(kind),
                Err(error) => {
                    &&& forall|kind: EventKind| value@ != #[trigger] event_kind_name(kind)
                    &&& error@ == DomainErrorView::CorruptState(value@)
                },
            },
    {
        if same_text(value, "revision_committed") {
            Ok(EventKind::RevisionCommitted)
        } else if same_text(value, "location_changed") {
            Ok(EventKind::LocationChanged)
        } else if same_text(value, "record_tombstoned") {
            Ok(EventKind::RecordTombstoned)
        } else if same_text(value, "record_restored") {
            Ok(EventKind::RecordRestored)
        } else {
            Err(DomainError::CorruptState(value.to_owned()))
        }
    }
}

/// Distinct event kinds have distinct stored names.
pub proof fn law_event_kind_name_injective(a: EventKind, b: EventKind)
    requires
        event_kind_name(a) == event_kind_name(b),
    ensures
        a == b,
{
    reveal_strlit("revision_committed");
    reveal_strlit("location_changed");
    reveal_strlit("record_tombstoned");
    reveal_strlit("record_restored");
    assert("revision_committed"@[0] == 'r' && "revision_committed"@[2] == 'v');
    assert("record_tombstoned"@[2] == 'c' && "record_tombstoned"@[7] == 't');
    assert("record_restored"@[2] == 'c' && "record_restored"@[7] == 'r');
    assert("location_changed"@[0] == 'l');
}

/// Consumer outcomes. A dead letter stops automatic retry but deliberately does not release
/// ordering for a later version of the same record.
#[derive(Clone, Copy, Debug, Eq, PartialEq, Structural)]
pub enum DeliveryOutcome {
    Acknowledged,
    Superseded,
    IgnoredByPolicy,
    DeadLettered,
}

/// Whether later versions of the record may follow this outcome.
pub open spec fn outcome_advances(outcome: DeliveryOutcome) -> bool {
    outcome != DeliveryOutcome::DeadLettered
}

impl DeliveryOutcome {
    pub fn advances_record_order(self) -> (result: bool)
        ensures
            result == outcome_advances(self),
    {
        self != DeliveryOutcome::DeadLettered
    }
}

/// One committed change of one record.
#[derive(Debug, Eq, PartialEq)]
pub struct ArchiveEvent {
    pub id: EventId,
    pub sequence: u64,
    pub record_id: RecordId,
    pub record_version: u64,
    pub kind: EventKind,
    pub revision_id: Option<RevisionId>,
    pub location: Option<LogicalLocation>,
    pub committed_at_ms: i64,
}

/// An archive event with its location as character sequences.
#[verifier::ext_equal]
pub struct EventView {
    pub id: EventId,
    pub sequence: u64,
    pub record_id: RecordId,
    pub record_version: u64,
    pub kind: EventKind,
    pub revision_id: Option<RevisionId>,
    pub location: Option<LocationView>,
    pub committed_at_ms: i64,
}

impl View for ArchiveEvent {
    type V = EventView;

    open spec fn view(&self) -> EventView {
        EventView {
            id: self.id,
            sequence: self.sequence,
            record_id: self.record_id,
            record_version: self.record_version,
            kind: self.kind,
            revision_id: self.revision_id,
            location: text::view_option(self.location),
            committed_at_ms: self.committed_at_ms,
        }
    }
}

/// A copy of an optional location.
pub fn copy_location(location: &Option<LogicalLocation>) -> (result: Option<LogicalLocation>)
    ensures
        text::view_option(result) == text::view_option(*location),
{
    match location {
        Some(value) => Some(value.clone()),
        None => None,
    }
}

impl Clone for ArchiveEvent {
    fn clone(&self) -> (result: ArchiveEvent)
        ensures
            result@ == self@,
    {
        ArchiveEvent {
            id: self.id,
            sequence: self.sequence,
            record_id: self.record_id,
            record_version: self.record_version,
            kind: self.kind,
            revision_id: self.revision_id,
            location: copy_location(&self.location),
            committed_at_ms: self.committed_at_ms,
        }
    }
}

} // verus!
