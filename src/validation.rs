//! Package validation state: the result of replaying a package's log records.
use vstd::prelude::*;
use crate::digest::{Digest, DigestView, HashAlgorithm, digest_of, digest_spec};
use crate::encoding::{encode_record, record_bytes};

verus! {

/// One change within a log record.
#[derive(Debug)]
pub enum Entry {
    /// Starts the package log and introduces its signing key.
    Init { algorithm: HashAlgorithm, key: String },
    /// Releases a version with the digest of its content.
    Release { version: String, content: Digest },
}

pub enum EntryView {
    Init { algorithm: HashAlgorithm, key: Seq<char> },
    Release { version: Seq<char>, content: DigestView },
}

impl View for Entry {
    type V = EntryView;

    open spec fn view(&self) -> EntryView {
        match self {
            Entry::Init { algorithm, key } => EntryView::Init { algorithm: *algorithm, key: key@ },
            Entry::Release { version, content } => EntryView::Release {
                version: version@,
                content: content@,
            },
        }
    }
}

/// A signed log record: its id, the record it chains to, its schema version,
/// its timestamp (seconds since the Unix epoch; informational, the log's order
/// is the chain of `prev`), its entries, and the signature (in
/// `<algorithm>:<base64>` form) over its encoding.
#[derive(Debug)]
pub struct Record {
    pub id: Digest,
    pub prev: Option<Digest>,
    pub version: u32,
    pub timestamp: u64,
    pub entries: Vec<Entry>,
    pub signature: String,
}

pub struct RecordView {
    pub id: DigestView,
    pub prev: Option<DigestView>,
    pub version: u32,
    pub timestamp: u64,
    pub entries: Seq<EntryView>,
    pub signature: Seq<char>,
}

/// The bytes a record's id and signature cover: its encoding.
pub open spec fn signed_bytes(r: RecordView) -> Seq<u8> {
    record_bytes(r.prev, r.version, r.timestamp, r.entries)
}

pub open spec fn opt_view(d: Option<Digest>) -> Option<DigestView> {
    match d {
        Some(x) => Some(x@),
        None => None,
    }
}

impl View for Record {
    type V = RecordView;

    open spec fn view(&self) -> RecordView {
        RecordView {
            id: self.id@,
            prev: opt_view(self.prev),
            version: self.version,
            timestamp: self.timestamp,
            entries: self.entries@.map_values(|e: Entry| e@),
            signature: self.signature@,
        }
    }
}

/// Why a record cannot be appended to a package log.
#[derive(Clone, Copy, Debug, PartialEq, Eq, Structural)]
pub enum RecordError {
    /// The record does not chain to the current head of the log.
    HeadMismatch,
    /// The record's id is not the digest of its encoding.
    IdMismatch,
    /// The record's id is the current head of the log.
    RecordIdReused,
    /// The first record of a log does not start with an `Init` entry.
    FirstEntryNotInit,
    /// The signature does not verify against the package's key.
    InvalidSignature,
    /// An `Init` entry in a log that is already initialized.
    InitNotFirst,
    /// A `Release` entry in a log that is not initialized.
    ReleaseBeforeInit,
    /// A `Release` of a version that was already released.
    DuplicateVersion,
}

/// Derived state of a package log.
#[derive(Debug)]
pub struct Validator {
    head: Option<Digest>,
    key: Option<String>,
    releases: Vec<(String, Digest)>,
}

pub struct ValidatorView {
    pub head: Option<DigestView>,
    pub key: Option<Seq<char>>,
    pub releases: Seq<(Seq<char>, DigestView)>,
}

impl View for Validator {
    type V = ValidatorView;

    closed spec fn view(&self) -> ValidatorView {
        ValidatorView {
            head: opt_view(self.head),
            key: match self.key {
                Some(k) => Some(k@),
                None => None,
            },
            releases: self.releases@.map_values(|p: (String, Digest)| (p.0@, p.1@)),
        }
    }
}

/// The state of a log with no records.
pub open spec fn empty_state() -> ValidatorView {
    ValidatorView { head: None, key: None, releases: Seq::empty() }
}

pub open spec fn has_version(rel: Seq<(Seq<char>, DigestView)>, v: Seq<char>) -> bool {
    exists|i: int| 0 <= i < rel.len() && #[trigger] rel[i].0 == v
}

/// The state after one entry, or the invariant the entry breaks.
pub open spec fn entry_step(s: ValidatorView, e: EntryView) -> Result<ValidatorView, RecordError> {
    match e {
        EntryView::Init { algorithm, key } => {
            if s.key.is_some() {
                Err(RecordError::InitNotFirst)
            } else {
                Ok(ValidatorView { key: Some(key), ..s })
            }
        },
        EntryView::Release { version, content } => {
            if s.key.is_none() {
                Err(RecordError::ReleaseBeforeInit)
            } else if has_version(s.releases, version) {
                Err(RecordError::DuplicateVersion)
            } else {
                Ok(ValidatorView { releases: s.releases.push((version, content)), ..s })
            }
        },
    }
}

/// The state after the entries in order, or the first error.
pub open spec fn apply_entries(s: ValidatorView, es: Seq<EntryView>) -> Result<
    ValidatorView,
    RecordError,
>
    decreases es.len(),
{
    if es.len() == 0 {
        Ok(s)
    } else {
        match apply_entries(s, es.drop_last()) {
            Ok(t) => entry_step(t, es.last()),
            Err(e) => Err(e),
        }
    }
}

/// Whether `signature` is a valid signature of `msg` by the public key `key`
/// (key and signature in `<algorithm>:<base64>` form).
pub uninterp spec fn signature_valid(key: Seq<char>, msg: Seq<u8>, signature: Seq<char>) -> bool;

/// Relies on warg_crypto's `PublicKey::verify`, with the key and the signature
/// parsed from their text by warg_crypto's `FromStr`; text that does not parse
/// verifies nothing. The answer depends on the three arguments alone.
#[verifier::external_body]
fn verify_signature(key: &String, msg: &[u8], signature: &String) -> (r: bool)
    ensures
        r == signature_valid(key@, msg@, signature@),
{
    match (
        key.parse::<warg_crypto::signing::PublicKey>(),
        signature.parse::<warg_crypto::signing::Signature>(),
    ) {
        (Ok(key), Ok(signature)) => key.verify(msg, &signature).is_ok(),
        _ => false,
    }
}

/// The key a record must be signed with: the package's key, or for the first
/// record the key its leading `Init` introduces.
pub open spec fn expected_signer(s: ValidatorView, r: RecordView) -> Option<Seq<char>> {
    match s.key {
        Some(k) => Some(k),
        None => if r.entries.len() > 0 && r.entries[0] is Init {
            Some(r.entries[0]->Init_key)
        } else {
            None
        },
    }
}

/// The state after appending a record, or the invariant it breaks.
#[verifier::opaque]
pub open spec fn apply_record(s: ValidatorView, r: RecordView) -> Result<ValidatorView, RecordError> {
    if r.prev != s.head {
        Err(RecordError::HeadMismatch)
    } else if r.id != digest_spec(signed_bytes(r)) {
        Err(RecordError::IdMismatch)
    } else if s.head == Some(r.id) {
        Err(RecordError::RecordIdReused)
    } else {
        match expected_signer(s, r) {
            None => Err(RecordError::FirstEntryNotInit),
            Some(k) => if !signature_valid(k, signed_bytes(r), r.signature) {
                Err(RecordError::InvalidSignature)
            } else {
                match apply_entries(s, r.entries) {
                    Ok(t) => Ok(ValidatorView { head: Some(r.id), ..t }),
                    Err(e) => Err(e),
                }
            },
        }
    }
}

fn opt_same(a: &Option<Digest>, b: &Option<Digest>) -> (r: bool)
    ensures
        r == (opt_view(*a) == opt_view(*b)),
{
    match (a, b) {
        (Some(x), Some(y)) => x.same(y),
        (None, None) => true,
        _ => false,
    }
}

impl Entry {
    /// A copy of the entry.
    pub fn copy(&self) -> (r: Entry)
        ensures
            r@ == self@,
    {
        match self {
            Entry::Init { algorithm, key } => Entry::Init { algorithm: *algorithm, key: key.clone() },
            Entry::Release { version, content } => Entry::Release {
                version: version.clone(),
                content: content.copy(),
            },
        }
    }
}

impl Record {
    /// A copy of the record.
    pub fn copy(&self) -> (r: Record)
        ensures
            r@ == self@,
    {
        let mut entries: Vec<Entry> = Vec::new();
        let mut i: usize = 0;
        while i < self.entries.len()
            invariant
                0 <= i <= self.entries@.len(),
                entries@.len() == i,
                forall|j: int| 0 <= j < i ==> #[trigger] entries@[j]@ == self.entries@[j]@,
            decreases self.entries@.len() - i,
        {
            entries.push(self.entries[i].copy());
            i = i + 1;
        }
        let prev = match &self.prev {
            Some(d) => Some(d.copy()),
            None => None,
        };
        let r = Record {
            id: self.id.copy(),
            prev,
            version: self.version,
            timestamp: self.timestamp,
            entries,
            signature: self.signature.clone(),
        };
        assert(r@.entries =~= self@.entries);
        r
    }
}

impl Validator {
    /// The state of an empty log.
    pub fn new() -> (r: Validator)
        ensures
            r@ == empty_state(),
    {
        let r = Validator { head: None, key: None, releases: Vec::new() };
        assert(r@.releases =~= Seq::<(Seq<char>, DigestView)>::empty());
        r
    }

    /// The last record of the log.
    pub fn head(&self) -> (r: Option<Digest>)
        ensures
            opt_view(r) == self@.head,
    {
        match &self.head {
            Some(d) => Some(d.copy()),
            None => None,
        }
    }

    /// Whether the version was released.
    pub fn is_released(&self, version: &String) -> (r: bool)
        ensures
            r == has_version(self@.releases, version@),
    {
        let mut i: usize = 0;
        while i < self.releases.len()
            invariant
                0 <= i <= self.releases@.len(),
                self@.releases.len() == self.releases@.len(),
                forall|j: int| 0 <= j < i ==> self@.releases[j].0 != version@,
            decreases self.releases@.len() - i,
        {
            if self.releases[i].0 == *version {
                assert(self@.releases[i as int].0 == version@);
                return true;
            }
            i = i + 1;
        }
        false
    }

    /// The content digest released under the version.
    pub fn release_content(&self, version: &String) -> (r: Option<Digest>)
        ensures
            r.is_some() == has_version(self@.releases, version@),
            r.is_some() ==> exists|j: int|
                0 <= j < self@.releases.len() && self@.releases[j] == (version@, r.unwrap()@),
    {
        let mut i: usize = 0;
        while i < self.releases.len()
            invariant
                0 <= i <= self.releases@.len(),
                self@.releases.len() == self.releases@.len(),
                forall|j: int| 0 <= j < i ==> self@.releases[j].0 != version@,
            decreases self.releases@.len() - i,
        {
            if self.releases[i].0 == *version {
                let d = self.releases[i].1.copy();
                assert(self@.releases[i as int] == (version@, d@));
                assert(self@.releases[i as int].0 == version@);
                return Some(d);
            }
            i = i + 1;
        }
        None
    }

    fn step(&mut self, e: &Entry) -> (r: Result<(), RecordError>)
        ensures
            match entry_step(old(self)@, e@) {
                Ok(t) => r.is_ok() && final(self)@ == t,
                Err(x) => r == Err::<(), RecordError>(x) && final(self)@ == old(self)@,
            },
    {
        match e {
            Entry::Init { algorithm: _, key } => {
                if self.key.is_some() {
                    return Err(RecordError::InitNotFirst);
                }
                self.key = Some(key.clone());
                Ok(())
            },
            Entry::Release { version, content } => {
                if self.key.is_none() {
                    return Err(RecordError::ReleaseBeforeInit);
                }
                if self.is_released(version) {
                    return Err(RecordError::DuplicateVersion);
                }
                self.releases.push((version.clone(), content.copy()));
                assert(self@.releases =~= old(self)@.releases.push((version@, content@)));
                Ok(())
            },
        }
    }

    /// Appends a record to the log. On failure the state is left unchanged.
    pub fn apply(&mut self, record: &Record) -> (r: Result<(), RecordError>)
        ensures
            match apply_record(old(self)@, record@) {
                Ok(t) => r.is_ok() && final(self)@ == t,
                Err(x) => r == Err::<(), RecordError>(x) && final(self)@ == old(self)@,
            },
    {
        proof {
            reveal(apply_record);
        }
        if !opt_same(&record.prev, &self.head) {
            return Err(RecordError::HeadMismatch);
        }
        let bytes = encode_record(&record.prev, record.version, record.timestamp, &record.entries);
        let actual = digest_of(bytes.as_slice());
        if !actual.same(&record.id) {
            return Err(RecordError::IdMismatch);
        }
        if let Some(h) = &self.head {
            if h.same(&record.id) {
                return Err(RecordError::RecordIdReused);
            }
        }
        let signer_ok = match &self.key {
            Some(k) => verify_signature(k, bytes.as_slice(), &record.signature),
            None => {
                if record.entries.len() > 0 {
                    assert(record@.entries[0] == record.entries@[0]@);
                    match &record.entries[0] {
                        Entry::Init { algorithm: _, key } => verify_signature(
                            key,
                            bytes.as_slice(),
                            &record.signature,
                        ),
                        _ => {
                            return Err(RecordError::FirstEntryNotInit);
                        },
                    }
                } else {
                    return Err(RecordError::FirstEntryNotInit);
                }
            },
        };
        if !signer_ok {
            return Err(RecordError::InvalidSignature);
        }
        let ghost s0 = self@;
        let ghost es = record@.entries;
        let saved_key_none = self.key.is_none();
        let n = self.releases.len();
        let mut i: usize = 0;
        while i < record.entries.len()
            invariant
                s0 == old(self)@,
                record@.prev == s0.head,
                s0.head != Some(record@.id),
                expected_signer(s0, record@) is Some,
                record@.id == digest_spec(signed_bytes(record@)),
                signature_valid(expected_signer(s0, record@)->Some_0, signed_bytes(record@), record@.signature),
                es == record@.entries,
                es.len() == record.entries@.len(),
                0 <= i <= es.len(),
                n == s0.releases.len(),
                saved_key_none == s0.key.is_none(),
                apply_entries(s0, es.take(i as int)) == Ok::<ValidatorView, RecordError>(self@),
                self@.head == s0.head,
                self@.releases.len() >= n,
                self@.releases.take(n as int) == s0.releases,
                !saved_key_none ==> self@.key == s0.key,
            decreases es.len() - i,
        {
            assert(es.take(i + 1).drop_last() =~= es.take(i as int));
            assert(es.take(i + 1).last() == es[i as int]);
            assert(es[i as int] == record.entries@[i as int]@);
            match self.step(&record.entries[i]) {
                Ok(()) => {
                    assert(self@.releases.take(n as int) =~= s0.releases);
                },
                Err(x) => {
                    self.releases.truncate(n);
                    if saved_key_none {
                        self.key = None;
                    }
                    assert(self@.releases =~= s0.releases);
                    assert(self@ == s0);
                    assert(apply_entries(s0, es.take(i + 1)) == Err::<ValidatorView, RecordError>(x));
                    proof {
                        lemma_error_persists(s0, es, i as int + 1);
                        reveal(apply_record);
                    }
                    return Err(x);
                },
            }
            i = i + 1;
        }
        assert(es.take(es.len() as int) =~= es);
        proof {
            reveal(apply_record);
        }
        self.head = Some(record.id.copy());
        Ok(())
    }
}

proof fn lemma_error_persists(s: ValidatorView, es: Seq<EntryView>, k: int)
    requires
        0 <= k <= es.len(),
        apply_entries(s, es.take(k)) is Err,
    ensures
        apply_entries(s, es) == apply_entries(s, es.take(k)),
    decreases es.len() - k,
{
    if k < es.len() {
        assert(es.take(k + 1).drop_last() =~= es.take(k));
        lemma_error_persists(s, es, k + 1);
    } else {
        assert(es.take(k) =~= es);
    }
}

/// Replaying entries in two parts gives what replaying them as one batch gives:
/// the state after the first part, then the second part applied to it.
pub proof fn lemma_apply_entries_concat(s: ValidatorView, a: Seq<EntryView>, b: Seq<EntryView>)
    ensures
        apply_entries(s, a + b) == match apply_entries(s, a) {
            Ok(t) => apply_entries(t, b),
            Err(e) => Err(e),
        },
    decreases b.len(),
{
    if b.len() == 0 {
        assert(a + b =~= a);
    } else {
        assert((a + b).drop_last() =~= a + b.drop_last());
        assert((a + b).last() == b.last());
        lemma_apply_entries_concat(s, a, b.drop_last());
    }
}

proof fn lemma_entries_keep_versions(s: ValidatorView, es: Seq<EntryView>, k: int)
    requires
        0 <= k < es.len(),
        es[k] is Release,
        apply_entries(s, es) is Ok,
    ensures
        has_version(apply_entries(s, es)->Ok_0.releases, es[k]->Release_version),
    decreases es.len(),
{
    let t = apply_entries(s, es.drop_last())->Ok_0;
    let u = apply_entries(s, es)->Ok_0;
    let v = es[k]->Release_version;
    if k < es.len() - 1 {
        assert(es.drop_last()[k] == es[k]);
        lemma_entries_keep_versions(s, es.drop_last(), k);
        let i = choose|i: int| 0 <= i < t.releases.len() && #[trigger] t.releases[i].0 == v;
        match es.last() {
            EntryView::Init { .. } => {
                assert(u.releases[i].0 == v);
            },
            EntryView::Release { version, content } => {
                assert(u.releases == t.releases.push((version, content)));
                assert(u.releases[i].0 == v);
            },
        }
    } else {
        assert(u.releases[t.releases.len() as int].0 == v);
    }
}

/// Once a replay has released a version, a later release of that version is
/// refused as a duplicate.
pub proof fn lemma_released_version_is_refused(
    s: ValidatorView,
    es: Seq<EntryView>,
    k: int,
    content: DigestView,
)
    requires
        0 <= k < es.len(),
        es[k] is Release,
        apply_entries(s, es) is Ok,
    ensures
        entry_step(
            apply_entries(s, es)->Ok_0,
            EntryView::Release { version: es[k]->Release_version, content },
        ) == Err::<ValidatorView, RecordError>(RecordError::DuplicateVersion),
{
    lemma_entries_keep_versions(s, es, k);
    lemma_key_set_after_release(s, es, k);
}

proof fn lemma_key_set_after_release(s: ValidatorView, es: Seq<EntryView>, k: int)
    requires
        0 <= k < es.len(),
        es[k] is Release,
        apply_entries(s, es) is Ok,
    ensures
        apply_entries(s, es)->Ok_0.key is Some,
    decreases es.len(),
{
    if k < es.len() - 1 {
        assert(es.drop_last()[k] == es[k]);
        lemma_key_set_after_release(s, es.drop_last(), k);
    }
}

/// Of two records that both chain to the same head, at most one is appended:
/// once the first is, the second is refused for not chaining to the new head.
pub proof fn lemma_one_record_per_head(s: ValidatorView, r1: RecordView, r2: RecordView)
    requires
        apply_record(s, r1) is Ok,
        r2.prev == s.head,
    ensures
        apply_record(apply_record(s, r1)->Ok_0, r2) == Err::<ValidatorView, RecordError>(
            RecordError::HeadMismatch,
        ),
{
    reveal(apply_record);
}

} // verus!
