//! Client side of a publish: queued entries turned into an unsigned record.
use vstd::prelude::*;
use crate::digest::{Digest, DigestView, HashAlgorithm};
use crate::digest::digest_of;
use crate::encoding::{encode_record, record_bytes};
use crate::validation::{Entry, EntryView, Record, RecordView, opt_view, signature_valid, signed_bytes};
use crate::digest::digest_spec;

verus! {

/// A record entry queued for publishing.
#[derive(Debug)]
pub enum PublishEntry {
    /// The package is being initialized.
    Init,
    /// A new release: its version and the digest of its content.
    Release { version: String, content: Digest },
}

pub enum PublishEntryView {
    Init,
    Release { version: Seq<char>, content: DigestView },
}

impl View for PublishEntry {
    type V = PublishEntryView;

    open spec fn view(&self) -> PublishEntryView {
        match self {
            PublishEntry::Init => PublishEntryView::Init,
            PublishEntry::Release { version, content } => PublishEntryView::Release {
                version: version@,
                content: content@,
            },
        }
    }
}

/// A publish in progress: the package and the entries queued for it.
#[derive(Debug)]
pub struct PublishInfo {
    pub package: String,
    pub entries: Vec<PublishEntry>,
}

/// The schema version of the package records this library assembles.
pub const PACKAGE_RECORD_VERSION: u32 = 0;

/// A record assembled from queued entries, ready to be signed. The timestamp
/// (seconds since the Unix epoch) is informational: the log's order is the
/// chain of `prev`.
#[derive(Debug)]
pub struct UnsignedRecord {
    pub prev: Option<Digest>,
    pub version: u32,
    pub timestamp: u64,
    pub entries: Vec<Entry>,
}

/// Why queued entries cannot be assembled into a record.
#[derive(Clone, Copy, Debug, PartialEq, Eq, Structural)]
pub enum PublishError {
    /// More than one `Init` entry in one publish.
    MultipleInit,
    /// An `Init` entry for a package whose log already has a head.
    InitWithHead,
}

/// The log entry a queued entry becomes, signed with `key`.
pub open spec fn to_entry(e: PublishEntryView, key: Seq<char>) -> EntryView {
    match e {
        PublishEntryView::Init => EntryView::Init { algorithm: HashAlgorithm::Sha256, key },
        PublishEntryView::Release { version, content } => EntryView::Release { version, content },
    }
}

/// The content digests the entries reference, in order.
pub open spec fn release_digests(es: Seq<PublishEntryView>) -> Seq<DigestView>
    decreases es.len(),
{
    if es.len() == 0 {
        Seq::empty()
    } else {
        match es.last() {
            PublishEntryView::Init => release_digests(es.drop_last()),
            PublishEntryView::Release { version, content } => release_digests(es.drop_last()).push(
                content,
            ),
        }
    }
}

/// The number of `Init` entries.
pub open spec fn init_count(es: Seq<PublishEntryView>) -> nat
    decreases es.len(),
{
    if es.len() == 0 {
        0
    } else {
        init_count(es.drop_last()) + if es.last() is Init {
            1nat
        } else {
            0nat
        }
    }
}

impl PublishInfo {
    pub open spec fn entries_view(&self) -> Seq<PublishEntryView> {
        self.entries@.map_values(|e: PublishEntry| e@)
    }

    /// Whether the publish initializes the package.
    pub fn initializing(&self) -> (r: bool)
        ensures
            r == (init_count(self.entries_view()) > 0),
    {
        let mut i: usize = 0;
        while i < self.entries.len()
            invariant
                0 <= i <= self.entries@.len(),
                self.entries_view().len() == self.entries@.len(),
                init_count(self.entries_view().take(i as int)) == 0,
            decreases self.entries@.len() - i,
        {
            let ghost es = self.entries_view();
            assert(es.take(i + 1).drop_last() =~= es.take(i as int));
            assert(es.take(i + 1).last() == self.entries@[i as int]@);
            if let PublishEntry::Init = self.entries[i] {
                proof {
                    lemma_init_count_prefix(es, i as int + 1);
                }
                return true;
            }
            i = i + 1;
        }
        assert(self.entries_view().take(i as int) =~= self.entries_view());
        false
    }

    /// Turns the queued entries into a record that chains to `head`: each
    /// `Init` carries the signer's public key `key`, each `Release` keeps its
    /// version and digest; the record is stamped with `timestamp`. Also
    /// returns the content digests the record references. At most one `Init`
    /// is allowed, and only without a head.
    pub fn finalize(self, key: &String, head: Option<Digest>, timestamp: u64) -> (r: Result<
        (UnsignedRecord, Vec<Digest>),
        PublishError,
    >)
        ensures
            init_count(self.entries_view()) > 1 ==> r == Err::<(UnsignedRecord, Vec<Digest>), PublishError>(
                PublishError::MultipleInit,
            ),
            init_count(self.entries_view()) == 1 && head.is_some() ==> r == Err::<
                (UnsignedRecord, Vec<Digest>),
                PublishError,
            >(PublishError::InitWithHead),
            (init_count(self.entries_view()) == 0 || (init_count(self.entries_view()) == 1
                && head.is_none())) ==> r.is_ok(),
            r.is_ok() ==> {
                let (rec, digests) = r.unwrap();
                &&& opt_view(rec.prev) == opt_view(head)
                &&& rec.version == PACKAGE_RECORD_VERSION
                &&& rec.timestamp == timestamp
                &&& rec.entries@.map_values(|e: Entry| e@) == self.entries_view().map_values(
                    |e: PublishEntryView| to_entry(e, key@),
                )
                &&& digests@.map_values(|d: Digest| d@) == release_digests(self.entries_view())
            },
    {
        let ghost es = self.entries_view();
        let mut entries: Vec<Entry> = Vec::new();
        let mut contents: Vec<Digest> = Vec::new();
        let mut inits: usize = 0;
        let mut i: usize = 0;
        while i < self.entries.len()
            invariant
                es == self.entries_view(),
                es.len() == self.entries@.len(),
                0 <= i <= es.len(),
                inits as nat == init_count(es.take(i as int)),
                inits <= i,
                entries@.map_values(|e: Entry| e@) == es.take(i as int).map_values(
                    |e: PublishEntryView| to_entry(e, key@),
                ),
                contents@.map_values(|d: Digest| d@) == release_digests(es.take(i as int)),
            decreases es.len() - i,
        {
            assert(es.take(i + 1).drop_last() =~= es.take(i as int));
            assert(es.take(i + 1).last() == self.entries@[i as int]@);
            let ghost prev_entries = entries@;
            match &self.entries[i] {
                PublishEntry::Init => {
                    inits = inits + 1;
                    entries.push(Entry::Init { algorithm: HashAlgorithm::Sha256, key: key.clone() });
                },
                PublishEntry::Release { version, content } => {
                    contents.push(content.copy());
                    entries.push(Entry::Release { version: version.clone(), content: content.copy() });
                },
            }
            assert(entries@ == prev_entries.push(entries@.last()));
            assert(entries@.last()@ == to_entry(es[i as int], key@));
            assert(entries@.map_values(|e: Entry| e@) =~= prev_entries.map_values(|e: Entry| e@).push(
                to_entry(es[i as int], key@),
            ));
            assert(es.take(i + 1).map_values(|e: PublishEntryView| to_entry(e, key@)) =~= es.take(
                i as int,
            ).map_values(|e: PublishEntryView| to_entry(e, key@)).push(to_entry(es[i as int], key@)));
            assert(entries@.map_values(|e: Entry| e@) =~= es.take(i + 1).map_values(
                |e: PublishEntryView| to_entry(e, key@),
            ));
            assert(contents@.map_values(|d: Digest| d@) =~= release_digests(es.take(i + 1)));
            i = i + 1;
        }
        assert(es.take(i as int) =~= es);
        if inits > 1 {
            return Err(PublishError::MultipleInit);
        }
        if inits == 1 && head.is_some() {
            return Err(PublishError::InitWithHead);
        }
        Ok((UnsignedRecord { prev: head, version: PACKAGE_RECORD_VERSION, timestamp, entries }, contents))
    }
}

proof fn lemma_init_count_prefix(es: Seq<PublishEntryView>, k: int)
    requires
        0 <= k <= es.len(),
    ensures
        init_count(es.take(k)) <= init_count(es),
    decreases es.len() - k,
{
    if k < es.len() {
        assert(es.take(k + 1).drop_last() =~= es.take(k));
        lemma_init_count_prefix(es, k + 1);
    } else {
        assert(es.take(k) =~= es);
    }
}

/// The encoding of the record that queued entries assemble into, signed by
/// `private_key`, chained to `prev` and stamped with `timestamp`.
pub open spec fn assembled_bytes(
    es: Seq<PublishEntryView>,
    private_key: Seq<char>,
    prev: Option<DigestView>,
    timestamp: u64,
) -> Seq<u8> {
    record_bytes(
        prev,
        PACKAGE_RECORD_VERSION,
        timestamp,
        es.map_values(|e: PublishEntryView| to_entry(e, public_key_of(private_key))),
    )
}

/// The public key (in `<algorithm>:<base64>` form) of a private key given in
/// the same form.
pub uninterp spec fn public_key_of(private_key: Seq<char>) -> Seq<char>;

/// The signature (in `<algorithm>:<base64>` form) a private key makes of a
/// message.
pub uninterp spec fn signature_of(private_key: Seq<char>, msg: Seq<u8>) -> Seq<char>;

/// Whether a private key's text (`<algorithm>:<base64>`) decodes.
pub uninterp spec fn key_decodes(private_key: Seq<char>) -> bool;

/// Whether signing the message with the (decodable) private key succeeds.
pub uninterp spec fn signs(private_key: Seq<char>, msg: Seq<u8>) -> bool;

/// Relies on warg_crypto's `PrivateKey::decode` and `PrivateKey::public_key`,
/// shown through the public key's `Display`; `None` exactly when the key text
/// does not decode.
#[verifier::external_body]
fn public_key_text(private_key: &String) -> (r: Option<String>)
    ensures
        r.is_some() == key_decodes(private_key@),
        r matches Some(k) ==> k@ == public_key_of(private_key@),
{
    match warg_crypto::signing::PrivateKey::decode(private_key.clone()) {
        Ok(key) => Some(key.public_key().to_string()),
        Err(_) => None,
    }
}

/// Relies on warg_crypto's `PrivateKey::decode` and `PrivateKey::sign`
/// (ECDSA P-256 with deterministic nonces, RFC 6979), shown through the
/// signature's `Display`: the signature depends on the key and the message
/// alone, and verifies under the key's public key. `None` exactly when the
/// key text does not decode or signing fails.
#[verifier::external_body]
fn sign_text(private_key: &String, msg: &[u8]) -> (r: Option<String>)
    ensures
        r.is_some() == (key_decodes(private_key@) && signs(private_key@, msg@)),
        r matches Some(sig) ==> sig@ == signature_of(private_key@, msg@) && signature_valid(
            public_key_of(private_key@),
            msg@,
            sig@,
        ),
{
    match warg_crypto::signing::PrivateKey::decode(private_key.clone()) {
        Ok(key) => match key.sign(msg) {
            Ok(signature) => Some(signature.to_string()),
            Err(_) => None,
        },
        Err(_) => None,
    }
}

impl PublishInfo {
    /// Assembles the queued entries as `finalize` does, with the public key of
    /// `private_key` in an `Init`, then signs the record: its id is the digest
    /// of its encoding and its signature is made over that encoding. `Err` as
    /// in `finalize`; `Ok(None)` exactly when the key text does not decode or
    /// signing fails.
    pub fn finalize_signed(self, private_key: &String, head: Option<Digest>, timestamp: u64) -> (r: Result<
        Option<(Record, Vec<Digest>)>,
        PublishError,
    >)
        ensures
            init_count(self.entries_view()) > 1 ==> r == Err::<Option<(Record, Vec<Digest>)>, PublishError>(
                PublishError::MultipleInit,
            ),
            init_count(self.entries_view()) == 1 && head.is_some() ==> r == Err::<
                Option<(Record, Vec<Digest>)>,
                PublishError,
            >(PublishError::InitWithHead),
            r.is_err() ==> init_count(self.entries_view()) > 1 || (init_count(self.entries_view()) == 1
                && head.is_some()),
            r matches Ok(None) ==> !key_decodes(private_key@) || !signs(
                private_key@,
                assembled_bytes(self.entries_view(), private_key@, opt_view(head), timestamp),
            ),
            r.is_ok() && key_decodes(private_key@) && signs(
                private_key@,
                assembled_bytes(self.entries_view(), private_key@, opt_view(head), timestamp),
            ) ==> r matches Ok(Some(_)),
            r matches Ok(Some((rec, digests))) ==> {
                let key = public_key_of(private_key@);
                &&& rec@.prev == opt_view(head)
                &&& rec@.version == PACKAGE_RECORD_VERSION
                &&& rec@.timestamp == timestamp
                &&& signed_bytes(rec@) == assembled_bytes(
                    self.entries_view(),
                    private_key@,
                    opt_view(head),
                    timestamp,
                )
                &&& rec@.entries == self.entries_view().map_values(
                    |e: PublishEntryView| to_entry(e, key),
                )
                &&& digests@.map_values(|d: Digest| d@) == release_digests(self.entries_view())
                &&& rec@.id == digest_spec(signed_bytes(rec@))
                &&& rec@.signature == signature_of(private_key@, signed_bytes(rec@))
                &&& signature_valid(key, signed_bytes(rec@), rec@.signature)
            },
    {
        let key = match public_key_text(private_key) {
            Some(k) => k,
            None => {
                return match self.finalize(&String::new(), head, timestamp) {
                    Ok(_) => Ok(None),
                    Err(e) => Err(e),
                };
            },
        };
        let ghost es = self.entries_view();
        let (unsigned, digests) = match self.finalize(&key, head, timestamp) {
            Ok(x) => x,
            Err(e) => {
                return Err(e);
            },
        };
        let bytes = encode_record(&unsigned.prev, unsigned.version, unsigned.timestamp, &unsigned.entries);
        assert(bytes@ == assembled_bytes(es, private_key@, opt_view(head), timestamp));
        let signature = match sign_text(private_key, bytes.as_slice()) {
            Some(sig) => sig,
            None => {
                return Ok(None);
            },
        };
        let id = digest_of(bytes.as_slice());
        let rec = Record {
            id,
            prev: unsigned.prev,
            version: unsigned.version,
            timestamp: unsigned.timestamp,
            entries: unsigned.entries,
            signature,
        };
        Ok(Some((rec, digests)))
    }
}

} // verus!
