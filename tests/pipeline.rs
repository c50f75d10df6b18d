use warg_publish::api::{package_error, pending_response, record_error_message, reject_message, PackageError, PendingRecordResponse};
use warg_publish::content::{ContentError, ContentStore};
use warg_publish::coordinator::{
    advance, check_sources, ContentSource, PublishOutcome, PublishRequest, PublishStatus, RejectReason, Registry,
};
use warg_publish::digest::{digest_of, Digest, HashAlgorithm};
use warg_publish::encoding::encode_record;
use warg_publish::publish::{PublishEntry, PublishError, PublishInfo, PACKAGE_RECORD_VERSION};
use warg_publish::storage::PackageInfo;
use warg_crypto::signing::PrivateKey;
use warg_publish::validation::{Entry, Record, RecordError, Validator};

const BASE: &str = "https://registry.example/";
const STAMP: u64 = 1_700_000_000;

fn signing_key(n: u8) -> PrivateKey {
    PrivateKey::decode(key_text(n)).unwrap()
}

fn key_text(n: u8) -> String {
    let text = match n {
        1 => "ecdsa-p256:AQEBAQEBAQEBAQEBAQEBAQEBAQEBAQEBAQEBAQEBAQE=",
        _ => "ecdsa-p256:AgICAgICAgICAgICAgICAgICAgICAgICAgICAgICAgI=",
    };
    text.to_string()
}

fn public(key: &PrivateKey) -> String {
    key.public_key().to_string()
}

fn init_entry(key: &PrivateKey) -> Entry {
    Entry::Init { algorithm: HashAlgorithm::Sha256, key: public(key) }
}

fn release_entry(version: &str, content: &[u8]) -> Entry {
    Entry::Release { version: version.to_string(), content: digest_of(content) }
}

fn record(prev: Option<&Digest>, signer: &PrivateKey, entries: Vec<Entry>) -> Record {
    let prev = prev.map(|d| d.copy());
    let bytes = encode_record(&prev, PACKAGE_RECORD_VERSION, STAMP, &entries);
    let signature = signer.sign(&bytes).unwrap().to_string();
    Record { id: digest_of(&bytes), prev, version: PACKAGE_RECORD_VERSION, timestamp: STAMP, entries, signature }
}

fn request(name: &str, record: Record, content_sources: Vec<ContentSource>) -> PublishRequest {
    PublishRequest { name: name.to_string(), record, content_sources }
}

fn source(digest: &Digest, url: &str) -> ContentSource {
    ContentSource { digest: digest.copy(), url: url.to_string() }
}

#[test]
fn digest_is_deterministic() {
    let a = digest_of(b"hello world");
    let b = digest_of(b"hello world");
    assert!(a.same(&b));
    assert_eq!(a.bytes, b.bytes);
    assert!(!a.same(&digest_of(b"hello worle")));
}

#[test]
fn digest_of_empty_content_is_sha256() {
    let d = digest_of(b"");
    assert_eq!(d.algorithm, HashAlgorithm::Sha256);
    assert_eq!(d.bytes.len(), 32);
    assert_eq!(&d.bytes[..4], &[0xe3, 0xb0, 0xc4, 0x42]);
    assert_eq!(d.bytes[31], 0x55);
}

#[test]
fn store_with_expected_digest_then_load() {
    let mut store = ContentStore::new();
    let content = b"package bytes".to_vec();
    let expected = digest_of(&content);
    let d = store.store(content.clone(), Some(&expected)).unwrap();
    assert!(d.same(&expected));
    assert_eq!(store.load(&expected), Some(content));
    assert!(store.contains(&expected));
}

#[test]
fn store_without_expected_digest_returns_actual() {
    let mut store = ContentStore::new();
    let d = store.store(b"abc".to_vec(), None).unwrap();
    assert!(d.same(&digest_of(b"abc")));
    assert_eq!(store.load(&d), Some(b"abc".to_vec()));
}

#[test]
fn store_with_wrong_digest_leaves_nothing() {
    let mut store = ContentStore::new();
    let wrong = digest_of(b"other");
    let r = store.store(b"content".to_vec(), Some(&wrong));
    match r {
        Err(ContentError::DigestMismatch { expected, actual }) => {
            assert!(expected.same(&wrong));
            assert!(actual.same(&digest_of(b"content")));
        }
        Ok(_) => panic!("mismatch accepted"),
    }
    assert_eq!(store.load(&wrong), None);
    assert_eq!(store.load(&digest_of(b"content")), None);
}

#[test]
fn store_is_idempotent() {
    let mut store = ContentStore::new();
    let a = store.store(b"x".to_vec(), None).unwrap();
    let b = store.store(b"x".to_vec(), Some(&a)).unwrap();
    assert!(a.same(&b));
    assert_eq!(store.load(&a), Some(b"x".to_vec()));
}

#[test]
fn load_unknown_digest_is_absent() {
    let store = ContentStore::new();
    assert_eq!(store.load(&digest_of(b"missing")), None);
}

#[test]
fn foreign_content_host_is_rejected() {
    let d = digest_of(b"c");
    let sources = vec![
        source(&d, "https://registry.example/content/1"),
        source(&d, "https://elsewhere.example/content/1"),
        source(&d, "https://third.example/x"),
    ];
    match check_sources(&sources, &BASE.to_string()) {
        Err(RejectReason::ContentUrlInvalid { url }) => assert_eq!(url, "https://elsewhere.example/content/1"),
        other => panic!("unexpected {:?}", other),
    }
    let ok = vec![source(&d, "https://registry.example/content/1")];
    assert!(check_sources(&ok, &BASE.to_string()).is_ok());
    assert!(check_sources(&vec![], &BASE.to_string()).is_ok());
}

#[test]
fn finalize_rejects_extra_init() {
    let info = PublishInfo { package: "p".to_string(), entries: vec![PublishEntry::Init, PublishEntry::Init] };
    assert_eq!(info.finalize(&"ecdsa-p256:key".to_string(), None, STAMP).err(), Some(PublishError::MultipleInit));
    let info = PublishInfo { package: "p".to_string(), entries: vec![PublishEntry::Init] };
    assert_eq!(info.finalize(&"ecdsa-p256:key".to_string(), Some(digest_of(b"h")), STAMP).err(), Some(PublishError::InitWithHead));
}

#[test]
fn finalize_release_only_chains_to_head() {
    let d = digest_of(b"c");
    let info = PublishInfo {
        package: "p".to_string(),
        entries: vec![PublishEntry::Release { version: "2.0.0".to_string(), content: d.copy() }],
    };
    assert!(!info.initializing());
    let (unsigned, contents) = info.finalize(&"ecdsa-p256:key".to_string(), Some(digest_of(b"h")), STAMP).unwrap();
    assert!(unsigned.prev.unwrap().same(&digest_of(b"h")));
    assert_eq!(contents.len(), 1);
    assert!(matches!(&unsigned.entries[0], Entry::Release { version, .. } if version == "2.0.0"));
}

#[test]
fn package_error_from_string_and_messages() {
    let e = PackageError::from("boom".to_string());
    assert!(matches!(e, PackageError::Message { ref message } if message == "boom"));
    assert_eq!(record_error_message(RecordError::DuplicateVersion), "the version was already released");
    let e = package_error(&RejectReason::InvalidRecord { error: RecordError::HeadMismatch });
    assert!(matches!(e, PackageError::InvalidRecord { ref message } if message == "the record does not chain to the package's current head"));
    assert!(matches!(package_error(&RejectReason::CheckpointsExhausted), PackageError::Operation));
}

#[test]
fn package_info_starts_empty() {
    let info = PackageInfo::new("pkg".to_string());
    assert_eq!(info.name, "pkg");
    assert!(info.checkpoint.is_none());
    assert!(info.state.head().is_none());
}

#[test]
fn fetch_plan_lists_unheld_content() {
    let mut reg = Registry::new(BASE.to_string());
    let held = reg.upload(b"held".to_vec(), None).unwrap();
    let missing = digest_of(b"missing");
    let sources = vec![
        source(&held, "https://registry.example/held"),
        source(&missing, "https://registry.example/missing"),
    ];
    let plan = reg.fetch_plan(&sources).unwrap();
    assert_eq!(plan.len(), 1);
    assert_eq!(plan[0].url, "https://registry.example/missing");
    assert!(plan[0].digest.same(&missing));
    let foreign = vec![source(&missing, "https://other.example/missing")];
    assert!(matches!(reg.fetch_plan(&foreign), Err(RejectReason::ContentUrlInvalid { ref url }) if url == "https://other.example/missing"));
}

#[test]
fn status_done_is_absorbing() {
    let s = advance(PublishStatus::Processing, None);
    assert!(matches!(s, PublishStatus::Processing));
    let s = advance(s, Some(PublishOutcome::Published { checkpoint: 4 }));
    assert!(matches!(s, PublishStatus::Done { outcome: PublishOutcome::Published { checkpoint: 4 } }));
    let s = advance(s, Some(PublishOutcome::Rejected { reason: RejectReason::CheckpointsExhausted }));
    assert!(matches!(s, PublishStatus::Done { outcome: PublishOutcome::Published { checkpoint: 4 } }));
    let s = advance(s, None);
    assert!(matches!(s, PublishStatus::Done { outcome: PublishOutcome::Published { checkpoint: 4 } }));
}

#[test]
fn replay_rejects_duplicate_release() {
    let key = signing_key(1);
    let mut v = Validator::new();
    let r1 = record(None, &key, vec![init_entry(&key)]);
    assert!(v.apply(&r1).is_ok());
    let r2 = record(Some(&r1.id), &key, vec![release_entry("1.0.0", b"c1")]);
    assert!(v.apply(&r2).is_ok());
    let r3 = record(Some(&r2.id), &key, vec![release_entry("1.0.0", b"c1")]);
    assert_eq!(v.apply(&r3), Err(RecordError::DuplicateVersion));
    assert!(v.head().unwrap().same(&r2.id));
}

#[test]
fn replay_one_by_one_equals_batch() {
    let key = signing_key(1);
    let mut stepwise = Validator::new();
    let r1 = record(None, &key, vec![init_entry(&key)]);
    stepwise.apply(&r1).unwrap();
    stepwise.apply(&record(Some(&r1.id), &key, vec![release_entry("1.0.0", b"c1")])).unwrap();
    let mut batch = Validator::new();
    batch.apply(&record(None, &key, vec![init_entry(&key), release_entry("1.0.0", b"c1")])).unwrap();
    let version = "1.0.0".to_string();
    assert!(stepwise.is_released(&version) && batch.is_released(&version));
    assert!(stepwise.release_content(&version).unwrap().same(&batch.release_content(&version).unwrap()));
    assert!(!batch.is_released(&"2.0.0".to_string()));
}

#[test]
fn duplicate_version_within_one_record_is_rejected() {
    let key = signing_key(1);
    let mut v = Validator::new();
    let r = record(None, &key, vec![init_entry(&key), release_entry("1.0.0", b"a"), release_entry("1.0.0", b"b")]);
    assert_eq!(v.apply(&r), Err(RecordError::DuplicateVersion));
    assert!(v.head().is_none());
    assert!(!v.is_released(&"1.0.0".to_string()));
}

#[test]
fn record_errors_are_distinguished() {
    let key = signing_key(1);
    let other = signing_key(2);
    let mut v = Validator::new();
    assert_eq!(v.apply(&record(None, &key, vec![release_entry("1.0.0", b"a")])), Err(RecordError::FirstEntryNotInit));
    assert_eq!(v.apply(&record(None, &other, vec![init_entry(&key)])), Err(RecordError::InvalidSignature));
    let elsewhere = digest_of(b"x");
    assert_eq!(v.apply(&record(Some(&elsewhere), &key, vec![init_entry(&key)])), Err(RecordError::HeadMismatch));
    let r1 = record(None, &key, vec![init_entry(&key)]);
    v.apply(&r1).unwrap();
    assert_eq!(v.apply(&record(Some(&r1.id), &key, vec![init_entry(&key)])), Err(RecordError::InitNotFirst));
    assert_eq!(v.apply(&record(Some(&r1.id), &other, vec![])), Err(RecordError::InvalidSignature));
    assert!(v.head().unwrap().same(&r1.id));
}

#[test]
fn signature_covers_the_record() {
    let key = signing_key(1);
    let mut v = Validator::new();
    let r1 = record(None, &key, vec![init_entry(&key)]);
    v.apply(&r1).unwrap();
    // entries changed after signing: the id no longer matches
    let mut changed = record(Some(&r1.id), &key, vec![release_entry("1.0.0", b"a")]);
    changed.entries = vec![release_entry("9.9.9", b"evil")];
    assert_eq!(v.apply(&changed), Err(RecordError::IdMismatch));
    // id recomputed, old signature kept: the signature no longer verifies
    changed.id = digest_of(&encode_record(&changed.prev, changed.version, changed.timestamp, &changed.entries));
    assert_eq!(v.apply(&changed), Err(RecordError::InvalidSignature));
    // an id that is not the record's digest
    let mut renamed = record(Some(&r1.id), &key, vec![]);
    renamed.id = digest_of(b"chosen");
    assert_eq!(v.apply(&renamed), Err(RecordError::IdMismatch));
    assert!(!v.is_released(&"9.9.9".to_string()));
    assert!(v.apply(&record(Some(&r1.id), &key, vec![release_entry("1.0.0", b"a")])).is_ok());
}

#[test]
fn encoding_depends_on_prev_version_and_entries() {
    let a = encode_record(&None, 0, 0, &vec![release_entry("1.0.0", b"a")]);
    let b = encode_record(&None, 0, 0, &vec![release_entry("1.0.1", b"a")]);
    let c = encode_record(&Some(digest_of(b"p")), 0, 0, &vec![release_entry("1.0.0", b"a")]);
    let d = encode_record(&None, 1, 0, &vec![release_entry("1.0.0", b"a")]);
    let e = encode_record(&None, 0, 7, &vec![release_entry("1.0.0", b"a")]);
    assert!(a != b && a != c && a != d && a != e);
    assert_eq!(encode_record(&None, 0, 0, &vec![]), vec![0u8; 25]);
}

#[test]
fn concurrent_publishes_on_one_head() {
    let key = signing_key(1);
    let mut v = Validator::new();
    let r1 = record(None, &key, vec![init_entry(&key)]);
    v.apply(&r1).unwrap();
    let a = record(Some(&r1.id), &key, vec![release_entry("1.0.0", b"a")]);
    let b = record(Some(&r1.id), &key, vec![release_entry("2.0.0", b"b")]);
    assert!(v.apply(&a).is_ok());
    assert_eq!(v.apply(&b), Err(RecordError::HeadMismatch));
    assert!(!v.is_released(&"2.0.0".to_string()));
}

#[test]
fn submit_with_foreign_source_is_rejected() {
    let mut reg = Registry::new(BASE.to_string());
    let key = signing_key(1);
    let d = reg.upload(b"c".to_vec(), None).unwrap();
    let r = record(None, &key, vec![init_entry(&key), release_entry("1.0.0", b"c")]);
    let (_, outcome) = reg.submit(request("pkg", r, vec![source(&d, "http://evil.example/c")]));
    match outcome {
        PublishOutcome::Rejected { reason } => {
            assert!(matches!(package_error(&reason), PackageError::ContentUrlInvalid { ref url } if url == "http://evil.example/c"));
        }
        _ => panic!("accepted a foreign content source"),
    }
    assert!(reg.head(&"pkg".to_string()).is_none());
    let lookalike = vec![source(&d, "https://registry.example.evil.com/c")];
    let r = record(None, &key, vec![init_entry(&key)]);
    assert!(matches!(reg.submit(request("pkg", r, lookalike)).1, PublishOutcome::Rejected { .. }));
}

#[test]
fn end_to_end_publish() {
    let mut reg = Registry::new(BASE.to_string());
    let signer = signing_key(1);
    let key = public(&signer);
    let content = b"component bytes".to_vec();
    let d = digest_of(&content);
    let info = PublishInfo {
        package: "example:pkg".to_string(),
        entries: vec![PublishEntry::Init, PublishEntry::Release { version: "1.0.0".to_string(), content: d.copy() }],
    };
    assert!(info.initializing());
    let (unsigned, contents) = info.finalize(&key, None, STAMP).unwrap();
    assert_eq!(contents.len(), 1);
    assert!(contents[0].same(&d));
    assert!(unsigned.prev.is_none());
    assert_eq!(unsigned.version, PACKAGE_RECORD_VERSION);
    assert!(matches!(&unsigned.entries[0], Entry::Init { key: k, .. } if *k == key));
    reg.upload(content.clone(), Some(&d)).unwrap();
    assert_eq!(unsigned.timestamp, STAMP);
    let bytes = encode_record(&unsigned.prev, unsigned.version, unsigned.timestamp, &unsigned.entries);
    let signature = signer.sign(&bytes).unwrap().to_string();
    let id = digest_of(&bytes);
    let info = PublishInfo {
        package: "example:pkg".to_string(),
        entries: vec![PublishEntry::Init, PublishEntry::Release { version: "1.0.0".to_string(), content: d.copy() }],
    };
    let (rec, digests) = info.finalize_signed(&key_text(1), None, STAMP).unwrap().unwrap();
    assert!(rec.id.same(&id));
    assert_eq!(rec.signature, signature);
    assert_eq!(digests.len(), 1);
    assert!(digests[0].same(&d));
    let url = "https://registry.example/content/sha256-abc".to_string();
    let name = "example:pkg".to_string();
    let (handle, outcome) = reg.submit(request(&name, rec, vec![source(&d, &url)]));
    assert_eq!(handle, 0);
    assert!(matches!(outcome, PublishOutcome::Published { checkpoint: 1 }));
    assert!(reg.head(&name).unwrap().same(&id));
    let response = reg.fetch_record(&name, &id).unwrap();
    assert!(response.record.id.same(&id));
    assert_eq!(response.record.signature, signature);
    assert_eq!(response.record.entries.len(), 2);
    assert!(matches!(&response.record.entries[1], Entry::Release { version, content } if version == "1.0.0" && content.same(&d)));
    assert_eq!(response.content_sources.len(), 1);
    assert_eq!(response.content_sources[0].url, url);
    assert!(response.content_sources[0].digest.same(&d));
    assert_eq!(response.checkpoint, 1);
    assert!(reg.fetch_record(&name, &digest_of(b"unknown")).is_none());
    assert!(reg.fetch_record(&"other".to_string(), &id).is_none());
    assert_eq!(reg.load_content(&d), Some(content));
}

#[test]
fn missing_content_is_rejected_and_state_kept() {
    let mut reg = Registry::new(BASE.to_string());
    let key = signing_key(1);
    let name = "pkg".to_string();
    let r1 = record(None, &key, vec![init_entry(&key)]);
    let id1 = r1.id.copy();
    let (_, first) = reg.submit(request(&name, r1, vec![]));
    assert!(matches!(first, PublishOutcome::Published { checkpoint: 1 }));
    let d = digest_of(b"never uploaded");
    let r = record(Some(&id1), &key, vec![release_entry("1.0.0", b"never uploaded")]);
    let id2 = r.id.copy();
    let (handle, outcome) = reg.submit(request(&name, r, vec![source(&d, "https://registry.example/c")]));
    assert_eq!(handle, 1);
    match outcome {
        PublishOutcome::Rejected { reason } => match package_error(&reason) {
            PackageError::FailedToFetchContent { message } => {
                assert!(message.starts_with("no content with digest sha256:"));
                assert_eq!(message.len(), "no content with digest sha256:".len() + 64);
            }
            other => panic!("unexpected {:?}", other),
        },
        _ => panic!("published without content"),
    }
    assert!(reg.head(&name).unwrap().same(&id1));
    assert!(reg.fetch_record(&name, &id2).is_none());
}

#[test]
fn polling_a_terminal_outcome_is_stable() {
    let mut reg = Registry::new(BASE.to_string());
    let key = signing_key(1);
    let name = "pkg".to_string();
    let (h, _) = reg.submit(request(&name, record(None, &key, vec![init_entry(&key)]), vec![]));
    for _ in 0..3 {
        assert!(matches!(reg.poll(h), Some(PublishStatus::Done { outcome: PublishOutcome::Published { checkpoint: 1 } })));
    }
    let second = record(None, &key, vec![init_entry(&key)]);
    let (h2, _) = reg.submit(request(&name, second, vec![]));
    assert!(matches!(reg.poll(h), Some(PublishStatus::Done { outcome: PublishOutcome::Published { checkpoint: 1 } })));
    for _ in 0..3 {
        assert!(matches!(
            reg.poll(h2),
            Some(PublishStatus::Done {
                outcome: PublishOutcome::Rejected { reason: RejectReason::InvalidRecord { error: RecordError::HeadMismatch } }
            })
        ));
    }
    assert!(reg.poll(7).is_none());
}

#[test]
fn processing_publish_finishes_after_upload() {
    let mut reg = Registry::new(BASE.to_string());
    let key = signing_key(1);
    let name = "pkg".to_string();
    let content = b"fetched later".to_vec();
    let d = digest_of(&content);
    let sources = vec![source(&d, "https://registry.example/c")];
    assert_eq!(reg.fetch_plan(&sources).unwrap().len(), 1);
    let r = record(None, &key, vec![init_entry(&key), release_entry("1.0.0", b"fetched later")]);
    let id = r.id.copy();
    let (h, status) = reg.begin(request(&name, r, sources));
    assert_eq!(h, 0);
    assert!(matches!(status, PublishStatus::Processing));
    assert!(matches!(reg.poll(h), Some(PublishStatus::Processing)));
    reg.upload(content, Some(&d)).unwrap();
    let outcome = reg.finish(h);
    assert!(matches!(outcome, Some(PublishOutcome::Published { checkpoint: 1 })));
    for _ in 0..3 {
        assert!(matches!(reg.poll(h), Some(PublishStatus::Done { outcome: PublishOutcome::Published { checkpoint: 1 } })));
    }
    assert_eq!(reg.fetch_record(&name, &id).unwrap().checkpoint, 1);
    assert!(reg.finish(h).is_none());
    assert!(reg.head(&name).unwrap().same(&id));
    assert!(reg.finish(9).is_none());
}

#[test]
fn processing_publish_rejected_when_fetch_failed() {
    let mut reg = Registry::new(BASE.to_string());
    let key = signing_key(1);
    let name = "pkg".to_string();
    let d = digest_of(b"unreachable");
    let sources = vec![source(&d, "https://registry.example/u")];
    let r = record(None, &key, vec![init_entry(&key), release_entry("1.0.0", b"unreachable")]);
    let (h, _) = reg.begin(request(&name, r, sources));
    match reg.finish(h) {
        Some(PublishOutcome::Rejected { reason: RejectReason::ContentMissing { digest } }) => assert!(digest.same(&d)),
        other => panic!("unexpected {:?}", other),
    }
    assert!(reg.head(&name).is_none());
    assert!(matches!(reg.poll(h), Some(PublishStatus::Done { outcome: PublishOutcome::Rejected { .. } })));
}

#[test]
fn begin_rejects_foreign_source_at_once() {
    let mut reg = Registry::new(BASE.to_string());
    let d = digest_of(b"x");
    let r = record(None, &signing_key(1), vec![init_entry(&signing_key(1))]);
    let (h, status) = reg.begin(request("p", r, vec![source(&d, "https://mirror.example/x")]));
    assert!(matches!(
        status,
        PublishStatus::Done { outcome: PublishOutcome::Rejected { reason: RejectReason::ContentUrlInvalid { .. } } }
    ));
    assert!(reg.finish(h).is_none());
    assert!(reg.head(&"p".to_string()).is_none());
}

#[test]
fn missing_content_message_names_the_digest() {
    let e = package_error(&RejectReason::ContentMissing { digest: digest_of(b"") });
    match e {
        PackageError::FailedToFetchContent { message } => assert_eq!(
            message,
            "no content with digest sha256:e3b0c44298fc1c149afbf4c8996fb92427ae41e4649b934ca495991b7852b855"
        ),
        other => panic!("unexpected {:?}", other),
    }
}

#[test]
fn finalize_signed_errors_and_bad_keys() {
    let two_inits = PublishInfo { package: "p".to_string(), entries: vec![PublishEntry::Init, PublishEntry::Init] };
    assert_eq!(two_inits.finalize_signed(&key_text(1), None, STAMP).err(), Some(PublishError::MultipleInit));
    let one_init = PublishInfo { package: "p".to_string(), entries: vec![PublishEntry::Init] };
    assert!(matches!(one_init.finalize_signed(&"not a key".to_string(), None, STAMP), Ok(None)));
    let release = PublishInfo {
        package: "p".to_string(),
        entries: vec![PublishEntry::Release { version: "1.0.0".to_string(), content: digest_of(b"c") }],
    };
    let head = digest_of(b"h");
    let (rec, _) = release.finalize_signed(&key_text(2), Some(head.copy()), 42).unwrap().unwrap();
    assert_eq!(rec.timestamp, 42);
    assert!(rec.prev.unwrap().same(&head));
    assert_eq!(rec.version, PACKAGE_RECORD_VERSION);
    assert!(rec.id.same(&digest_of(&encode_record(&Some(head), rec.version, 42, &rec.entries))));
}

#[test]
fn changed_timestamp_is_refused() {
    let key = signing_key(1);
    let mut v = Validator::new();
    let mut r = record(None, &key, vec![init_entry(&key)]);
    r.timestamp = STAMP + 1;
    assert_eq!(v.apply(&r), Err(RecordError::IdMismatch));
    r.id = digest_of(&encode_record(&r.prev, r.version, r.timestamp, &r.entries));
    assert_eq!(v.apply(&r), Err(RecordError::InvalidSignature));
}

#[test]
fn pending_responses_report_status() {
    let processing = pending_response(&PublishStatus::Processing, "r".to_string(), "s".to_string());
    assert!(matches!(processing, PendingRecordResponse::Processing { ref status_url } if status_url == "s"));
    let published = pending_response(
        &PublishStatus::Done { outcome: PublishOutcome::Published { checkpoint: 3 } },
        "r".to_string(),
        "s".to_string(),
    );
    assert!(matches!(published, PendingRecordResponse::Published { ref record_url } if record_url == "r"));
    let missing = PublishStatus::Done {
        outcome: PublishOutcome::Rejected { reason: RejectReason::ContentMissing { digest: digest_of(b"") } },
    };
    match pending_response(&missing, "r".to_string(), "s".to_string()) {
        PendingRecordResponse::Rejected { reason } => assert_eq!(
            reason,
            "failed to fetch content: no content with digest sha256:e3b0c44298fc1c149afbf4c8996fb92427ae41e4649b934ca495991b7852b855"
        ),
        other => panic!("unexpected {:?}", other),
    }
    assert_eq!(
        reject_message(&RejectReason::ContentUrlInvalid { url: "https://x.example/c".to_string() }),
        "content source `https://x.example/c` is not from the current host"
    );
    assert_eq!(
        reject_message(&RejectReason::InvalidRecord { error: RecordError::HeadMismatch }),
        "invalid record: the record does not chain to the package's current head"
    );
    assert_eq!(
        reject_message(&RejectReason::CheckpointsExhausted),
        "an error occurred while performing the requested operation"
    );
}
