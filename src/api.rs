//! Responses and errors of the package API.
use vstd::prelude::*;
use vstd::string::*;
use crate::coordinator::{
    PublishOutcome, PublishOutcomeView, PublishStatus, PublishStatusView, RejectReason,
    RejectReasonView,
};
use crate::digest::{Digest, HashAlgorithm};
use crate::validation::RecordError;

verus! {

/// The state of a submitted record as the API reports it.
#[derive(Debug)]
pub enum PendingRecordResponse {
    /// The record has been published.
    Published { record_url: String },
    /// The record has been rejected.
    Rejected { reason: String },
    /// The record is still being processed.
    Processing { status_url: String },
}

/// An error of the package API; each kind has its own tag.
#[derive(Debug)]
pub enum PackageError {
    InvalidPackageId { message: String },
    InvalidRecordId { message: String },
    InvalidRecord { message: String },
    PackageIdNotFound { log_id: Digest },
    PackageNotFound { name: String },
    PackageRecordNotFound { id: Digest },
    FailedToFetchContent { message: String },
    ContentFetchErrorResponse { status_code: u16 },
    ContentUrlInvalid { url: String },
    Operation,
    Message { message: String },
}

impl From<String> for PackageError {
    fn from(message: String) -> (r: PackageError) {
        PackageError::Message { message }
    }
}

impl vstd::std_specs::convert::FromSpecImpl<String> for PackageError {
    open spec fn obeys_from_spec() -> bool {
        true
    }

    open spec fn from_spec(message: String) -> PackageError {
        PackageError::Message { message }
    }
}

/// The lowercase hexadecimal digit of a value below 16.
pub open spec fn hex_digit(n: u8) -> char {
    "0123456789abcdef"@[n as int]
}

/// Two lowercase hexadecimal digits per byte, most significant first.
pub open spec fn hex_of(b: Seq<u8>) -> Seq<char>
    decreases b.len(),
{
    if b.len() == 0 {
        Seq::empty()
    } else {
        hex_of(b.drop_last()) + seq![hex_digit(b.last() / 16), hex_digit(b.last() % 16)]
    }
}

/// The text of a SHA-256 digest: `sha256:` and the hash in lowercase hex.
pub open spec fn hash_text(bytes: Seq<u8>) -> Seq<char> {
    "sha256:"@ + hex_of(bytes)
}

/// Relies on the `Display` of warg_crypto's `AnyHash`: the algorithm's name,
/// `:`, and the bytes through `hex::encode` (lowercase, two digits a byte).
#[verifier::external_body]
fn digest_text(d: &Digest) -> (r: String)
    ensures
        r@ == hash_text(d.bytes@),
{
    let algorithm = match d.algorithm {
        HashAlgorithm::Sha256 => warg_crypto::hash::HashAlgorithm::Sha256,
    };
    warg_crypto::hash::AnyHash::new(algorithm, d.bytes.clone()).to_string()
}

/// The message that describes a record error.
pub open spec fn record_error_text(e: RecordError) -> Seq<char> {
    match e {
        RecordError::HeadMismatch => "the record does not chain to the package's current head"@,
        RecordError::IdMismatch => "the record id is not the digest of the record"@,
        RecordError::RecordIdReused => "the record id is the package's current head"@,
        RecordError::FirstEntryNotInit => "the first record of a package must start with an init entry"@,
        RecordError::InvalidSignature => "the record signature does not verify against the package key"@,
        RecordError::InitNotFirst => "the package is already initialized"@,
        RecordError::ReleaseBeforeInit => "a release must follow the package init"@,
        RecordError::DuplicateVersion => "the version was already released"@,
    }
}

/// The message that describes a record error.
pub fn record_error_message(e: RecordError) -> (r: String)
    ensures
        r@ == record_error_text(e),
{
    match e {
        RecordError::HeadMismatch => String::from_str("the record does not chain to the package's current head"),
        RecordError::IdMismatch => String::from_str("the record id is not the digest of the record"),
        RecordError::RecordIdReused => String::from_str("the record id is the package's current head"),
        RecordError::FirstEntryNotInit => String::from_str("the first record of a package must start with an init entry"),
        RecordError::InvalidSignature => String::from_str("the record signature does not verify against the package key"),
        RecordError::InitNotFirst => String::from_str("the package is already initialized"),
        RecordError::ReleaseBeforeInit => String::from_str("a release must follow the package init"),
        RecordError::DuplicateVersion => String::from_str("the version was already released"),
    }
}

/// The API error that reports a rejected publish: a foreign content source
/// keeps its URL, missing content names its digest, an invalid record says
/// which rule it breaks, and anything else is a generic operation failure.
pub fn package_error(reason: &RejectReason) -> (r: PackageError)
    ensures
        match reason@ {
            RejectReasonView::ContentUrlInvalid { url } => r matches PackageError::ContentUrlInvalid { url: u } && u@ == url,
            RejectReasonView::ContentMissing { digest } => r matches PackageError::FailedToFetchContent { message } && message@ == "no content with digest "@ + hash_text(digest.bytes),
            RejectReasonView::InvalidRecord { error } => r matches PackageError::InvalidRecord { message } && message@ == record_error_text(error),
            RejectReasonView::CheckpointsExhausted => r is Operation,
        },
{
    match reason {
        RejectReason::ContentUrlInvalid { url } => PackageError::ContentUrlInvalid { url: url.clone() },
        RejectReason::ContentMissing { digest } => {
            let text = digest_text(digest);
            let message = String::from_str("no content with digest ").concat(text.as_str());
            PackageError::FailedToFetchContent { message }
        },
        RejectReason::InvalidRecord { error } => PackageError::InvalidRecord {
            message: record_error_message(*error),
        },
        RejectReason::CheckpointsExhausted => PackageError::Operation,
    }
}

/// The reason a rejected publish reports.
pub open spec fn reject_text(reason: RejectReasonView) -> Seq<char> {
    match reason {
        RejectReasonView::ContentUrlInvalid { url } => "content source `"@ + url
            + "` is not from the current host"@,
        RejectReasonView::ContentMissing { digest } => "failed to fetch content: no content with digest "@
            + hash_text(digest.bytes),
        RejectReasonView::InvalidRecord { error } => "invalid record: "@ + record_error_text(error),
        RejectReasonView::CheckpointsExhausted => "an error occurred while performing the requested operation"@,
    }
}

/// The reason a rejected publish reports.
pub fn reject_message(reason: &RejectReason) -> (r: String)
    ensures
        r@ == reject_text(reason@),
{
    match reason {
        RejectReason::ContentUrlInvalid { url } => String::from_str("content source `").concat(
            url.as_str(),
        ).concat("` is not from the current host"),
        RejectReason::ContentMissing { digest } => {
            let text = digest_text(digest);
            String::from_str("failed to fetch content: no content with digest ").concat(text.as_str())
        },
        RejectReason::InvalidRecord { error } => {
            let text = record_error_message(*error);
            String::from_str("invalid record: ").concat(text.as_str())
        },
        RejectReason::CheckpointsExhausted => String::from_str(
            "an error occurred while performing the requested operation",
        ),
    }
}

/// What the API reports for a publish: `Processing` with the URL to poll,
/// `Published` with the record's URL, or `Rejected` with the reason.
pub fn pending_response(status: &PublishStatus, record_url: String, status_url: String) -> (r:
    PendingRecordResponse)
    ensures
        match status@ {
            PublishStatusView::Processing => r matches PendingRecordResponse::Processing { status_url: u }
                && u@ == status_url@,
            PublishStatusView::Done { outcome: PublishOutcomeView::Published { .. } } => r matches PendingRecordResponse::Published { record_url: u }
                && u@ == record_url@,
            PublishStatusView::Done { outcome: PublishOutcomeView::Rejected { reason } } => r matches PendingRecordResponse::Rejected { reason: t }
                && t@ == reject_text(reason),
        },
{
    match status {
        PublishStatus::Processing => PendingRecordResponse::Processing { status_url },
        PublishStatus::Done { outcome: PublishOutcome::Published { .. } } => PendingRecordResponse::Published {
            record_url,
        },
        PublishStatus::Done { outcome: PublishOutcome::Rejected { reason } } => PendingRecordResponse::Rejected {
            reason: reject_message(reason),
        },
    }
}

} // verus!
