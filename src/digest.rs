//! Content digests: an algorithm tag and the bytes the algorithm produced.
use vstd::prelude::*;

verus! {

/// The hash algorithms a digest may be computed with.
#[derive(Clone, Copy, Debug, PartialEq, Eq, Structural)]
pub enum HashAlgorithm {
    Sha256,
}

/// A digest: an algorithm tag plus the bytes of the hash value.
#[derive(Debug)]
pub struct Digest {
    pub algorithm: HashAlgorithm,
    pub bytes: Vec<u8>,
}

/// The mathematical value of a digest.
pub struct DigestView {
    pub algorithm: HashAlgorithm,
    pub bytes: Seq<u8>,
}

impl View for Digest {
    type V = DigestView;

    open spec fn view(&self) -> DigestView {
        DigestView { algorithm: self.algorithm, bytes: self.bytes@ }
    }
}

/// What SHA-256 yields on the given bytes.
pub uninterp spec fn sha256_of(content: Seq<u8>) -> Seq<u8>;

/// The digest that identifies the given content.
pub open spec fn digest_spec(content: Seq<u8>) -> DigestView {
    DigestView { algorithm: HashAlgorithm::Sha256, bytes: sha256_of(content) }
}

/// Relies on warg_crypto's `HashAlgorithm::digest` for SHA-256: the hash bytes
/// depend on the content alone.
#[verifier::external_body]
fn sha256_bytes(content: &[u8]) -> (r: Vec<u8>)
    ensures
        r@ == sha256_of(content@),
{
    let hash = warg_crypto::hash::HashAlgorithm::Sha256.digest(content);
    hash.bytes().to_vec()
}

/// Computes the digest of the given content.
pub fn digest_of(content: &[u8]) -> (r: Digest)
    ensures
        r@ == digest_spec(content@),
{
    Digest { algorithm: HashAlgorithm::Sha256, bytes: sha256_bytes(content) }
}

/// Compares two byte sequences element by element.
pub fn bytes_equal(a: &Vec<u8>, b: &Vec<u8>) -> (r: bool)
    ensures
        r == (a@ == b@),
{
    if a.len() != b.len() {
        return false;
    }
    let mut i: usize = 0;
    while i < a.len()
        invariant
            a@.len() == b@.len(),
            0 <= i <= a@.len(),
            forall|j: int| 0 <= j < i ==> a@[j] == b@[j],
        decreases a@.len() - i,
    {
        if a[i] != b[i] {
            return false;
        }
        i = i + 1;
    }
    assert(a@ =~= b@);
    true
}

impl Digest {
    /// Exact comparison: same algorithm and same bytes.
    pub fn same(&self, other: &Digest) -> (r: bool)
        ensures
            r == (self@ == other@),
    {
        let eq_bytes = bytes_equal(&self.bytes, &other.bytes);
        eq_bytes && self.algorithm == other.algorithm
    }

    /// A copy of the digest.
    pub fn copy(&self) -> (r: Digest)
        ensures
            r@ == self@,
    {
        Digest { algorithm: self.algorithm, bytes: self.bytes.clone() }
    }
}

/// Computing the digest of the same content twice gives the same digest.
pub proof fn lemma_digest_deterministic(a: Seq<u8>, b: Seq<u8>)
    requires
        a == b,
    ensures
        digest_spec(a) == digest_spec(b),
{
}

} // verus!
