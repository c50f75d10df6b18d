//! An in-memory content store addressed by digest.
use vstd::prelude::*;
use crate::digest::{Digest, DigestView, digest_of, digest_spec};

verus! {

/// Errors of the content store.
#[derive(Debug)]
pub enum ContentError {
    /// The content does not hash to the digest the caller declared.
    DigestMismatch { expected: Digest, actual: Digest },
}

/// The content held under a digest: the last pair whose digest matches.
pub open spec fn lookup(s: Seq<(DigestView, Seq<u8>)>, d: DigestView) -> Option<Seq<u8>>
    decreases s.len(),
{
    if s.len() == 0 {
        None
    } else if s.last().0 == d {
        Some(s.last().1)
    } else {
        lookup(s.drop_last(), d)
    }
}

/// The store's pairs after a successful write of `c`: unchanged when something
/// is already held under its digest, else one more pair.
pub open spec fn stored(s: Seq<(DigestView, Seq<u8>)>, c: Seq<u8>) -> Seq<(DigestView, Seq<u8>)> {
    if lookup(s, digest_spec(c)).is_some() {
        s
    } else {
        s.push((digest_spec(c), c))
    }
}

/// Content persisted by digest.
pub struct ContentStore {
    entries: Vec<(Digest, Vec<u8>)>,
}

impl View for ContentStore {
    type V = Seq<(DigestView, Seq<u8>)>;

    closed spec fn view(&self) -> Seq<(DigestView, Seq<u8>)> {
        self.entries@.map_values(|e: (Digest, Vec<u8>)| (e.0@, e.1@))
    }
}

impl ContentStore {
    /// Every pair is addressed by the digest of its content.
    pub open spec fn wf(&self) -> bool {
        forall|i: int| 0 <= i < self@.len() ==> #[trigger] self@[i].0 == digest_spec(self@[i].1)
    }

    /// An empty store.
    pub fn new() -> (r: ContentStore)
        ensures
            r.wf(),
            r@.len() == 0,
    {
        let r = ContentStore { entries: Vec::new() };
        assert(r@ =~= Seq::empty());
        r
    }

    fn find(&self, digest: &Digest) -> (r: Option<usize>)
        requires
            self.wf(),
        ensures
            r.is_none() ==> lookup(self@, digest@).is_none(),
            r.is_some() ==> r.unwrap() < self@.len() && lookup(self@, digest@) == Some(
                self@[r.unwrap() as int].1,
            ) && self@[r.unwrap() as int].0 == digest@,
    {
        let mut i: usize = self.entries.len();
        assert(self@.take(i as int) =~= self@);
        while i > 0
            invariant
                i <= self.entries@.len(),
                self@.len() == self.entries@.len(),
                lookup(self@, digest@) == lookup(self@.take(i as int), digest@),
            decreases i,
        {
            let ghost pre = self@.take(i as int);
            assert(pre.drop_last() =~= self@.take(i - 1));
            assert(pre.last() == self@[i - 1]);
            if self.entries[i - 1].0.same(digest) {
                return Some(i - 1);
            }
            i = i - 1;
        }
        assert(self@.take(0) =~= Seq::<(DigestView, Seq<u8>)>::empty());
        None
    }

    /// Whether content is held under the digest.
    pub fn contains(&self, digest: &Digest) -> (r: bool)
        requires
            self.wf(),
        ensures
            r == lookup(self@, digest@).is_some(),
    {
        self.find(digest).is_some()
    }

    /// The content held under the digest, or `None` when the digest is unknown.
    pub fn load(&self, digest: &Digest) -> (r: Option<Vec<u8>>)
        requires
            self.wf(),
        ensures
            r.is_none() == lookup(self@, digest@).is_none(),
            r.is_some() ==> Some(r.unwrap()@) == lookup(self@, digest@) && digest_spec(
                r.unwrap()@,
            ) == digest@,
    {
        match self.find(digest) {
            None => None,
            Some(i) => {
                assert(self@[i as int].0 == digest_spec(self@[i as int].1));
                Some(self.entries[i].1.clone())
            },
        }
    }

    /// Persists `content`. When `expected` is given and the content's digest
    /// differs from it, fails and leaves the store unchanged. Writing content
    /// that is already held is a successful no-op.
    pub fn store(&mut self, content: Vec<u8>, expected: Option<&Digest>) -> (r: Result<
        Digest,
        ContentError,
    >)
        requires
            old(self).wf(),
        ensures
            final(self).wf(),
            r.is_err() == (expected.is_some() && expected.unwrap()@ != digest_spec(content@)),
            r.is_ok() ==> r.unwrap()@ == digest_spec(content@) && final(self)@ == stored(
                old(self)@,
                content@,
            ),
            r.is_err() ==> final(self)@ == old(self)@,
            r.is_err() ==> forall|d: DigestView| #[trigger] lookup(final(self)@, d) == lookup(
                old(self)@,
                d,
            ),
            match r {
                Err(ContentError::DigestMismatch { expected: e, actual: a }) => e@
                    == expected.unwrap()@ && a@ == digest_spec(content@),
                _ => true,
            },
    {
        let actual = digest_of(content.as_slice());
        if let Some(e) = expected {
            if !e.same(&actual) {
                return Err(ContentError::DigestMismatch { expected: e.copy(), actual });
            }
        }
        if self.find(&actual).is_none() {
            let key = actual.copy();
            self.entries.push((key, content));
            assert(self@ =~= old(self)@.push((digest_spec(content@), content@)));
        }
        Ok(actual)
    }
}

/// After a successful write of `c`, loading its digest gives `c` back, unless
/// different content with the same digest was held before.
pub proof fn lemma_store_then_load(s: Seq<(DigestView, Seq<u8>)>, c: Seq<u8>)
    requires
        lookup(s, digest_spec(c)).is_none() || lookup(s, digest_spec(c)) == Some(c),
    ensures
        lookup(stored(s, c), digest_spec(c)) == Some(c),
{
    assert(s.push((digest_spec(c), c)).last() == (digest_spec(c), c));
}

} // verus!
