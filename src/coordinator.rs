//! Server side of a publish: content checks, record append and publish status.
use vstd::prelude::*;
use crate::content::{ContentError, ContentStore, lookup};
use crate::digest::{Digest, DigestView};
use crate::validation::{
    EntryView, Record, RecordError, RecordView, Validator, ValidatorView, apply_record,
    empty_state,
};

verus! {

/// Where a record's content can be fetched from, with the digest it claims.
#[derive(Debug)]
pub struct ContentSource {
    pub digest: Digest,
    pub url: String,
}

pub struct ContentSourceView {
    pub digest: DigestView,
    pub url: Seq<char>,
}

impl View for ContentSource {
    type V = ContentSourceView;

    open spec fn view(&self) -> ContentSourceView {
        ContentSourceView { digest: self.digest@, url: self.url@ }
    }
}

impl ContentSource {
    /// A copy of the content source.
    pub fn copy(&self) -> (r: ContentSource)
        ensures
            r@ == self@,
    {
        ContentSource { digest: self.digest.copy(), url: self.url.clone() }
    }
}

/// Why a publish was rejected.
#[derive(Debug)]
pub enum RejectReason {
    /// A content source is not served by the registry's own content host.
    ContentUrlInvalid { url: String },
    /// Content the record references could not be found.
    ContentMissing { digest: Digest },
    /// The record cannot be appended to the package log.
    InvalidRecord { error: RecordError },
    /// The registry cannot issue another checkpoint.
    CheckpointsExhausted,
}

pub enum RejectReasonView {
    ContentUrlInvalid { url: Seq<char> },
    ContentMissing { digest: DigestView },
    InvalidRecord { error: RecordError },
    CheckpointsExhausted,
}

impl View for RejectReason {
    type V = RejectReasonView;

    open spec fn view(&self) -> RejectReasonView {
        match self {
            RejectReason::ContentUrlInvalid { url } => RejectReasonView::ContentUrlInvalid {
                url: url@,
            },
            RejectReason::ContentMissing { digest } => RejectReasonView::ContentMissing {
                digest: digest@,
            },
            RejectReason::InvalidRecord { error } => RejectReasonView::InvalidRecord {
                error: *error,
            },
            RejectReason::CheckpointsExhausted => RejectReasonView::CheckpointsExhausted,
        }
    }
}

/// The terminal result of a publish.
#[derive(Debug)]
pub enum PublishOutcome {
    /// The record was appended under the given checkpoint.
    Published { checkpoint: u64 },
    /// The record was not appended.
    Rejected { reason: RejectReason },
}

pub enum PublishOutcomeView {
    Published { checkpoint: u64 },
    Rejected { reason: RejectReasonView },
}

impl View for PublishOutcome {
    type V = PublishOutcomeView;

    open spec fn view(&self) -> PublishOutcomeView {
        match self {
            PublishOutcome::Published { checkpoint } => PublishOutcomeView::Published {
                checkpoint: *checkpoint,
            },
            PublishOutcome::Rejected { reason } => PublishOutcomeView::Rejected {
                reason: reason@,
            },
        }
    }
}

impl RejectReason {
    /// A copy of the reason.
    pub fn copy(&self) -> (r: RejectReason)
        ensures
            r@ == self@,
    {
        match self {
            RejectReason::ContentUrlInvalid { url } => RejectReason::ContentUrlInvalid {
                url: url.clone(),
            },
            RejectReason::ContentMissing { digest } => RejectReason::ContentMissing {
                digest: digest.copy(),
            },
            RejectReason::InvalidRecord { error } => RejectReason::InvalidRecord { error: *error },
            RejectReason::CheckpointsExhausted => RejectReason::CheckpointsExhausted,
        }
    }
}

impl PublishOutcome {
    /// A copy of the outcome.
    pub fn copy(&self) -> (r: PublishOutcome)
        ensures
            r@ == self@,
    {
        match self {
            PublishOutcome::Published { checkpoint } => PublishOutcome::Published {
                checkpoint: *checkpoint,
            },
            PublishOutcome::Rejected { reason } => PublishOutcome::Rejected { reason: reason.copy() },
        }
    }
}

/// Whether `url` is served under the registry's content base `base`
/// (scheme and host, ending in `/`). A base that does not end in `/` serves
/// nothing: `https://registry.example` would otherwise admit
/// `https://registry.example.evil.com/`.
pub open spec fn from_host(url: Seq<char>, base: Seq<char>) -> bool {
    base.len() > 0 && base.last() == '/' && base.is_prefix_of(url)
}

/// The first source URL that is not served under `base`.
pub open spec fn first_foreign(srcs: Seq<ContentSourceView>, base: Seq<char>) -> Option<Seq<char>>
    decreases srcs.len(),
{
    if srcs.len() == 0 {
        None
    } else if !from_host(srcs[0].url, base) {
        Some(srcs[0].url)
    } else {
        first_foreign(srcs.drop_first(), base)
    }
}

/// The first content digest a release entry references that the store lacks.
pub open spec fn first_missing(es: Seq<EntryView>, store: Seq<(DigestView, Seq<u8>)>) -> Option<
    DigestView,
>
    decreases es.len(),
{
    if es.len() == 0 {
        None
    } else if es[0] is Release && lookup(store, es[0]->Release_content).is_none() {
        Some(es[0]->Release_content)
    } else {
        first_missing(es.drop_first(), store)
    }
}

/// What a publish decides: the new package state, or why it is rejected.
/// Content sources are checked first, then the presence of content, then the
/// record against the package state.
pub open spec fn decide(
    base: Seq<char>,
    srcs: Seq<ContentSourceView>,
    store: Seq<(DigestView, Seq<u8>)>,
    pre: ValidatorView,
    r: RecordView,
) -> Result<ValidatorView, RejectReasonView> {
    match first_foreign(srcs, base) {
        Some(url) => Err(RejectReasonView::ContentUrlInvalid { url }),
        None => match first_missing(r.entries, store) {
            Some(digest) => Err(RejectReasonView::ContentMissing { digest }),
            None => match apply_record(pre, r) {
                Ok(t) => Ok(t),
                Err(error) => Err(RejectReasonView::InvalidRecord { error }),
            },
        },
    }
}

fn starts_with(url: &String, base: &String) -> (r: bool)
    ensures
        r == from_host(url@, base@),
{
    let n = base.unicode_len();
    if n == 0 || base.as_str().get_char(n - 1) != '/' {
        return false;
    }
    if url.unicode_len() < n {
        return false;
    }
    let mut i: usize = 0;
    while i < n
        invariant
            n == base@.len(),
            n <= url@.len(),
            0 <= i <= n,
            forall|j: int| 0 <= j < i ==> url@[j] == base@[j],
        decreases n - i,
    {
        if url.as_str().get_char(i) != base.as_str().get_char(i) {
            return false;
        }
        i = i + 1;
    }
    assert(url@.subrange(0, n as int) =~= base@);
    true
}

/// Checks that every content source is served under the registry's content
/// base `base`; otherwise rejects with the first URL that is not.
pub fn check_sources(sources: &Vec<ContentSource>, base: &String) -> (r: Result<(), RejectReason>)
    ensures
        match first_foreign(sources@.map_values(|s: ContentSource| s@), base@) {
            None => r.is_ok(),
            Some(url) => r.is_err() && r->Err_0@ == RejectReasonView::ContentUrlInvalid { url },
        },
{
    let ghost srcs = sources@.map_values(|s: ContentSource| s@);
    let mut i: usize = 0;
    assert(srcs.skip(0) =~= srcs);
    while i < sources.len()
        invariant
            srcs == sources@.map_values(|s: ContentSource| s@),
            0 <= i <= sources@.len(),
            first_foreign(srcs, base@) == first_foreign(srcs.skip(i as int), base@),
        decreases sources@.len() - i,
    {
        assert(srcs.skip(i as int).drop_first() =~= srcs.skip(i + 1));
        assert(srcs.skip(i as int)[0] == sources@[i as int]@);
        if !starts_with(&sources[i].url, base) {
            return Err(RejectReason::ContentUrlInvalid { url: sources[i].url.clone() });
        }
        i = i + 1;
    }
    assert(srcs.skip(i as int) =~= Seq::<ContentSourceView>::empty());
    Ok(())
}

fn copy_sources(sources: &Vec<ContentSource>) -> (r: Vec<ContentSource>)
    ensures
        r@.map_values(|s: ContentSource| s@) == sources@.map_values(|s: ContentSource| s@),
{
    let mut r: Vec<ContentSource> = Vec::new();
    let mut i: usize = 0;
    while i < sources.len()
        invariant
            0 <= i <= sources@.len(),
            r@.len() == i,
            forall|j: int| 0 <= j < i ==> #[trigger] r@[j]@ == sources@[j]@,
        decreases sources@.len() - i,
    {
        r.push(sources[i].copy());
        i = i + 1;
    }
    assert(r@.map_values(|s: ContentSource| s@) =~= sources@.map_values(|s: ContentSource| s@));
    r
}

/// The sources whose content the store does not hold, in order.
pub open spec fn unheld(srcs: Seq<ContentSourceView>, store: Seq<(DigestView, Seq<u8>)>) -> Seq<
    ContentSourceView,
>
    decreases srcs.len(),
{
    if srcs.len() == 0 {
        Seq::empty()
    } else if lookup(store, srcs.last().digest).is_none() {
        unheld(srcs.drop_last(), store).push(srcs.last())
    } else {
        unheld(srcs.drop_last(), store)
    }
}

/// A request to publish a record to a package log.
#[derive(Debug)]
pub struct PublishRequest {
    pub name: String,
    pub record: Record,
    pub content_sources: Vec<ContentSource>,
}

impl View for PublishRequest {
    type V = (Seq<char>, RecordView, Seq<ContentSourceView>);

    open spec fn view(&self) -> (Seq<char>, RecordView, Seq<ContentSourceView>) {
        (self.name@, self.record@, self.content_sources@.map_values(|s: ContentSource| s@))
    }
}

/// A record of a package log, with its content sources and the checkpoint it
/// was accepted under.
#[derive(Debug)]
pub struct RecordResponse {
    pub record: Record,
    pub content_sources: Vec<ContentSource>,
    pub checkpoint: u64,
}

impl View for RecordResponse {
    type V = (RecordView, Seq<ContentSourceView>, u64);

    open spec fn view(&self) -> (RecordView, Seq<ContentSourceView>, u64) {
        (self.record@, self.content_sources@.map_values(|s: ContentSource| s@), self.checkpoint)
    }
}

/// The index of the last stored record with the given id, or -1.
pub open spec fn find_record(recs: Seq<(RecordView, Seq<ContentSourceView>, u64)>, id: DigestView) -> int
    decreases recs.len(),
{
    if recs.len() == 0 {
        -1
    } else if recs.last().0.id == id {
        recs.len() - 1
    } else {
        find_record(recs.drop_last(), id)
    }
}

proof fn lemma_find_record(recs: Seq<(RecordView, Seq<ContentSourceView>, u64)>, id: DigestView)
    ensures
        -1 <= find_record(recs, id) < recs.len(),
        find_record(recs, id) >= 0 ==> recs[find_record(recs, id)].0.id == id,
        find_record(recs, id) == -1 <==> forall|j: int| 0 <= j < recs.len() ==> #[trigger] recs[j].0.id != id,
    decreases recs.len(),
{
    if recs.len() > 0 {
        let rest = recs.drop_last();
        lemma_find_record(rest, id);
        assert forall|j: int| 0 <= j < rest.len() implies #[trigger] rest[j] == recs[j] by {};
        if find_record(recs, id) == -1 {
            assert forall|j: int| 0 <= j < recs.len() implies #[trigger] recs[j].0.id != id by {
                if j < rest.len() {
                    assert(rest[j] == recs[j]);
                }
            };
        } else if recs.last().0.id != id {
            let k = find_record(rest, id);
            assert(recs[k] == rest[k]);
        }
    }
}

/// The log of one package.
#[derive(Debug)]
pub struct PackageLog {
    name: String,
    state: Validator,
    records: Vec<RecordResponse>,
}

/// The index of the last name equal to `name`, or -1.
pub open spec fn find_name(s: Seq<Seq<char>>, name: Seq<char>) -> int
    decreases s.len(),
{
    if s.len() == 0 {
        -1
    } else if s.last() == name {
        s.len() - 1
    } else {
        find_name(s.drop_last(), name)
    }
}

proof fn lemma_find_name_range(s: Seq<Seq<char>>, name: Seq<char>)
    ensures
        -1 <= find_name(s, name) < s.len(),
        find_name(s, name) >= 0 ==> s[find_name(s, name)] == name,
    decreases s.len(),
{
    if s.len() > 0 {
        lemma_find_name_range(s.drop_last(), name);
    }
}

/// A registry: content addressed by digest, package logs by name, and the
/// outcome of every publish by handle.
pub struct Registry {
    content_base: String,
    content: ContentStore,
    packages: Vec<PackageLog>,
    publishes: Vec<PublishStatus>,
    requests: Vec<Option<PublishRequest>>,
    checkpoint: u64,
}

impl Registry {
    pub closed spec fn names(&self) -> Seq<Seq<char>> {
        self.packages@.map_values(|p: PackageLog| p.name@)
    }

    /// The validation state of the named package (empty when it is unknown).
    pub closed spec fn state_of(&self, name: Seq<char>) -> ValidatorView {
        let i = find_name(self.names(), name);
        if 0 <= i < self.packages@.len() {
            self.packages@[i].state@
        } else {
            empty_state()
        }
    }

    /// The records of the named package's log, in the order they were
    /// accepted, each with its content sources and checkpoint (empty when the
    /// package is unknown).
    pub closed spec fn records_of(&self, name: Seq<char>) -> Seq<(RecordView, Seq<ContentSourceView>, u64)> {
        let i = find_name(self.names(), name);
        if 0 <= i < self.packages@.len() {
            self.packages@[i].records@.map_values(|s: RecordResponse| s@)
        } else {
            Seq::empty()
        }
    }

    /// The content held by the registry.
    pub closed spec fn content(&self) -> Seq<(DigestView, Seq<u8>)> {
        self.content@
    }

    /// The registry's content base: scheme and host, ending in `/`.
    pub closed spec fn base(&self) -> Seq<char> {
        self.content_base@
    }

    /// The checkpoint of the last accepted record (0 before any).
    pub closed spec fn checkpoint(&self) -> u64 {
        self.checkpoint
    }

    /// The status of each publish, by handle.
    pub closed spec fn statuses(&self) -> Seq<PublishStatusView> {
        self.publishes@.map_values(|o: PublishStatus| o@)
    }

    /// The request a processing publish will decide, by handle.
    pub closed spec fn request_of(&self, h: int) -> Option<(Seq<char>, RecordView, Seq<ContentSourceView>)> {
        if 0 <= h < self.requests@.len() {
            match self.requests@[h] {
                Some(q) => Some(q@),
                None => None,
            }
        } else {
            None
        }
    }

    pub closed spec fn wf(&self) -> bool {
        &&& self.content.wf()
        &&& self.requests@.len() == self.publishes@.len()
    }

    /// An empty registry whose content is served under `content_base`.
    pub fn new(content_base: String) -> (r: Registry)
        ensures
            r.wf(),
            r.base() == content_base@,
            r.content().len() == 0,
            r.statuses().len() == 0,
            r.checkpoint() == 0,
            forall|n: Seq<char>| #[trigger] r.state_of(n) == empty_state(),
            forall|n: Seq<char>| #[trigger] r.records_of(n).len() == 0,
    {
        let r = Registry {
            content_base,
            content: ContentStore::new(),
            packages: Vec::new(),
            publishes: Vec::new(),
            requests: Vec::new(),
            checkpoint: 0,
        };
        assert(r.statuses() =~= Seq::<PublishStatusView>::empty());
        assert(r.names() =~= Seq::<Seq<char>>::empty());
        r
    }

    /// Stores content; see `ContentStore::store`.
    pub fn upload(&mut self, content: Vec<u8>, expected: Option<&Digest>) -> (r: Result<
        Digest,
        ContentError,
    >)
        requires
            old(self).wf(),
        ensures
            final(self).wf(),
            r.is_err() == (expected.is_some() && expected.unwrap()@ != crate::digest::digest_spec(
                content@,
            )),
            r.is_ok() ==> r.unwrap()@ == crate::digest::digest_spec(content@)
                && final(self).content() == crate::content::stored(old(self).content(), content@),
            r.is_err() ==> final(self).content() == old(self).content(),
            final(self).base() == old(self).base(),
            final(self).checkpoint() == old(self).checkpoint(),
            final(self).statuses() == old(self).statuses(),
            forall|n: Seq<char>| #[trigger] final(self).state_of(n) == old(self).state_of(n),
            forall|n: Seq<char>| #[trigger] final(self).records_of(n) == old(self).records_of(n),
    {
        self.content.store(content, expected)
    }

    /// The content held under the digest.
    pub fn load_content(&self, digest: &Digest) -> (r: Option<Vec<u8>>)
        requires
            self.wf(),
        ensures
            r.is_none() == lookup(self.content(), digest@).is_none(),
            r.is_some() ==> Some(r.unwrap()@) == lookup(self.content(), digest@),
    {
        self.content.load(digest)
    }

    fn find(&self, name: &String) -> (r: Option<usize>)
        ensures
            r.is_none() ==> find_name(self.names(), name@) == -1,
            r.is_some() ==> r.unwrap() < self.packages@.len() && find_name(self.names(), name@)
                == r.unwrap() as int,
    {
        let ghost names = self.names();
        let mut i: usize = self.packages.len();
        assert(names.take(i as int) =~= names);
        while i > 0
            invariant
                names == self.names(),
                i <= self.packages@.len(),
                names.len() == self.packages@.len(),
                find_name(names, name@) == find_name(names.take(i as int), name@),
            decreases i,
        {
            assert(names.take(i as int).drop_last() =~= names.take(i - 1));
            assert(names.take(i as int).last() == self.packages@[i - 1].name@);
            if self.packages[i - 1].name == *name {
                return Some(i - 1);
            }
            i = i - 1;
        }
        None
    }

    fn content_missing(&self, record: &Record) -> (r: Option<Digest>)
        requires
            self.wf(),
        ensures
            crate::validation::opt_view(r) == first_missing(record@.entries, self.content()),
    {
        let ghost es = record@.entries;
        let mut i: usize = 0;
        assert(es.skip(0) =~= es);
        while i < record.entries.len()
            invariant
                self.wf(),
                es == record@.entries,
                es.len() == record.entries@.len(),
                0 <= i <= es.len(),
                first_missing(es, self.content()) == first_missing(es.skip(i as int), self.content()),
            decreases es.len() - i,
        {
            assert(es.skip(i as int).drop_first() =~= es.skip(i + 1));
            assert(es.skip(i as int)[0] == record.entries@[i as int]@);
            if let crate::validation::Entry::Release { version: _, content } = &record.entries[i] {
                if !self.content.contains(content) {
                    return Some(content.copy());
                }
            }
            i = i + 1;
        }
        assert(es.skip(i as int) =~= Seq::<EntryView>::empty());
        None
    }

    fn process(&mut self, name: &String, record: &Record, sources: &Vec<ContentSource>) -> (r: Result<
        u64,
        RejectReason,
    >)
        requires
            old(self).wf(),
        ensures
            final(self).wf(),
            final(self).base() == old(self).base(),
            final(self).content() == old(self).content(),
            final(self).statuses() == old(self).statuses(),
            r.is_err() ==> forall|n: Seq<char>| #[trigger] final(self).records_of(n) == old(self).records_of(n),
            r.is_ok() ==> final(self).records_of(name@) == old(self).records_of(name@).push(
                (record@, sources@.map_values(|s: ContentSource| s@), r->Ok_0),
            ),
            forall|n: Seq<char>| n != name@ ==> #[trigger] final(self).records_of(n) == old(self).records_of(n),
            old(self).checkpoint() == u64::MAX ==> r.is_err() && r->Err_0@
                == RejectReasonView::CheckpointsExhausted && final(self).checkpoint()
                == old(self).checkpoint() && forall|n: Seq<char>| #[trigger]
                final(self).state_of(n) == old(self).state_of(n),
            old(self).checkpoint() < u64::MAX ==> match decide(
                old(self).base(),
                sources@.map_values(|s: ContentSource| s@),
                old(self).content(),
                old(self).state_of(name@),
                record@,
            ) {
                Err(reason) => r.is_err() && r->Err_0@ == reason && final(self).checkpoint()
                    == old(self).checkpoint() && forall|n: Seq<char>| #[trigger]
                    final(self).state_of(n) == old(self).state_of(n),
                Ok(t) => r == Ok::<u64, RejectReason>((old(self).checkpoint() + 1) as u64)
                    && final(self).checkpoint() == old(self).checkpoint() + 1
                    && final(self).state_of(name@) == t && forall|n: Seq<char>|
                    n != name@ ==> #[trigger] final(self).state_of(n) == old(self).state_of(n),
            },
    {
        if self.checkpoint == u64::MAX {
            return Err(RejectReason::CheckpointsExhausted);
        }
        match check_sources(sources, &self.content_base) {
            Ok(()) => {},
            Err(reason) => {
                return Err(reason);
            },
        }
        if let Some(digest) = self.content_missing(record) {
            return Err(RejectReason::ContentMissing { digest });
        }
        proof {
            lemma_find_name_range(self.names(), name@);
        }
        let checkpoint = self.checkpoint + 1;
        let stored = RecordResponse {
            record: record.copy(),
            content_sources: copy_sources(sources),
            checkpoint,
        };
        match self.append(name, record, stored) {
            Ok(()) => {},
            Err(error) => {
                return Err(RejectReason::InvalidRecord { error });
            },
        }
        let ghost mid = *self;
        self.checkpoint = checkpoint;
        assert(self.names() == mid.names());
        assert(forall|n: Seq<char>| #[trigger] self.state_of(n) == mid.state_of(n));
        assert(forall|n: Seq<char>| #[trigger] self.records_of(n) == mid.records_of(n));
        Ok(checkpoint)
    }

    fn append(&mut self, name: &String, record: &Record, stored: RecordResponse) -> (r: Result<
        (),
        RecordError,
    >)
        requires
            old(self).wf(),
        ensures
            final(self).wf(),
            final(self).base() == old(self).base(),
            final(self).content() == old(self).content(),
            final(self).statuses() == old(self).statuses(),
            final(self).checkpoint() == old(self).checkpoint(),
            match apply_record(old(self).state_of(name@), record@) {
                Ok(t) => r.is_ok() && final(self).state_of(name@) == t && final(self).records_of(name@)
                    == old(self).records_of(name@).push(stored@),
                Err(e) => r == Err::<(), RecordError>(e) && final(self).state_of(name@) == old(
                    self,
                ).state_of(name@) && final(self).records_of(name@) == old(self).records_of(name@),
            },
            forall|n: Seq<char>| n != name@ ==> #[trigger] final(self).state_of(n) == old(self).state_of(n),
            forall|n: Seq<char>| n != name@ ==> #[trigger] final(self).records_of(n) == old(self).records_of(n),
    {
        proof {
            lemma_find_name_range(self.names(), name@);
        }
        match self.find(name) {
            Some(i) => self.append_at(i, name, record, stored),
            None => self.append_new(name, record, stored),
        }
    }

    fn append_at(&mut self, i: usize, name: &String, record: &Record, stored: RecordResponse) -> (r: Result<
        (),
        RecordError,
    >)
        requires
            old(self).wf(),
            i < old(self).packages@.len(),
            find_name(old(self).names(), name@) == i as int,
        ensures
            final(self).wf(),
            final(self).base() == old(self).base(),
            final(self).content() == old(self).content(),
            final(self).statuses() == old(self).statuses(),
            final(self).checkpoint() == old(self).checkpoint(),
            match apply_record(old(self).state_of(name@), record@) {
                Ok(t) => r.is_ok() && final(self).state_of(name@) == t && final(self).records_of(name@)
                    == old(self).records_of(name@).push(stored@),
                Err(e) => r == Err::<(), RecordError>(e) && final(self).state_of(name@) == old(
                    self,
                ).state_of(name@) && final(self).records_of(name@) == old(self).records_of(name@),
            },
            forall|n: Seq<char>| n != name@ ==> #[trigger] final(self).state_of(n) == old(self).state_of(n),
            forall|n: Seq<char>| n != name@ ==> #[trigger] final(self).records_of(n) == old(self).records_of(n),
    {
        let ghost names = self.names();
        match self.packages[i].state.apply(record) {
            Ok(()) => {},
            Err(error) => {
                assert(self.names() =~= names);
                assert forall|n: Seq<char>| #[trigger] self.state_of(n) == old(self).state_of(n) by {
                    lemma_find_name_range(names, n);
                };
                assert forall|n: Seq<char>| #[trigger] self.records_of(n) == old(self).records_of(n) by {
                    lemma_find_name_range(names, n);
                    let j = find_name(names, n);
                    if j >= 0 {
                        assert(self.packages@[j].records == old(self).packages@[j].records);
                    }
                    assert(self.records_of(n) =~= old(self).records_of(n));
                };
                return Err(error);
            },
        }
        self.packages[i].records.push(stored);
        assert(self.names() =~= names);
        assert(self.records_of(name@) =~= old(self).records_of(name@).push(
            stored@,
        ));
        assert forall|n: Seq<char>| n != name@ implies #[trigger] self.state_of(n) == old(
            self,
        ).state_of(n) by {
            lemma_find_name_range(names, n);
            lemma_find_name_range(names, name@);
            let j = find_name(names, n);
            if j >= 0 {
                assert(self.packages@[j] == old(self).packages@[j]);
            }
        };
        assert forall|n: Seq<char>| n != name@ implies #[trigger] self.records_of(n) == old(
            self,
        ).records_of(n) by {
            lemma_find_name_range(names, n);
            lemma_find_name_range(names, name@);
            let j = find_name(names, n);
            if j >= 0 {
                assert(self.packages@[j] == old(self).packages@[j]);
            }
            assert(self.records_of(n) =~= old(self).records_of(n));
        };
        Ok(())
    }

    fn append_new(&mut self, name: &String, record: &Record, stored: RecordResponse) -> (r: Result<
        (),
        RecordError,
    >)
        requires
            old(self).wf(),
            find_name(old(self).names(), name@) == -1,
        ensures
            final(self).wf(),
            final(self).base() == old(self).base(),
            final(self).content() == old(self).content(),
            final(self).statuses() == old(self).statuses(),
            final(self).checkpoint() == old(self).checkpoint(),
            match apply_record(old(self).state_of(name@), record@) {
                Ok(t) => r.is_ok() && final(self).state_of(name@) == t && final(self).records_of(name@)
                    == old(self).records_of(name@).push(stored@),
                Err(e) => r == Err::<(), RecordError>(e) && final(self).state_of(name@) == old(
                    self,
                ).state_of(name@) && final(self).records_of(name@) == old(self).records_of(name@),
            },
            forall|n: Seq<char>| n != name@ ==> #[trigger] final(self).state_of(n) == old(self).state_of(n),
            forall|n: Seq<char>| n != name@ ==> #[trigger] final(self).records_of(n) == old(self).records_of(n),
    {
        let mut state = Validator::new();
        match state.apply(record) {
            Ok(()) => {},
            Err(error) => {
                return Err(error);
            },
        }
        let ghost names = self.names();
        let mut records: Vec<RecordResponse> = Vec::new();
        records.push(stored);
        self.packages.push(PackageLog { name: name.clone(), state, records });
        assert(self.names() =~= names.push(name@));
        assert(self.names().drop_last() =~= names);
        assert(self.records_of(name@) =~= old(self).records_of(name@).push(
            stored@,
        ));
        assert forall|n: Seq<char>| n != name@ implies #[trigger] self.state_of(n) == old(
            self,
        ).state_of(n) by {
            lemma_find_name_range(names, n);
            assert(self.names().last() == name@);
        };
        assert forall|n: Seq<char>| n != name@ implies #[trigger] self.records_of(n) == old(
            self,
        ).records_of(n) by {
            lemma_find_name_range(names, n);
            assert(self.names().last() == name@);
            let j = find_name(names, n);
            if j >= 0 {
                assert(self.packages@[j] == old(self).packages@[j]);
            }
            assert(self.records_of(n) =~= old(self).records_of(n));
        };
        Ok(())
    }

    /// Submits a record with its content sources. The publish is decided at
    /// once: content sources must be served by the registry's content host,
    /// all content the record references must be held, and the record must
    /// append to the package log. The outcome is kept under the returned handle.
    pub fn submit(&mut self, request: PublishRequest) -> (r: (usize, PublishOutcome))
        requires
            old(self).wf(),
        ensures
            final(self).wf(),
            r.0 == old(self).statuses().len(),
            final(self).statuses() == old(self).statuses().push(
                PublishStatusView::Done { outcome: r.1@ },
            ),
            final(self).base() == old(self).base(),
            final(self).content() == old(self).content(),
            r.1 is Published ==> final(self).records_of(request.name@) == old(self).records_of(
                request.name@,
            ).push(
                (
                    request.record@,
                    request.content_sources@.map_values(|s: ContentSource| s@),
                    r.1->Published_checkpoint,
                ),
            ),
            r.1 is Rejected ==> forall|n: Seq<char>| #[trigger] final(self).records_of(n) == old(
                self,
            ).records_of(n),
            forall|n: Seq<char>| n != request.name@ ==> #[trigger] final(self).records_of(n) == old(
                self,
            ).records_of(n),
            old(self).checkpoint() == u64::MAX ==> r.1@ == (PublishOutcomeView::Rejected {
                reason: RejectReasonView::CheckpointsExhausted,
            }) && forall|n: Seq<char>| #[trigger]
                final(self).state_of(n) == old(self).state_of(n),
            old(self).checkpoint() < u64::MAX ==> match decide(
                old(self).base(),
                request.content_sources@.map_values(|s: ContentSource| s@),
                old(self).content(),
                old(self).state_of(request.name@),
                request.record@,
            ) {
                Err(reason) => r.1@ == (PublishOutcomeView::Rejected { reason })
                    && final(self).checkpoint() == old(self).checkpoint() && forall|n: Seq<char>|
                    #[trigger] final(self).state_of(n) == old(self).state_of(n),
                Ok(t) => r.1@ == (PublishOutcomeView::Published {
                    checkpoint: (old(self).checkpoint() + 1) as u64,
                }) && final(self).checkpoint() == old(self).checkpoint() + 1
                    && final(self).state_of(request.name@) == t && forall|n: Seq<char>|
                    n != request.name@ ==> #[trigger] final(self).state_of(n) == old(self).state_of(n),
            },
    {
        let outcome = match self.process(&request.name, &request.record, &request.content_sources) {
            Ok(checkpoint) => PublishOutcome::Published { checkpoint },
            Err(reason) => PublishOutcome::Rejected { reason },
        };
        let handle = self.publishes.len();
        let ghost before = self.statuses();
        let ghost mid = *self;
        let result = outcome.copy();
        self.publishes.push(PublishStatus::Done { outcome });
        self.requests.push(None);
        assert(self.statuses() =~= before.push(PublishStatusView::Done { outcome: result@ }));
        assert(self.names() == mid.names());
        assert(forall|n: Seq<char>| #[trigger] self.state_of(n) == mid.state_of(n));
        assert(forall|n: Seq<char>| #[trigger] self.records_of(n) == mid.records_of(n));
        (handle, result)
    }

    /// The content sources the registry still has to fetch before the record
    /// can be decided: those whose content it does not hold. Nothing is to be
    /// fetched when a source is not served by the registry's content host:
    /// the publish is then rejected with the first such URL.
    pub fn fetch_plan(&self, sources: &Vec<ContentSource>) -> (r: Result<
        Vec<ContentSource>,
        RejectReason,
    >)
        requires
            self.wf(),
        ensures
            match first_foreign(sources@.map_values(|s: ContentSource| s@), self.base()) {
                Some(url) => r.is_err() && r->Err_0@ == RejectReasonView::ContentUrlInvalid { url },
                None => r.is_ok() && r->Ok_0@.map_values(|s: ContentSource| s@) == unheld(
                    sources@.map_values(|s: ContentSource| s@),
                    self.content(),
                ),
            },
    {
        match check_sources(sources, &self.content_base) {
            Ok(()) => {},
            Err(reason) => {
                return Err(reason);
            },
        }
        let ghost srcs = sources@.map_values(|s: ContentSource| s@);
        let mut plan: Vec<ContentSource> = Vec::new();
        let mut i: usize = 0;
        assert(plan@.map_values(|s: ContentSource| s@) =~= unheld(srcs.take(0), self.content()));
        while i < sources.len()
            invariant
                self.wf(),
                srcs == sources@.map_values(|s: ContentSource| s@),
                0 <= i <= sources@.len(),
                plan@.map_values(|s: ContentSource| s@) == unheld(srcs.take(i as int), self.content()),
            decreases sources@.len() - i,
        {
            assert(srcs.take(i + 1).drop_last() =~= srcs.take(i as int));
            assert(srcs.take(i + 1).last() == sources@[i as int]@);
            let ghost before = plan@.map_values(|s: ContentSource| s@);
            if !self.content.contains(&sources[i].digest) {
                plan.push(sources[i].copy());
                assert(plan@.map_values(|s: ContentSource| s@) =~= before.push(sources@[i as int]@));
            }
            i = i + 1;
        }
        assert(srcs.take(i as int) =~= srcs);
        Ok(plan)
    }

    /// Starts a publish whose content is still to be fetched. A content source
    /// not served by the registry's content host rejects it at once; otherwise
    /// the request is kept, processing under the returned handle until
    /// `finish` decides it.
    pub fn begin(&mut self, request: PublishRequest) -> (r: (usize, PublishStatus))
        requires
            old(self).wf(),
        ensures
            final(self).wf(),
            r.0 == old(self).statuses().len(),
            final(self).statuses() == old(self).statuses().push(r.1@),
            r.1 is Processing ==> final(self).request_of(r.0 as int) == Some(request@),
            match first_foreign(request.content_sources@.map_values(|s: ContentSource| s@), old(self).base()) {
                Some(url) => r.1@ == (PublishStatusView::Done {
                    outcome: PublishOutcomeView::Rejected {
                        reason: RejectReasonView::ContentUrlInvalid { url },
                    },
                }),
                None => r.1 is Processing,
            },
            final(self).base() == old(self).base(),
            final(self).content() == old(self).content(),
            final(self).checkpoint() == old(self).checkpoint(),
            forall|n: Seq<char>| #[trigger] final(self).state_of(n) == old(self).state_of(n),
            forall|n: Seq<char>| #[trigger] final(self).records_of(n) == old(self).records_of(n),
    {
        let (status, kept) = match check_sources(&request.content_sources, &self.content_base) {
            Ok(()) => (PublishStatus::Processing, Some(request)),
            Err(reason) => (PublishStatus::Done { outcome: PublishOutcome::Rejected { reason } }, None),
        };
        let handle = self.publishes.len();
        let ghost before = self.statuses();
        let ghost mid = *self;
        let result = status.copy();
        self.publishes.push(status);
        self.requests.push(kept);
        assert(self.statuses() =~= before.push(result@));
        assert(self.names() == mid.names());
        (handle, result)
    }

    /// Decides the request a processing publish was begun with, once its
    /// content has been fetched and uploaded, exactly as `submit` decides; its
    /// status becomes terminal. Returns `None`, changing nothing, when the
    /// handle is unknown or the publish is already done.
    pub fn finish(&mut self, handle: usize) -> (r: Option<PublishOutcome>)
        requires
            old(self).wf(),
        ensures
            final(self).wf(),
            final(self).base() == old(self).base(),
            final(self).content() == old(self).content(),
            r.is_none() == !(handle < old(self).statuses().len() && old(self).statuses()[handle as int] is Processing
                && old(self).request_of(handle as int) is Some),
            r.is_none() ==> final(self).statuses() == old(self).statuses() && final(self).checkpoint()
                == old(self).checkpoint() && forall|n: Seq<char>| #[trigger]
                final(self).state_of(n) == old(self).state_of(n),
            r matches Some(PublishOutcome::Published { checkpoint }) ==> final(self).records_of(old(self).request_of(handle as int)->Some_0.0)
                == old(self).records_of(old(self).request_of(handle as int)->Some_0.0).push(
                (old(self).request_of(handle as int)->Some_0.1, old(self).request_of(handle as int)->Some_0.2, checkpoint),
            ),
            !(r matches Some(PublishOutcome::Published { .. })) ==> forall|n: Seq<char>| #[trigger]
                final(self).records_of(n) == old(self).records_of(n),
            forall|n: Seq<char>| n != old(self).request_of(handle as int)->Some_0.0 ==> #[trigger] final(self).records_of(n) == old(
                self,
            ).records_of(n),
            r.is_some() ==> final(self).statuses() == old(self).statuses().update(
                handle as int,
                PublishStatusView::Done { outcome: r.unwrap()@ },
            ),
            r.is_some() && old(self).checkpoint() == u64::MAX ==> r.unwrap()@ == (PublishOutcomeView::Rejected {
                reason: RejectReasonView::CheckpointsExhausted,
            }) && forall|n: Seq<char>| #[trigger]
                final(self).state_of(n) == old(self).state_of(n),
            r.is_some() && old(self).checkpoint() < u64::MAX ==> match decide(
                old(self).base(),
                old(self).request_of(handle as int)->Some_0.2,
                old(self).content(),
                old(self).state_of(old(self).request_of(handle as int)->Some_0.0),
                old(self).request_of(handle as int)->Some_0.1,
            ) {
                Err(reason) => r.unwrap()@ == (PublishOutcomeView::Rejected { reason })
                    && final(self).checkpoint() == old(self).checkpoint() && forall|n: Seq<char>|
                    #[trigger] final(self).state_of(n) == old(self).state_of(n),
                Ok(t) => r.unwrap()@ == (PublishOutcomeView::Published {
                    checkpoint: (old(self).checkpoint() + 1) as u64,
                }) && final(self).checkpoint() == old(self).checkpoint() + 1
                    && final(self).state_of(old(self).request_of(handle as int)->Some_0.0) == t && forall|n: Seq<char>|
                    n != old(self).request_of(handle as int)->Some_0.0 ==> #[trigger] final(self).state_of(n) == old(self).state_of(n),
            },
    {
        if handle >= self.publishes.len() {
            return None;
        }
        match &self.publishes[handle] {
            PublishStatus::Done { .. } => {
                return None;
            },
            PublishStatus::Processing => {},
        }
        assert(self.statuses()[handle as int] == self.publishes@[handle as int]@);
        let mut taken: Option<PublishRequest> = None;
        let ghost requests = self.requests@;
        std::mem::swap(&mut self.requests[handle], &mut taken);
        let request = match taken {
            None => {
                assert(self.requests@ =~= requests);
                return None;
            },
            Some(q) => q,
        };
        assert(request@ == old(self).request_of(handle as int)->Some_0);
        let outcome = match self.process(&request.name, &request.record, &request.content_sources) {
            Ok(checkpoint) => PublishOutcome::Published { checkpoint },
            Err(reason) => PublishOutcome::Rejected { reason },
        };
        let ghost before = self.statuses();
        let ghost mid = *self;
        let result = outcome.copy();
        assert(handle < self.statuses().len());
        assert(self.publishes@.len() == self.statuses().len());
        self.publishes[handle] = PublishStatus::Done { outcome };
        assert(self.statuses() =~= before.update(
            handle as int,
            PublishStatusView::Done { outcome: result@ },
        ));
        assert(self.names() == mid.names());
        assert(forall|n: Seq<char>| #[trigger] self.state_of(n) == mid.state_of(n));
        assert(forall|n: Seq<char>| #[trigger] self.records_of(n) == mid.records_of(n));
        Some(result)
    }

    /// The head of the named package's log.
    pub fn head(&self, name: &String) -> (r: Option<Digest>)
        ensures
            crate::validation::opt_view(r) == self.state_of(name@).head,
    {
        proof {
            lemma_find_name_range(self.names(), name@);
        }
        match self.find(name) {
            Some(i) => self.packages[i].state.head(),
            None => None,
        }
    }

    /// The status of the publish with the given handle; `None` for an unknown
    /// handle. Reading leaves the registry unchanged.
    pub fn poll(&self, handle: usize) -> (r: Option<PublishStatus>)
        ensures
            handle < self.statuses().len() ==> r.is_some() && r.unwrap()@ == self.statuses()[handle as int],
            handle >= self.statuses().len() ==> r.is_none(),
    {
        if handle < self.publishes.len() {
            Some(self.publishes[handle].copy())
        } else {
            None
        }
    }
}

impl Registry {
    /// The stored record with the given id in the named package's log, with
    /// its content sources and checkpoint.
    pub fn fetch_record(&self, name: &String, id: &Digest) -> (r: Option<RecordResponse>)
        ensures
            r.is_none() <==> forall|j: int|
                0 <= j < self.records_of(name@).len() ==> #[trigger] self.records_of(name@)[j].0.id
                    != id@,
            r.is_some() ==> r.unwrap()@ == self.records_of(name@)[find_record(
                self.records_of(name@),
                id@,
            )],
    {
        proof {
            lemma_find_name_range(self.names(), name@);
            lemma_find_record(self.records_of(name@), id@);
        }
        match self.find(name) {
            None => {
                assert(self.records_of(name@).len() == 0);
                None
            },
            Some(p) => {
                let records = &self.packages[p].records;
                let ghost recs = self.records_of(name@);
                assert(recs == records@.map_values(|s: RecordResponse| s@));
                let mut i: usize = records.len();
                assert(recs.take(i as int) =~= recs);
                while i > 0
                    invariant
                        i <= records@.len(),
                        recs == records@.map_values(|s: RecordResponse| s@),
                        recs == self.records_of(name@),
                        find_record(recs, id@) == find_record(recs.take(i as int), id@),
                    decreases i,
                {
                    assert(recs.take(i as int).drop_last() =~= recs.take(i - 1));
                    assert(recs.take(i as int).last() == records@[i - 1]@);
                    if records[i - 1].record.id.same(id) {
                        let r = &records[i - 1];
                        let response = RecordResponse {
                            record: r.record.copy(),
                            content_sources: copy_sources(&r.content_sources),
                            checkpoint: r.checkpoint,
                        };
                        proof {
                            lemma_find_record(recs, id@);
                        }
                        assert(find_record(recs, id@) == i - 1);
                        assert(response@ == recs[i - 1]);
                        return Some(response);
                    }
                    i = i - 1;
                }
                assert(recs.take(0) =~= Seq::<(RecordView, Seq<ContentSourceView>, u64)>::empty());
                proof {
                    lemma_find_record(recs, id@);
                }
                None
            },
        }
    }
}

/// Where a publish stands: still being processed, or done with an outcome.
#[derive(Debug)]
pub enum PublishStatus {
    Processing,
    Done { outcome: PublishOutcome },
}

pub enum PublishStatusView {
    Processing,
    Done { outcome: PublishOutcomeView },
}

impl View for PublishStatus {
    type V = PublishStatusView;

    open spec fn view(&self) -> PublishStatusView {
        match self {
            PublishStatus::Processing => PublishStatusView::Processing,
            PublishStatus::Done { outcome } => PublishStatusView::Done { outcome: outcome@ },
        }
    }
}

impl PublishStatus {
    /// A copy of the status.
    pub fn copy(&self) -> (r: PublishStatus)
        ensures
            r@ == self@,
    {
        match self {
            PublishStatus::Processing => PublishStatus::Processing,
            PublishStatus::Done { outcome } => PublishStatus::Done { outcome: outcome.copy() },
        }
    }
}

/// The status after an observation of the work behind a publish: `None` while
/// it is still going on, or the outcome it completed with. A publish that is
/// done stays done with the same outcome.
pub fn advance(status: PublishStatus, completed: Option<PublishOutcome>) -> (r: PublishStatus)
    ensures
        r@ == step_status(
            status@,
            match completed {
                Some(o) => Some(o@),
                None => None,
            },
        ),
{
    match status {
        PublishStatus::Done { outcome } => PublishStatus::Done { outcome },
        PublishStatus::Processing => match completed {
            None => PublishStatus::Processing,
            Some(outcome) => PublishStatus::Done { outcome },
        },
    }
}

/// A terminal status is absorbing: whatever is observed afterwards, a further
/// step leaves it as it is.
pub proof fn lemma_done_is_absorbing(s: PublishStatusView, o: Option<PublishOutcomeView>)
    requires
        s is Done,
    ensures
        step_status(s, o) == s,
{
}

/// The status transition that `advance` performs.
pub open spec fn step_status(s: PublishStatusView, o: Option<PublishOutcomeView>) -> PublishStatusView {
    match s {
        PublishStatusView::Done { .. } => s,
        PublishStatusView::Processing => match o {
            None => PublishStatusView::Processing,
            Some(outcome) => PublishStatusView::Done { outcome },
        },
    }
}

proof fn lemma_first_foreign_found(srcs: Seq<ContentSourceView>, base: Seq<char>, k: int)
    requires
        0 <= k < srcs.len(),
        !from_host(srcs[k].url, base),
    ensures
        first_foreign(srcs, base) is Some,
    decreases srcs.len(),
{
    if k > 0 && from_host(srcs[0].url, base) {
        assert(srcs.drop_first()[k - 1] == srcs[k]);
        lemma_first_foreign_found(srcs.drop_first(), base, k - 1);
    }
}

/// A content source not served by the registry's content host rejects the
/// publish with `ContentUrlInvalid`, whatever the content and the record:
/// the host check comes before any content is looked at.
pub proof fn lemma_foreign_source_rejected(
    base: Seq<char>,
    srcs: Seq<ContentSourceView>,
    store: Seq<(DigestView, Seq<u8>)>,
    pre: ValidatorView,
    r: RecordView,
    k: int,
)
    requires
        0 <= k < srcs.len(),
        !from_host(srcs[k].url, base),
    ensures
        decide(base, srcs, store, pre, r) is Err,
        decide(base, srcs, store, pre, r)->Err_0 is ContentUrlInvalid,
{
    lemma_first_foreign_found(srcs, base, k);
}

proof fn lemma_first_missing_found(es: Seq<EntryView>, store: Seq<(DigestView, Seq<u8>)>, k: int)
    requires
        0 <= k < es.len(),
        es[k] is Release,
        lookup(store, es[k]->Release_content).is_none(),
    ensures
        first_missing(es, store) is Some,
    decreases es.len(),
{
    if k > 0 && !(es[0] is Release && lookup(store, es[0]->Release_content).is_none()) {
        assert(es.drop_first()[k - 1] == es[k]);
        lemma_first_missing_found(es.drop_first(), store, k - 1);
    }
}

/// A record that releases content the registry does not hold is rejected
/// with `ContentMissing` (when its sources pass the host check); the package
/// state is then left as it was (see `Registry::submit`).
pub proof fn lemma_missing_content_rejected(
    base: Seq<char>,
    srcs: Seq<ContentSourceView>,
    store: Seq<(DigestView, Seq<u8>)>,
    pre: ValidatorView,
    r: RecordView,
    k: int,
)
    requires
        forall|i: int| 0 <= i < srcs.len() ==> from_host(#[trigger] srcs[i].url, base),
        0 <= k < r.entries.len(),
        r.entries[k] is Release,
        lookup(store, r.entries[k]->Release_content).is_none(),
    ensures
        decide(base, srcs, store, pre, r) is Err,
        decide(base, srcs, store, pre, r)->Err_0 is ContentMissing,
{
    lemma_first_missing_found(r.entries, store, k);
    lemma_no_foreign(srcs, base);
}

proof fn lemma_no_foreign(srcs: Seq<ContentSourceView>, base: Seq<char>)
    requires
        forall|i: int| 0 <= i < srcs.len() ==> from_host(#[trigger] srcs[i].url, base),
    ensures
        first_foreign(srcs, base) is None,
    decreases srcs.len(),
{
    if srcs.len() > 0 {
        assert(from_host(srcs[0].url, base));
        assert forall|i: int| 0 <= i < srcs.drop_first().len() implies from_host(
            #[trigger] srcs.drop_first()[i].url,
            base,
        ) by {
            assert(srcs.drop_first()[i] == srcs[i + 1]);
        };
        lemma_no_foreign(srcs.drop_first(), base);
    }
}


/// Polling a publish that is done keeps giving the same result: a publish is
/// started or submitted under a new handle, and finishing one changes only a
/// handle that was processing.
pub proof fn lemma_done_status_kept(
    before: Seq<PublishStatusView>,
    after: Seq<PublishStatusView>,
    h: int,
    k: int,
    s: PublishStatusView,
)
    requires
        0 <= h < before.len(),
        before[h] is Done,
        after == before.push(s) || (0 <= k < before.len() && before[k] is Processing && after
            == before.update(k, s)),
    ensures
        after[h] == before[h],
{
}

} // verus!
