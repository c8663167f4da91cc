//! The source cache and fetch planning: a fetched artifact is remembered
//! under its `(name, version)` key together with a digest of its bytes, and a
//! download is skipped exactly when a matching, digest-valid entry exists.

use vstd::prelude::*;
use crate::package::{Package, PackageError, PackageErrorView, PackageView};

verus! {

/// One cached source artifact: which package and version it belongs to, and
/// the digest its bytes had when it was stored.
#[derive(Debug)]
pub struct CacheEntry {
    pub name: String,
    pub version: String,
    pub digest: u64,
}

/// Mathematical value of a [`CacheEntry`].
pub struct CacheEntryView {
    pub name: Seq<char>,
    pub version: Seq<char>,
    pub digest: u64,
}

impl View for CacheEntry {
    type V = CacheEntryView;

    open spec fn view(&self) -> CacheEntryView {
        CacheEntryView { name: self.name@, version: self.version@, digest: self.digest }
    }
}

impl DeepView for CacheEntry {
    type V = CacheEntryView;

    open spec fn deep_view(&self) -> CacheEntryView {
        self.view()
    }
}

/// The contents of the cache directory, keyed by `(name, version)`.
#[derive(Debug)]
pub struct Cache {
    pub entries: Vec<CacheEntry>,
}

impl Cache {
    /// The stored entries, as mathematical values.
    pub open spec fn entries_view(&self) -> Seq<CacheEntryView> {
        self.entries.deep_view()
    }

    /// True when an artifact for `(name, version)` is stored and its stored
    /// digest equals `digest`.
    pub open spec fn has_valid(
        &self,
        name: Seq<char>,
        version: Seq<char>,
        digest: u64,
    ) -> bool {
        exists|i: int|
            0 <= i < self.entries_view().len() && (#[trigger] self.entries_view()[i]) == (
            CacheEntryView { name, version, digest })
    }

    /// An empty cache.
    pub fn new() -> (c: Cache)
        ensures
            c.entries_view() =~= Seq::<CacheEntryView>::empty(),
    {
        let c = Cache { entries: Vec::new() };
        proof {
            assert(c.entries_view() =~= Seq::<CacheEntryView>::empty());
        }
        c
    }

    /// Whether a digest-valid artifact for `(name, version)` is stored.
    pub fn contains_valid(&self, name: &String, version: &String, digest: u64) -> (r: bool)
        ensures
            r == self.has_valid(name@, version@, digest),
    {
        let mut i: usize = 0;
        while i < self.entries.len()
            invariant
                i <= self.entries.len(),
                forall|j: int|
                    0 <= j < i ==> (#[trigger] self.entries_view()[j]) != (CacheEntryView {
                        name: name@,
                        version: version@,
                        digest,
                    }),
            decreases self.entries.len() - i,
        {
            let e = &self.entries[i];
            if e.name == *name && e.version == *version && e.digest == digest {
                proof {
                    assert(self.entries_view()[i as int] == (CacheEntryView {
                        name: name@,
                        version: version@,
                        digest,
                    }));
                }
                return true;
            }
            i = i + 1;
        }
        false
    }

    /// Remembers a stored artifact.
    pub fn store(&mut self, name: String, version: String, digest: u64)
        ensures
            final(self).entries_view() =~= old(self).entries_view().push(
                CacheEntryView { name: name@, version: version@, digest },
            ),
    {
        let ghost e = CacheEntryView { name: name@, version: version@, digest };
        self.entries.push(CacheEntry { name, version, digest });
        proof {
            assert(self.entries_view() =~= old(self).entries_view().push(e));
        }
    }
}

/// What the fetch planner decides for one package.
#[derive(Debug)]
pub enum FetchDecision {
    /// A digest-valid artifact is already cached; no network call is made.
    UseCache,
    /// The artifact must be downloaded from the descriptor's source location.
    Download { source_url: String },
}

/// Mathematical value of a [`FetchDecision`].
pub enum FetchDecisionView {
    UseCache,
    Download { source_url: Seq<char> },
}

impl View for FetchDecision {
    type V = FetchDecisionView;

    open spec fn view(&self) -> FetchDecisionView {
        match self {
            FetchDecision::UseCache => FetchDecisionView::UseCache,
            FetchDecision::Download { source_url } => FetchDecisionView::Download {
                source_url: source_url@,
            },
        }
    }
}

/// How one fetch task ended: a fresh download (with the digest of the bytes
/// that were stored), a cache hit, or a failure.
#[derive(Debug)]
pub enum DownloadOutcome {
    Downloaded(Package, u64),
    CacheHit(Package),
    Failed(PackageError),
}

/// Mathematical value of a [`DownloadOutcome`].
pub enum DownloadOutcomeView {
    Downloaded(PackageView, u64),
    CacheHit(PackageView),
    Failed(PackageErrorView),
}

impl View for DownloadOutcome {
    type V = DownloadOutcomeView;

    open spec fn view(&self) -> DownloadOutcomeView {
        match self {
            DownloadOutcome::Downloaded(p, d) => DownloadOutcomeView::Downloaded(p@, *d),
            DownloadOutcome::CacheHit(p) => DownloadOutcomeView::CacheHit(p@),
            DownloadOutcome::Failed(e) => DownloadOutcomeView::Failed(e@),
        }
    }
}

impl DeepView for DownloadOutcome {
    type V = DownloadOutcomeView;

    open spec fn deep_view(&self) -> DownloadOutcomeView {
        self.view()
    }
}

/// The descriptor carried by a non-failed outcome.
pub open spec fn outcome_package(o: DownloadOutcomeView) -> PackageView {
    match o {
        DownloadOutcomeView::Downloaded(p, _) => p,
        DownloadOutcomeView::CacheHit(p) => p,
        DownloadOutcomeView::Failed(_) => arbitrary(),
    }
}

/// The error carried by a failed outcome.
pub open spec fn outcome_error(o: DownloadOutcomeView) -> PackageErrorView {
    match o {
        DownloadOutcomeView::Failed(e) => e,
        _ => arbitrary(),
    }
}

/// The cache entries that a sequence of outcomes leaves behind: one per fresh
/// download, keyed by the package and carrying the stored bytes' digest.
pub open spec fn stored_entries(s: Seq<DownloadOutcomeView>) -> Seq<CacheEntryView>
    decreases s.len(),
{
    if s.len() == 0 {
        Seq::empty()
    } else {
        stored_entries(s.drop_last()) + (match s.last() {
            DownloadOutcomeView::Downloaded(p, d) => seq![
                CacheEntryView { name: p.name, version: p.version, digest: d },
            ],
            _ => Seq::empty(),
        })
    }
}

/// One step of the rolling artifact digest.
pub open spec fn digest_step(d: u64, b: u8) -> u64 {
    vstd::wrapping::u64_specs::wrapping_add(vstd::wrapping::u64_specs::wrapping_mul(d, 31), b as u64)
}

/// The rolling digest of a byte sequence, from an empty seed.
pub open spec fn digest_of(s: Seq<u8>) -> u64
    decreases s.len(),
{
    if s.len() == 0 {
        0u64
    } else {
        digest_step(digest_of(s.drop_last()), s.last())
    }
}

/// Computes the digest that cache validation compares against.
pub fn artifact_digest(bytes: &Vec<u8>) -> (d: u64)
    ensures
        d == digest_of(bytes@),
{
    let mut d: u64 = 0;
    let mut i: usize = 0;
    while i < bytes.len()
        invariant
            i <= bytes.len(),
            d == digest_of(bytes@.take(i as int)),
        decreases bytes.len() - i,
    {
        d = d.wrapping_mul(31).wrapping_add(bytes[i] as u64);
        i = i + 1;
        proof {
            let t = bytes@.take(i as int);
            assert(t.drop_last() =~= bytes@.take(i - 1));
            assert(t.last() == bytes@[i - 1]);
        }
    }
    proof {
        assert(bytes@.take(bytes.len() as int) =~= bytes@);
    }
    d
}

} // verus!
