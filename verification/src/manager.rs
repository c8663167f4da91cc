//! The orchestrator: it owns the cache and the installed-package registry,
//! plans fetches against the cache, aggregates concurrent download outcomes
//! fail-fast, and commits builds strictly one package at a time.

use vstd::prelude::*;
use crate::fetch::{
    Cache, CacheEntryView, DownloadOutcome, DownloadOutcomeView, FetchDecision, FetchDecisionView,
    outcome_error, outcome_package, stored_entries,
};
use crate::package::{Package, PackageError, PackageErrorView, PackageView};
use crate::registry::{contains_name, distinct_names, pkg_named};

verus! {

/// How many leading statuses of `s` are zero: the number of builds a strictly
/// sequential, fail-fast pass completes before stopping.
pub open spec fn ok_prefix(s: Seq<i32>) -> int
    decreases s.len(),
{
    if s.len() == 0 {
        0
    } else if s[0] != 0 {
        0
    } else {
        1 + ok_prefix(s.drop_first())
    }
}

/// `ok_prefix` counts a prefix: it is bounded by the length, every status
/// before it is zero, and the status at it (if any) is nonzero.
pub proof fn lemma_ok_prefix(s: Seq<i32>)
    ensures
        0 <= ok_prefix(s) <= s.len(),
        forall|j: int| 0 <= j < ok_prefix(s) ==> s[j] == 0,
        ok_prefix(s) < s.len() ==> s[ok_prefix(s)] != 0,
    decreases s.len(),
{
    if s.len() > 0 && s[0] == 0 {
        lemma_ok_prefix(s.drop_first());
        assert forall|j: int| 0 <= j < ok_prefix(s) implies s[j] == 0 by {
            if j > 0 {
                assert(s.drop_first()[j - 1] == 0);
            }
        };
    }
}

/// When the first `i` statuses are zero, the fail-fast pass runs at least
/// that far.
pub proof fn lemma_ok_prefix_at_least(s: Seq<i32>, i: int)
    requires
        0 <= i <= s.len(),
        forall|j: int| 0 <= j < i ==> s[j] == 0,
    ensures
        ok_prefix(s) >= i,
    decreases i,
{
    lemma_ok_prefix(s);
    if i > 0 {
        assert(s[0] == 0);
        assert forall|j: int| 0 <= j < i - 1 implies s.drop_first()[j] == 0 by {
            assert(s[j + 1] == 0);
        };
        lemma_ok_prefix_at_least(s.drop_first(), i - 1);
    }
}

/// The installed-package registry of `cur` extends the one of `orig` with
/// exactly the first `i` descriptors of `pk`: a name is installed in `cur`
/// when it was installed in `orig` or belongs to that prefix; each prefix
/// descriptor is recorded as given; and every other installed name keeps the
/// descriptor it had in `orig`.
#[verifier::opaque]
pub open spec fn committed_prefix(
    orig: PackageManager,
    cur: PackageManager,
    pk: Seq<PackageView>,
    i: int,
) -> bool {
    &&& forall|n: Seq<char>|
        #![trigger cur.is_installed_view(n)]
        #![trigger orig.is_installed_view(n)]
        cur.is_installed_view(n) <==> (orig.is_installed_view(n) || (exists|j: int|
            0 <= j < i && (#[trigger] pk[j]).name == n))
    &&& forall|j: int| 0 <= j < i ==> cur.installed_named((#[trigger] pk[j]).name) == pk[j]
    &&& forall|n: Seq<char>|
        orig.is_installed_view(n) && !(exists|j: int| 0 <= j < i && (#[trigger] pk[j]).name == n)
            ==> #[trigger] cur.installed_named(n) == orig.installed_named(n)
}

/// An empty prefix commits nothing.
pub proof fn lemma_committed_prefix_zero(orig: PackageManager, pk: Seq<PackageView>)
    ensures
        committed_prefix(orig, orig, pk, 0),
{
    reveal(committed_prefix);
}

/// Installing `pk[i]` on top of a state that committed the first `i`
/// descriptors commits the first `i + 1`.
pub proof fn lemma_committed_prefix_step(
    orig: PackageManager,
    pre: PackageManager,
    post: PackageManager,
    pk: Seq<PackageView>,
    i: int,
)
    requires
        0 <= i < pk.len(),
        distinct_names(pk),
        committed_prefix(orig, pre, pk, i),
        forall|n: Seq<char>|
            #![trigger post.is_installed_view(n)]
            #![trigger pre.is_installed_view(n)]
            post.is_installed_view(n) <==> (pre.is_installed_view(n) || n == pk[i].name),
        post.installed_named(pk[i].name) == pk[i],
        forall|n: Seq<char>|
            pre.is_installed_view(n) && n != pk[i].name ==> #[trigger] post.installed_named(n)
                == pre.installed_named(n),
    ensures
        committed_prefix(orig, post, pk, i + 1),
{
    reveal(committed_prefix);
    let n_new = pk[i].name;
    assert forall|n: Seq<char>| #[trigger] post.is_installed_view(n) implies (
    orig.is_installed_view(n) || (exists|j: int| 0 <= j < i + 1 && (#[trigger] pk[j]).name
        == n)) by {
        if n == n_new {
            assert(pk[i].name == n);
        } else {
            assert(pre.is_installed_view(n));
        }
    };
    assert forall|n: Seq<char>|
        orig.is_installed_view(n) || (exists|j: int|
            0 <= j < i + 1 && (#[trigger] pk[j]).name == n) implies #[trigger] post
        .is_installed_view(n) by {
        if orig.is_installed_view(n) {
            assert(pre.is_installed_view(n));
        } else {
            let j = choose|j: int| 0 <= j < i + 1 && pk[j].name == n;
            if j < i {
                assert(pre.is_installed_view(n));
            } else {
                assert(n == n_new);
            }
        }
    };
    assert forall|j: int| 0 <= j < i + 1 implies post.installed_named((#[trigger] pk[j]).name)
        == pk[j] by {
        if j < i {
            assert(pk[j].name != n_new);
            assert(pre.is_installed_view(pk[j].name));
        }
    };
    assert forall|n: Seq<char>|
        orig.is_installed_view(n) && !(exists|j: int|
            0 <= j < i + 1 && (#[trigger] pk[j]).name == n) implies #[trigger] post
        .installed_named(n) == orig.installed_named(n) by {
        assert(n != n_new);
        assert(pre.is_installed_view(n));
        assert(pre.installed_named(n) == orig.installed_named(n));
    };
}

/// The orchestrator. It alone holds the cache directory, the registry
/// location, the cache contents, and the installed-package registry: the
/// mapping from package name to the descriptor last successfully built, in
/// which a name maps to at most one descriptor.
#[derive(Debug)]
pub struct PackageManager {
    cache_dir: String,
    registry_url: String,
    installed_packages: Vec<Package>,
    cache: Cache,
}

impl PackageManager {
    /// The cache directory path.
    pub closed spec fn cache_dir_view(&self) -> Seq<char> {
        self.cache_dir@
    }

    /// The registry location.
    pub closed spec fn registry_url_view(&self) -> Seq<char> {
        self.registry_url@
    }

    /// The installed-package registry: descriptors of successfully built
    /// packages, names pairwise distinct.
    pub closed spec fn installed_view(&self) -> Seq<PackageView> {
        self.installed_packages.deep_view()
    }

    /// The cache contents.
    pub closed spec fn cache_entries(&self) -> Seq<CacheEntryView> {
        self.cache.entries_view()
    }

    /// A name maps to at most one installed descriptor.
    pub open spec fn wf(&self) -> bool {
        distinct_names(self.installed_view())
    }

    /// Whether `name` has a successfully built artifact recorded.
    pub open spec fn is_installed_view(&self, name: Seq<char>) -> bool {
        contains_name(self.installed_view(), name)
    }

    /// The descriptor recorded for an installed `name`.
    pub open spec fn installed_named(&self, name: Seq<char>) -> PackageView {
        pkg_named(self.installed_view(), name)
    }

    /// Whether the cache holds a digest-valid artifact for `(name, version)`.
    pub closed spec fn cache_has_valid(
        &self,
        name: Seq<char>,
        version: Seq<char>,
        digest: u64,
    ) -> bool {
        self.cache.has_valid(name, version, digest)
    }

    /// A fresh orchestrator: nothing installed, nothing cached.
    pub fn new(cache_dir: String, registry_url: String) -> (r: PackageManager)
        ensures
            r.wf(),
            r.cache_dir_view() == cache_dir@,
            r.registry_url_view() == registry_url@,
            r.installed_view() =~= Seq::<PackageView>::empty(),
            r.cache_entries() =~= Seq::<CacheEntryView>::empty(),
    {
        let r = PackageManager {
            cache_dir,
            registry_url,
            installed_packages: Vec::new(),
            cache: Cache::new(),
        };
        proof {
            assert(r.installed_view() =~= Seq::<PackageView>::empty());
        }
        r
    }

    /// The cache directory path.
    pub fn cache_dir(&self) -> (r: &String)
        ensures
            r@ == self.cache_dir_view(),
    {
        &self.cache_dir
    }

    /// The registry location.
    pub fn registry_url(&self) -> (r: &String)
        ensures
            r@ == self.registry_url_view(),
    {
        &self.registry_url
    }

    /// Whether `name` has a successfully built artifact recorded.
    pub fn is_installed(&self, name: &String) -> (r: bool)
        ensures
            r == self.is_installed_view(name@),
    {
        find_name_index(&self.installed_packages, name).is_some()
    }

    /// The descriptor recorded for `name`, when one is.
    pub fn installed_lookup(&self, name: &String) -> (r: Option<&Package>)
        requires
            self.wf(),
        ensures
            match r {
                Some(p) => self.is_installed_view(name@) && p@ == self.installed_named(name@),
                None => !self.is_installed_view(name@),
            },
    {
        match find_name_index(&self.installed_packages, name) {
            Some(i) => {
                proof {
                    let iv = self.installed_view();
                    let w = choose|w: int| 0 <= w < iv.len() && iv[w].name == name@;
                    assert(w == i as int);
                }
                Some(&self.installed_packages[i])
            },
            None => None,
        }
    }

    /// Decides whether one package's source must be downloaded: the cache is
    /// consulted under `(name, version)`, and only a missing or digest-stale
    /// artifact sends the fetcher to the network.
    pub fn plan_fetch(&self, package: &Package, expected_digest: u64) -> (d: FetchDecision)
        ensures
            self.cache_has_valid(package@.name, package@.version, expected_digest) ==> d@
                is UseCache,
            !self.cache_has_valid(package@.name, package@.version, expected_digest) ==> d@ == (
            FetchDecisionView::Download { source_url: package@.source_url }),
    {
        if self.cache.contains_valid(&package.name, &package.version, expected_digest) {
            FetchDecision::UseCache
        } else {
            FetchDecision::Download { source_url: package.source_url.clone() }
        }
    }

    /// Aggregates one concurrent fetch batch, fail-fast: the first failed
    /// outcome fails the whole batch and leaves the orchestrator — the
    /// installed-package registry above all — exactly as it was, with no
    /// package considered fetched. On success the descriptors come back in
    /// order and each fresh download is remembered in the cache.
    pub fn download_packages(&mut self, outcomes: &Vec<DownloadOutcome>) -> (r: Result<
        Vec<Package>,
        PackageError,
    >)
        ensures
            final(self).installed_view() == old(self).installed_view(),
            final(self).cache_dir_view() == old(self).cache_dir_view(),
            final(self).registry_url_view() == old(self).registry_url_view(),
            final(self).wf() == old(self).wf(),
            r is Ok <==> (forall|i: int|
                0 <= i < outcomes.deep_view().len() ==> !((#[trigger] outcomes.deep_view()[i])
                    is Failed)),
            r matches Ok(v) ==> v.deep_view().len() == outcomes.deep_view().len() && (forall|
                i: int,
            |
                0 <= i < outcomes.deep_view().len() ==> v.deep_view()[i] == outcome_package(
                    #[trigger] outcomes.deep_view()[i],
                )) && final(self).cache_entries() =~= old(self).cache_entries() + stored_entries(
                outcomes.deep_view(),
            ),
            r matches Err(e) ==> *final(self) == *old(self) && (exists|i: int|
                0 <= i < outcomes.deep_view().len() && (#[trigger] outcomes.deep_view()[i])
                    is Failed && e@ == outcome_error(outcomes.deep_view()[i]) && (forall|j: int|
                    0 <= j < i ==> !(outcomes.deep_view()[j] is Failed))),
    {
        let ghost s = outcomes.deep_view();
        // First pass: any failure aborts the batch before any state changes.
        let mut i: usize = 0;
        while i < outcomes.len()
            invariant
                s == outcomes.deep_view(),
                s.len() == outcomes@.len(),
                i <= outcomes.len(),
                forall|j: int| 0 <= j < i ==> !((#[trigger] s[j]) is Failed),
            decreases outcomes.len() - i,
        {
            if let DownloadOutcome::Failed(e) = &outcomes[i] {
                proof {
                    assert(s[i as int] is Failed);
                }
                return Err(e.clone());
            }
            i = i + 1;
        }
        // Every download succeeded: collect the descriptors and remember each
        // freshly stored artifact.
        let mut collected: Vec<Package> = Vec::new();
        let mut k: usize = 0;
        proof {
            assert(collected.deep_view() =~= Seq::<PackageView>::empty());
            assert(self.cache_entries() =~= old(self).cache_entries() + stored_entries(
                s.take(0),
            ));
        }
        while k < outcomes.len()
            invariant
                s == outcomes.deep_view(),
                s.len() == outcomes@.len(),
                k <= outcomes.len(),
                forall|j: int| 0 <= j < s.len() ==> !((#[trigger] s[j]) is Failed),
                collected.deep_view().len() == k,
                forall|j: int|
                    0 <= j < k ==> collected.deep_view()[j] == outcome_package(#[trigger] s[j]),
                self.cache_entries() =~= old(self).cache_entries() + stored_entries(
                    s.take(k as int),
                ),
                self.installed_view() == old(self).installed_view(),
                self.cache_dir_view() == old(self).cache_dir_view(),
                self.registry_url_view() == old(self).registry_url_view(),
            decreases outcomes.len() - k,
        {
            let ghost entries0 = self.cache_entries();
            match &outcomes[k] {
                DownloadOutcome::Downloaded(p, d) => {
                    collected.push(p.clone());
                    self.cache.store(p.name.clone(), p.version.clone(), *d);
                    proof {
                        let t = s.take(k + 1);
                        assert(t.drop_last() =~= s.take(k as int));
                        assert(t.last() == s[k as int]);
                        assert(self.cache_entries() =~= old(self).cache_entries()
                            + stored_entries(t));
                    }
                },
                DownloadOutcome::CacheHit(p) => {
                    collected.push(p.clone());
                    proof {
                        let t = s.take(k + 1);
                        assert(t.drop_last() =~= s.take(k as int));
                        assert(t.last() == s[k as int]);
                        assert(stored_entries(t) =~= stored_entries(s.take(k as int)));
                    }
                },
                DownloadOutcome::Failed(e) => {
                    proof {
                        assert(s[k as int] is Failed);
                        assert(false);
                    }
                    return Err(e.clone());
                },
            }
            k = k + 1;
        }
        proof {
            assert(s.take(s.len() as int) =~= s);
        }
        Ok(collected)
    }

    /// Commits the outcome of one package's build step, as reported by the
    /// executed action's integer status (zero means success). Success records
    /// the descriptor in the installed-package registry, replacing any
    /// previous descriptor under the same name; any other status yields
    /// `BuildFailed` for the package and mutates nothing.
    pub fn complete_build(&mut self, package: &Package, status: i32) -> (r: Result<
        (),
        PackageError,
    >)
        requires
            old(self).wf(),
        ensures
            final(self).wf(),
            final(self).cache_dir_view() == old(self).cache_dir_view(),
            final(self).registry_url_view() == old(self).registry_url_view(),
            final(self).cache_entries() == old(self).cache_entries(),
            status != 0 ==> *final(self) == *old(self) && (r matches Err(e) && e@ == (
            PackageErrorView::BuildFailed(package@.name))),
            status == 0 ==> r is Ok,
            status == 0 ==> forall|n: Seq<char>|
                #![trigger final(self).is_installed_view(n)]
                #![trigger old(self).is_installed_view(n)]
                final(self).is_installed_view(n) <==> (old(self).is_installed_view(n) || n
                    == package@.name),
            status == 0 ==> final(self).installed_named(package@.name) == package@,
            status == 0 ==> forall|n: Seq<char>|
                old(self).is_installed_view(n) && n != package@.name ==> final(self)
                    .installed_named(n) == old(self).installed_named(n),
    {
        if status != 0 {
            return Err(PackageError::BuildFailed(package.name.clone()));
        }
        let ghost iv0 = self.installed_view();
        let ghost mid: Seq<PackageView>;
        match find_name_index(&self.installed_packages, &package.name) {
            Some(i) => {
                self.installed_packages.remove(i);
                proof {
                    mid = self.installed_view();
                    assert(mid =~= iv0.remove(i as int));
                    assert forall|j: int| 0 <= j < mid.len() implies mid[j].name
                        != package@.name by {
                        if j < i {
                            assert(mid[j] == iv0[j]);
                            assert(iv0[j].name != iv0[i as int].name);
                        } else {
                            assert(mid[j] == iv0[j + 1]);
                            assert(iv0[j + 1].name != iv0[i as int].name);
                        }
                    };
                    assert forall|j: int, l: int| 0 <= j < l < mid.len() implies mid[j].name
                        != mid[l].name by {
                        let j0 = if j < i { j } else { j + 1 };
                        let l0 = if l < i { l } else { l + 1 };
                        assert(mid[j] == iv0[j0] && mid[l] == iv0[l0]);
                    };
                    // membership under any other name is untouched by the removal
                    assert forall|n: Seq<char>| n != package@.name implies contains_name(mid, n)
                        == contains_name(iv0, n) by {
                        if contains_name(iv0, n) {
                            let w = choose|w: int| 0 <= w < iv0.len() && iv0[w].name == n;
                            let w1 = if w < i { w } else { w - 1 };
                            assert(mid[w1] == iv0[w]);
                            assert(contains_name(mid, n));
                        }
                        if contains_name(mid, n) {
                            let w = choose|w: int| 0 <= w < mid.len() && mid[w].name == n;
                            let w0 = if w < i { w } else { w + 1 };
                            assert(iv0[w0] == mid[w]);
                            assert(contains_name(iv0, n));
                        }
                    };
                    assert forall|n: Seq<char>| contains_name(mid, n) implies pkg_named(mid, n)
                        == pkg_named(iv0, n) by {
                        let w = choose|w: int| 0 <= w < mid.len() && mid[w].name == n;
                        let w0 = if w < i { w } else { w + 1 };
                        assert(iv0[w0] == mid[w]);
                        let c = choose|c: int| 0 <= c < iv0.len() && iv0[c].name == n;
                        assert(c != i);
                        let c1 = if c < i { c } else { c - 1 };
                        assert(mid[c1] == iv0[c]);
                        assert(c1 == w);
                    };
                }
            },
            None => {
                proof {
                    mid = self.installed_view();
                }
            },
        }
        self.installed_packages.push(package.clone());
        proof {
        let ivf = self.installed_view();
        assert(ivf =~= mid.push(package@));
        assert forall|j: int, l: int| 0 <= j < l < ivf.len() implies ivf[j].name
            != ivf[l].name by {
            if l < mid.len() {
                assert(ivf[j] == mid[j] && ivf[l] == mid[l]);
            } else {
                assert(ivf[j] == mid[j] && ivf[l] == package@);
            }
        };
        assert(ivf[ivf.len() - 1] == package@);
        assert(contains_name(ivf, package@.name));
        assert(pkg_named(ivf, package@.name) == package@) by {
            let c = choose|c: int| 0 <= c < ivf.len() && ivf[c].name == package@.name;
            if c < mid.len() {
                assert(mid[c].name != package@.name);
            }
        };
        assert forall|n: Seq<char>| n != package@.name implies (contains_name(ivf, n)
            == contains_name(mid, n)) by {
            if contains_name(ivf, n) {
                let w = choose|w: int| 0 <= w < ivf.len() && ivf[w].name == n;
                assert(w < mid.len());
                assert(mid[w] == ivf[w]);
                assert(contains_name(mid, n));
            }
            if contains_name(mid, n) {
                let w = choose|w: int| 0 <= w < mid.len() && mid[w].name == n;
                assert(ivf[w] == mid[w]);
                assert(contains_name(ivf, n));
            }
        };
        assert forall|n: Seq<char>|
            contains_name(mid, n) && n != package@.name implies pkg_named(ivf, n) == pkg_named(
            mid,
            n,
        ) by {
            let w = choose|w: int| 0 <= w < mid.len() && mid[w].name == n;
            assert(ivf[w] == mid[w]);
            let c = choose|c: int| 0 <= c < ivf.len() && ivf[c].name == n;
            assert(c < mid.len());
            assert(mid[c] == ivf[c]);
            assert(c == w);
            let c0 = choose|c0: int| 0 <= c0 < mid.len() && mid[c0].name == n;
            assert(c0 == w);
        };
        }
        Ok(())
    }

    /// Builds a fetched batch strictly one package at a time, fail-fast:
    /// packages are committed in order until the first nonzero status, whose
    /// package the returned `BuildFailed` names; the remaining sequence is
    /// abandoned, while the packages committed before the failure stay
    /// installed (there is no rollback). `statuses[i]` is the integer status
    /// that executing the build action of `packages[i]` reported.
    pub fn build_all(&mut self, packages: &Vec<Package>, statuses: &Vec<i32>) -> (r: Result<
        (),
        PackageError,
    >)
        requires
            old(self).wf(),
            packages.deep_view().len() == statuses@.len(),
            distinct_names(packages.deep_view()),
        ensures
            final(self).wf(),
            final(self).cache_dir_view() == old(self).cache_dir_view(),
            final(self).registry_url_view() == old(self).registry_url_view(),
            final(self).cache_entries() == old(self).cache_entries(),
            r is Ok <==> ok_prefix(statuses@) == statuses@.len(),
            r matches Err(e) ==> ok_prefix(statuses@) < statuses@.len() && e@ == (
            PackageErrorView::BuildFailed(packages.deep_view()[ok_prefix(statuses@)].name)),
            committed_prefix(
                *old(self),
                *final(self),
                packages.deep_view(),
                ok_prefix(statuses@),
            ),
    {
        let ghost pk = packages.deep_view();
        let ghost st = statuses@;
        proof {
            lemma_ok_prefix(st);
            lemma_committed_prefix_zero(*old(self), pk);
        }
        let mut i: usize = 0;
        while i < packages.len()
            invariant
                pk == packages.deep_view(),
                st == statuses@,
                pk.len() == packages@.len(),
                st.len() == statuses@.len(),
                pk.len() == st.len(),
                i <= pk.len(),
                distinct_names(pk),
                forall|j: int| 0 <= j < i ==> st[j] == 0,
                self.wf(),
                self.cache_dir_view() == old(self).cache_dir_view(),
                self.registry_url_view() == old(self).registry_url_view(),
                self.cache_entries() == old(self).cache_entries(),
                committed_prefix(*old(self), *self, pk, i as int),
            decreases packages.len() - i,
        {
            let ghost pre = *self;
            let status = statuses[i];
            let outcome = self.complete_build(&packages[i], status);
            match outcome {
                Err(e) => {
                    proof {
                        lemma_ok_prefix_at_least(st, i as int);
                        lemma_ok_prefix(st);
                        assert(st[i as int] != 0);
                        assert(ok_prefix(st) == i as int) by {
                            if ok_prefix(st) > i as int {
                                assert(st[i as int] == 0);
                            }
                        };
                        assert(*self == pre);
                    }
                    return Err(e);
                },
                Ok(_) => {
                    proof {
                        assert(st[i as int] == 0);
                        assert(packages.deep_view()[i as int] == packages@[i as int].deep_view());
                        lemma_committed_prefix_step(*old(self), pre, *self, pk, i as int);
                    }
                    i = i + 1;
                },
            }
        }
        proof {
            lemma_ok_prefix_at_least(st, st.len() as int);
            lemma_ok_prefix(st);
        }
        Ok(())
    }
}

/// The index of the descriptor named `name`, when one is present.
fn find_name_index(v: &Vec<Package>, name: &String) -> (r: Option<usize>)
    ensures
        match r {
            Some(i) => i < v.deep_view().len() && v.deep_view()[i as int].name == name@,
            None => !contains_name(v.deep_view(), name@),
        },
{
    let mut i: usize = 0;
    while i < v.len()
        invariant
            i <= v.len(),
            forall|j: int| 0 <= j < i ==> v.deep_view()[j].name != name@,
        decreases v.len() - i,
    {
        if v[i].name == *name {
            return Some(i);
        }
        i = i + 1;
    }
    None
}

} // verus!
