//! A snapshot of registry contents — package descriptors keyed by name — and
//! the dependency-reachability relation that resolution is specified against.

use vstd::prelude::*;
use crate::package::{Package, PackageView};

verus! {

/// True when some descriptor in `s` carries the name `n`.
pub open spec fn contains_name(s: Seq<PackageView>, n: Seq<char>) -> bool {
    exists|i: int| 0 <= i < s.len() && s[i].name == n
}

/// The descriptor in `s` named `n` (well-defined when names in `s` are
/// distinct and `contains_name(s, n)` holds).
pub open spec fn pkg_named(s: Seq<PackageView>, n: Seq<char>) -> PackageView {
    s[choose|i: int| 0 <= i < s.len() && s[i].name == n]
}

/// Names in `s` are pairwise distinct: a name is a unique key.
pub open spec fn distinct_names(s: Seq<PackageView>) -> bool {
    forall|i: int, j: int| 0 <= i < j < s.len() ==> s[i].name != s[j].name
}

/// `n` is reachable from `root` in exactly `k` dependency-edge steps, where an
/// edge runs from a descriptor present in `reg` to each of its declared
/// dependency names.
pub open spec fn reach_k(reg: Seq<PackageView>, root: Seq<char>, n: Seq<char>, k: nat) -> bool
    decreases k,
{
    if k == 0 {
        n == root
    } else {
        exists|m: Seq<char>|
            reach_k(reg, root, m, (k - 1) as nat) && contains_name(reg, m) && pkg_named(
                reg,
                m,
            ).dependencies.contains(n)
    }
}

/// `n` is the root itself or transitively reachable from it via the
/// dependency relation of `reg`.
pub open spec fn reachable(reg: Seq<PackageView>, root: Seq<char>, n: Seq<char>) -> bool {
    exists|k: nat| reach_k(reg, root, n, k)
}

/// One dependency edge extends reachability.
pub proof fn lemma_reach_step(
    reg: Seq<PackageView>,
    root: Seq<char>,
    m: Seq<char>,
    n: Seq<char>,
)
    requires
        reachable(reg, root, m),
        contains_name(reg, m),
        pkg_named(reg, m).dependencies.contains(n),
    ensures
        reachable(reg, root, n),
{
    let k = choose|k: nat| reach_k(reg, root, m, k);
    assert(reach_k(reg, root, n, k + 1));
}

/// Every name reachable from `root` belongs to any set that contains `root`
/// and is closed under the dependency edges of `reg`.
pub proof fn lemma_reachable_in_closed_set(
    reg: Seq<PackageView>,
    root: Seq<char>,
    s: Set<Seq<char>>,
    n: Seq<char>,
    k: nat,
)
    requires
        s.contains(root),
        forall|m: Seq<char>, d: Seq<char>|
            s.contains(m) && contains_name(reg, m) && #[trigger] pkg_named(
                reg,
                m,
            ).dependencies.contains(d) ==> s.contains(d),
        reach_k(reg, root, n, k),
    ensures
        s.contains(n),
    decreases k,
{
    if k > 0 {
        let m = choose|m: Seq<char>|
            reach_k(reg, root, m, (k - 1) as nat) && contains_name(reg, m) && pkg_named(
                reg,
                m,
            ).dependencies.contains(n);
        lemma_reachable_in_closed_set(reg, root, s, m, (k - 1) as nat);
    }
}

/// A snapshot of the registry's contents: the descriptors the remote registry
/// serves, each name appearing at most once.
#[derive(Debug)]
pub struct Registry {
    pub packages: Vec<Package>,
}

impl Registry {
    /// The descriptors held, as mathematical values.
    pub open spec fn packages_view(&self) -> Seq<PackageView> {
        self.packages.deep_view()
    }

    /// Names are unique keys.
    pub open spec fn wf(&self) -> bool {
        distinct_names(self.packages_view())
    }

    /// An empty registry snapshot.
    pub fn new() -> (r: Registry)
        ensures
            r.wf(),
            r.packages_view() == Seq::<PackageView>::empty(),
    {
        let r = Registry { packages: Vec::new() };
        proof {
            assert(r.packages_view() =~= Seq::<PackageView>::empty());
        }
        r
    }

    /// Adds a descriptor; refused (returning `false`, unchanged) when the name
    /// is already present, so names stay unique.
    pub fn add(&mut self, package: Package) -> (added: bool)
        requires
            old(self).wf(),
        ensures
            final(self).wf(),
            added == !contains_name(old(self).packages_view(), package@.name),
            added ==> final(self).packages_view() == old(self).packages_view().push(package@),
            !added ==> *final(self) == *old(self),
    {
        if self.lookup(&package.name).is_some() {
            false
        } else {
            proof {
                assert(self.packages_view().push(package@) =~= self.packages.deep_view().push(
                    package@,
                ));
            }
            self.packages.push(package);
            proof {
                assert(self.packages_view() =~= old(self).packages_view().push(package@));
            }
            true
        }
    }

    /// Looks a descriptor up by name.
    pub fn lookup(&self, name: &String) -> (r: Option<&Package>)
        requires
            self.wf(),
        ensures
            match r {
                Some(p) => contains_name(self.packages_view(), name@) && p@ == pkg_named(
                    self.packages_view(),
                    name@,
                ),
                None => !contains_name(self.packages_view(), name@),
            },
    {
        let s = Ghost(self.packages_view());
        let mut i: usize = 0;
        while i < self.packages.len()
            invariant
                self.wf(),
                s@ == self.packages_view(),
                i <= self.packages.len(),
                s@.len() == self.packages.len(),
                forall|j: int| 0 <= j < i ==> s@[j].name != name@,
            decreases self.packages.len() - i,
        {
            if self.packages[i].name == *name {
                proof {
                    assert(s@[i as int].name == name@);
                    let w = choose|w: int| 0 <= w < s@.len() && s@[w].name == name@;
                    assert(w == i as int);
                }
                return Some(&self.packages[i]);
            }
            i = i + 1;
        }
        None
    }
}

} // verus!
