//! Worklist dependency resolution: a step machine that a driver feeds with
//! fetched descriptors, and a whole-traversal `resolve` over a registry
//! snapshot, proved to compute exactly the reachable dependency set.

use vstd::prelude::*;
use crate::package::{Package, PackageView, PackageError};
use crate::registry::{
    Registry, contains_name, pkg_named, distinct_names, reachable, reach_k, lemma_reach_step,
    lemma_reachable_in_closed_set,
};

verus! {

/// `out` is a correct resolution of `root` against the registry contents
/// `reg`: it holds the root package, its names are pairwise distinct, every
/// entry is reachable from `root`, every name reachable from `root` appears,
/// and every entry is the registry's descriptor for its name.
pub open spec fn resolution(reg: Seq<PackageView>, root: Seq<char>, out: Seq<PackageView>) -> bool {
    &&& contains_name(out, root)
    &&& distinct_names(out)
    &&& forall|i: int| 0 <= i < out.len() ==> reachable(reg, root, #[trigger] out[i].name)
    &&& forall|n: Seq<char>| #[trigger] reachable(reg, root, n) ==> contains_name(out, n)
    &&& forall|i: int|
        0 <= i < out.len() ==> contains_name(reg, #[trigger] out[i].name) && out[i] == pkg_named(
            reg,
            out[i].name,
        )
}

/// The worklist traversal state: names still to be looked at, names already
/// resolved (each at most once), and their descriptors in resolution order.
///
/// A driver repeatedly takes a name with [`Resolver::pop_pending`], skips it
/// when [`Resolver::is_visited`] says it was already resolved, and otherwise
/// looks its descriptor up and hands it to [`Resolver::record`].
#[derive(Debug)]
pub struct Resolver {
    to_process: Vec<String>,
    visited: Vec<String>,
    resolved: Vec<Package>,
}

impl Resolver {
    /// Names waiting in the worklist, bottom to top.
    pub closed spec fn pending(&self) -> Seq<Seq<char>> {
        self.to_process.deep_view()
    }

    /// Names already resolved, in resolution order.
    pub closed spec fn visited_names(&self) -> Seq<Seq<char>> {
        self.visited.deep_view()
    }

    /// Descriptors resolved so far, in resolution order.
    pub closed spec fn resolved_views(&self) -> Seq<PackageView> {
        self.resolved.deep_view()
    }

    /// Each name is resolved at most once, and the resolved descriptors line
    /// up with the visited names.
    pub closed spec fn wf(&self) -> bool {
        &&& self.visited_names().no_duplicates()
        &&& self.resolved_views().len() == self.visited_names().len()
        &&& forall|i: int|
            0 <= i < self.resolved_views().len() ==> (#[trigger] self.resolved_views()[i]).name
                == self.visited_names()[i]
    }

    /// A fresh traversal, seeded with the root name.
    pub fn new(root: String) -> (r: Resolver)
        ensures
            r.wf(),
            r.pending() =~= seq![root@],
            r.visited_names() =~= Seq::<Seq<char>>::empty(),
            r.resolved_views() =~= Seq::<PackageView>::empty(),
    {
        let mut to_process: Vec<String> = Vec::new();
        to_process.push(root);
        let r = Resolver { to_process, visited: Vec::new(), resolved: Vec::new() };
        proof {
            assert(r.pending() =~= seq![r.to_process@[0]@]);
        }
        r
    }

    /// Takes the top worklist name, or reports the worklist empty.
    pub fn pop_pending(&mut self) -> (r: Option<String>)
        ensures
            match r {
                Some(name) => old(self).pending().len() > 0 && name@ == old(
                    self,
                ).pending().last() && final(self).pending() =~= old(self).pending().drop_last(),
                None => old(self).pending().len() == 0 && final(self).pending() =~= old(
                    self,
                ).pending(),
            },
            final(self).visited_names() == old(self).visited_names(),
            final(self).resolved_views() == old(self).resolved_views(),
            final(self).wf() == old(self).wf(),
    {
        let r = self.to_process.pop();
        proof {
            if old(self).to_process@.len() > 0 {
                assert(self.pending() =~= old(self).pending().drop_last());
            } else {
                assert(self.pending() =~= old(self).pending());
            }
        }
        r
    }

    /// Whether a name was already resolved.
    pub fn is_visited(&self, name: &String) -> (r: bool)
        ensures
            r == self.visited_names().contains(name@),
    {
        contains_string(&self.visited, name)
    }

    /// Records the descriptor fetched for a not-yet-visited name: marks the
    /// name visited, appends the descriptor to the resolution, and queues
    /// every declared dependency that is not already visited.
    pub fn record(&mut self, package: Package)
        requires
            old(self).wf(),
            !old(self).visited_names().contains(package@.name),
        ensures
            final(self).wf(),
            final(self).visited_names() =~= old(self).visited_names().push(package@.name),
            final(self).resolved_views() =~= old(self).resolved_views().push(package@),
            // nothing pending is dropped
            forall|i: int|
                0 <= i < old(self).pending().len() ==> final(self).pending().contains(
                    #[trigger] old(self).pending()[i],
                ),
            // every declared dependency is queued, unless already resolved
            forall|i: int|
                0 <= i < package@.dependencies.len() ==> final(self).pending().contains(
                    #[trigger] package@.dependencies[i],
                ) || old(self).visited_names().contains(package@.dependencies[i]),
            // nothing else is queued
            forall|i: int|
                0 <= i < final(self).pending().len() ==> old(self).pending().contains(
                    #[trigger] final(self).pending()[i],
                ) || package@.dependencies.contains(final(self).pending()[i]),
            final(self).pending().len() <= old(self).pending().len() + package@.dependencies.len(),
    {
        let ghost pend0 = self.pending();
        let ghost deps = package@.dependencies;
        let mut j: usize = 0;
        while j < package.dependencies.len()
            invariant
                j <= package.dependencies.len(),
                deps == package@.dependencies,
                deps.len() == package.dependencies@.len(),
                self.visited_names() == old(self).visited_names(),
                self.resolved_views() == old(self).resolved_views(),
                self.pending().len() <= pend0.len() + j,
                forall|i: int|
                    0 <= i < pend0.len() ==> self.pending().contains(#[trigger] pend0[i]),
                forall|i: int|
                    0 <= i < j ==> self.pending().contains(#[trigger] deps[i])
                        || old(self).visited_names().contains(deps[i]),
                forall|i: int|
                    0 <= i < self.pending().len() ==> pend0.contains(
                        #[trigger] self.pending()[i],
                    ) || deps.contains(self.pending()[i]),
            decreases package.dependencies.len() - j,
        {
            let ghost pend_before = self.pending();
            let dep = &package.dependencies[j];
            proof {
                assert(dep@ == deps[j as int]);
            }
            if !contains_string(&self.visited, dep) {
                self.to_process.push(dep.clone());
                proof {
                    assert(self.pending() =~= pend_before.push(deps[j as int]));
                    assert forall|i: int|
                        0 <= i < pend_before.len() implies self.pending().contains(
                        #[trigger] pend_before[i],
                    ) by {
                        assert(self.pending()[i] == pend_before[i]);
                    };
                    assert(self.pending()[pend_before.len() as int] == deps[j as int]);
                    assert(self.pending().contains(deps[j as int]));
                }
            }
            j = j + 1;
        }
        let ghost vis0 = self.visited_names();
        let ghost res0 = self.resolved_views();
        self.visited.push(package.name.clone());
        proof {
            assert(self.visited_names() =~= vis0.push(package@.name));
        }
        let ghost pkgv = package@;
        self.resolved.push(package);
        proof {
            assert(self.resolved_views() =~= res0.push(pkgv));
            assert forall|i: int|
                0 <= i < self.resolved_views().len() implies (
            #[trigger] self.resolved_views()[i]).name == self.visited_names()[i] by {
                if i < res0.len() {
                    assert(res0[i] == old(self).resolved_views()[i]);
                }
            };
        }
    }

    /// Hands the resolved descriptors out, in resolution order.
    pub fn into_packages(self) -> (r: Vec<Package>)
        ensures
            r.deep_view() == self.resolved_views(),
    {
        self.resolved
    }
}

/// Whether `names` holds a string whose characters equal `name`'s.
fn contains_string(names: &Vec<String>, name: &String) -> (r: bool)
    ensures
        r == names.deep_view().contains(name@),
{
    let mut i: usize = 0;
    while i < names.len()
        invariant
            i <= names.len(),
            forall|j: int| 0 <= j < i ==> names.deep_view()[j] != name@,
        decreases names.len() - i,
    {
        if names[i] == *name {
            proof {
                assert(names.deep_view()[i as int] == name@);
            }
            return true;
        }
        i = i + 1;
    }
    proof {
        assert forall|j: int| 0 <= j < names.deep_view().len() implies names.deep_view()[j]
            != name@ by {}
    }
    false
}

/// Distinct names, each carried by some descriptor of `reg`, cannot outnumber
/// `reg`'s descriptors.
proof fn lemma_visited_bound(reg: Seq<PackageView>, visited: Seq<Seq<char>>)
    requires
        visited.no_duplicates(),
        forall|i: int| 0 <= i < visited.len() ==> contains_name(reg, #[trigger] visited[i]),
    ensures
        visited.len() <= reg.len(),
{
    broadcast use vstd::seq_lib::group_seq_properties;

    let names = reg.map_values(|p: PackageView| p.name);
    assert forall|i: int| 0 <= i < visited.len() implies names.to_set().contains(
        visited[i],
    ) by {
        let w = choose|w: int| 0 <= w < reg.len() && reg[w].name == visited[i];
        assert(names[w] == visited[i]);
        assert(names.contains(visited[i]));
    };
    assert(visited.to_set().subset_of(names.to_set()));
    visited.unique_seq_to_set();
    names.lemma_cardinality_of_set();
    vstd::set_lib::lemma_len_subset(visited.to_set(), names.to_set());
}

/// Expands a root name into the complete transitive dependency set.
///
/// The worklist guard makes each distinct name resolved at most once, so the
/// traversal terminates on every dependency graph, cycles included; a cycle
/// is not an error. The result is in traversal order, not dependency-first
/// order. The first name whose registry lookup fails aborts the whole call
/// with `DependencyResolution`; success is returned exactly when every name
/// reachable from the root is present in the registry.
pub fn resolve(registry: &Registry, root: &String) -> (r: Result<Vec<Package>, PackageError>)
    requires
        registry.wf(),
    ensures
        r matches Ok(v) ==> resolution(registry.packages_view(), root@, v.deep_view()),
        r is Ok <==> (forall|n: Seq<char>|
            #[trigger] reachable(registry.packages_view(), root@, n) ==> contains_name(
                registry.packages_view(),
                n,
            )),
        r matches Err(e) ==> e@ is DependencyResolution,
{
    let ghost regv = registry.packages_view();
    let ghost rootv = root@;
    let mut state = Resolver::new(root.clone());
    proof {
        assert(reach_k(regv, rootv, rootv, 0));
        assert(state.pending()[0] == rootv);
        assert(state.pending().contains(rootv));
    }
    loop
        invariant
            registry.wf(),
            regv == registry.packages_view(),
            rootv == root@,
            state.wf(),
            state.visited_names().len() <= regv.len(),
            // soundness: every name seen is reachable from the root
            forall|i: int|
                0 <= i < state.pending().len() ==> reachable(
                    regv,
                    rootv,
                    #[trigger] state.pending()[i],
                ),
            forall|i: int|
                0 <= i < state.visited_names().len() ==> reachable(
                    regv,
                    rootv,
                    #[trigger] state.visited_names()[i],
                ),
            // the root is never lost
            state.pending().contains(rootv) || state.visited_names().contains(rootv),
            // closure: dependencies of resolved packages are queued or resolved
            forall|i: int, d: Seq<char>|
                0 <= i < state.visited_names().len() && #[trigger] pkg_named(
                    regv,
                    state.visited_names()[i],
                ).dependencies.contains(d) ==> state.pending().contains(d)
                    || state.visited_names().contains(d),
            // resolved descriptors come from the registry
            forall|i: int|
                0 <= i < state.visited_names().len() ==> contains_name(
                    regv,
                    #[trigger] state.visited_names()[i],
                ),
            forall|i: int|
                0 <= i < state.visited_names().len() ==> state.resolved_views()[i] == pkg_named(
                    regv,
                    state.visited_names()[i],
                ),
        decreases regv.len() - state.visited_names().len(), state.pending().len(),
    {
        let ghost pend0 = state.pending();
        let ghost vis0 = state.visited_names();
        let popped = state.pop_pending();
        match popped {
            None => {
                proof {
                    let out = state.resolved_views();
                    let vis = state.visited_names();
                    let s = vis.to_set();
                    broadcast use vstd::seq_lib::group_seq_properties;

                    assert(s.contains(rootv));
                    assert forall|m: Seq<char>, d: Seq<char>|
                        s.contains(m) && contains_name(regv, m) && #[trigger] pkg_named(
                            regv,
                            m,
                        ).dependencies.contains(d) implies s.contains(d) by {
                        let i = choose|i: int| 0 <= i < vis.len() && vis[i] == m;
                        assert(pkg_named(regv, vis[i]).dependencies.contains(d));
                        assert(vis.contains(d));
                    };
                    assert forall|n: Seq<char>|
                        #[trigger] reachable(regv, rootv, n) implies vis.contains(n) by {
                        let k = choose|k: nat| reach_k(regv, rootv, n, k);
                        lemma_reachable_in_closed_set(regv, rootv, s, n, k);
                    };
                    // every reachable name is in the registry
                    assert forall|n: Seq<char>|
                        #[trigger] reachable(regv, rootv, n) implies contains_name(
                        regv,
                        n,
                    ) by {
                        let i = choose|i: int| 0 <= i < vis.len() && vis[i] == n;
                        assert(contains_name(regv, vis[i]));
                    };
                    // the output is a resolution
                    assert(distinct_names(out)) by {
                        assert forall|i: int, j: int|
                            0 <= i < j < out.len() implies out[i].name != out[j].name by {
                            assert(out[i].name == vis[i]);
                            assert(out[j].name == vis[j]);
                        };
                    };
                    assert forall|n: Seq<char>|
                        #[trigger] reachable(regv, rootv, n) implies contains_name(out, n) by {
                        let i = choose|i: int| 0 <= i < vis.len() && vis[i] == n;
                        assert(out[i].name == n);
                    };
                    assert forall|i: int| 0 <= i < out.len() implies reachable(
                        regv,
                        rootv,
                        #[trigger] out[i].name,
                    ) by {
                        assert(out[i].name == vis[i]);
                    };
                    assert forall|i: int| 0 <= i < out.len() implies contains_name(
                        regv,
                        #[trigger] out[i].name,
                    ) && out[i] == pkg_named(regv, out[i].name) by {
                        assert(out[i] == state.resolved_views()[i]);
                        assert(out[i].name == vis[i]);
                        assert(contains_name(regv, vis[i]));
                        assert(out[i] == pkg_named(regv, vis[i]));
                    };
                    assert(contains_name(out, rootv)) by {
                        let i = choose|i: int| 0 <= i < vis.len() && vis[i] == rootv;
                        assert(out[i].name == rootv);
                    };
                    assert(resolution(regv, rootv, out));
                }
                return Ok(state.into_packages());
            },
            Some(name) => {
                proof {
                    assert(pend0[pend0.len() - 1] == name@);
                    assert(reachable(regv, rootv, name@));
                }
                if state.is_visited(&name) {
                    proof {
                        // the root stays covered: whatever was popped is visited
                        if rootv == name@ {
                            assert(state.visited_names().contains(rootv));
                        } else if pend0.contains(rootv) {
                            let i = choose|i: int| 0 <= i < pend0.len() && pend0[i] == rootv;
                            assert(i < pend0.len() - 1);
                            assert(state.pending()[i] == rootv);
                            assert(state.pending().contains(rootv));
                        }
                        // closure survives the pop: a dropped dependency is the
                        // popped name itself, which is visited
                        assert forall|i: int, d: Seq<char>|
                            0 <= i < state.visited_names().len() && #[trigger] pkg_named(
                                regv,
                                state.visited_names()[i],
                            ).dependencies.contains(d) implies state.pending().contains(d)
                            || state.visited_names().contains(d) by {
                            if d != name@ && pend0.contains(d) {
                                let w = choose|w: int| 0 <= w < pend0.len() && pend0[w] == d;
                                if w < pend0.len() - 1 {
                                    assert(state.pending()[w] == d);
                                    assert(state.pending().contains(d));
                                } else {
                                    assert(pend0[w] == name@);
                                }
                            }
                        };
                    }
                } else {
                    match registry.lookup(&name) {
                        None => {
                            proof {
                                assert(reachable(regv, rootv, name@) && !contains_name(
                                    regv,
                                    name@,
                                ));
                                assert(exists|n: Seq<char>|
                                    #[trigger] reachable(regv, rootv, n) && !contains_name(
                                        regv,
                                        n,
                                    ));
                            }
                            return Err(PackageError::DependencyResolution);
                        },
                        Some(found) => {
                            let package = found.clone();
                            let ghost pkgv = package@;
                            proof {
                                assert(pkgv == pkg_named(regv, name@));
                                assert(pkgv.name == name@);
                            }
                            let ghost pend1 = state.pending();
                            let ghost res0 = state.resolved_views();
                            state.record(package);
                            proof {
                                let vis = state.visited_names();
                                let pend = state.pending();
                                broadcast use vstd::seq_lib::group_seq_properties;

                                // visited stays within the registry
                                assert forall|i: int| 0 <= i < vis.len() implies contains_name(
                                    regv,
                                    #[trigger] vis[i],
                                ) by {
                                    if i < vis0.len() {
                                        assert(vis[i] == vis0[i]);
                                    } else {
                                        assert(vis[i] == name@);
                                    }
                                };
                                lemma_visited_bound(regv, vis);
                                // soundness of the new worklist entries
                                assert forall|i: int| 0 <= i < pend.len() implies reachable(
                                    regv,
                                    rootv,
                                    #[trigger] pend[i],
                                ) by {
                                    if pend1.contains(pend[i]) {
                                        let w = choose|w: int|
                                            0 <= w < pend1.len() && pend1[w] == pend[i];
                                        assert(pend1[w] == pend0[w]);
                                    } else {
                                        assert(pkgv.dependencies.contains(pend[i]));
                                        lemma_reach_step(regv, rootv, name@, pend[i]);
                                    }
                                };
                                // soundness of visited
                                assert forall|i: int| 0 <= i < vis.len() implies reachable(
                                    regv,
                                    rootv,
                                    #[trigger] vis[i],
                                ) by {
                                    if i < vis0.len() {
                                        assert(vis[i] == vis0[i]);
                                    } else {
                                        assert(vis[i] == name@);
                                    }
                                };
                                // the root stays covered
                                if rootv == name@ {
                                    assert(vis[vis.len() - 1] == rootv);
                                    assert(vis.contains(rootv));
                                } else if pend0.contains(rootv) {
                                    let i = choose|i: int|
                                        0 <= i < pend0.len() && pend0[i] == rootv;
                                    assert(i < pend0.len() - 1);
                                    assert(pend1[i] == rootv);
                                    assert(pend1.contains(rootv));
                                } else {
                                    assert(vis0.contains(rootv));
                                    let i = choose|i: int|
                                        0 <= i < vis0.len() && vis0[i] == rootv;
                                    assert(vis[i] == rootv);
                                    assert(vis.contains(rootv));
                                }
                                // closure is maintained
                                assert forall|i: int, d: Seq<char>|
                                    0 <= i < vis.len() && #[trigger] pkg_named(
                                        regv,
                                        vis[i],
                                    ).dependencies.contains(d) implies pend.contains(d)
                                    || vis.contains(d) by {
                                    if i < vis0.len() {
                                        assert(vis[i] == vis0[i]);
                                        if pend0.contains(d) {
                                            let w = choose|w: int|
                                                0 <= w < pend0.len() && pend0[w] == d;
                                            if w < pend0.len() - 1 {
                                                assert(pend1[w] == d);
                                                assert(pend1.contains(d));
                                            } else {
                                                assert(d == name@);
                                                assert(vis[vis.len() - 1] == name@);
                                                assert(vis.contains(d));
                                            }
                                        } else if vis0.contains(d) {
                                            let w = choose|w: int|
                                                0 <= w < vis0.len() && vis0[w] == d;
                                            assert(vis[w] == d);
                                            assert(vis.contains(d));
                                        }
                                    } else {
                                        // the newly resolved package
                                        assert(vis[i] == name@);
                                        assert(pkg_named(regv, name@).dependencies == pkgv.dependencies);
                                        if vis0.contains(d) {
                                            let w = choose|w: int|
                                                0 <= w < vis0.len() && vis0[w] == d;
                                            assert(vis[w] == d);
                                            assert(vis.contains(d));
                                        }
                                    }
                                };
                                // resolved descriptors still match the registry
                                assert forall|i: int| 0 <= i < vis.len() implies state
                                    .resolved_views()[i] == pkg_named(regv, vis[i]) by {
                                    if i < vis0.len() {
                                        assert(vis[i] == vis0[i]);
                                        assert(state.resolved_views()[i] == res0[i]);
                                    } else {
                                        assert(state.resolved_views()[i] == pkgv);
                                    }
                                };
                            }
                        },
                    }
                }
            },
        }
    }
}

/// Diamond dependencies are deduplicated: when two entries of a resolution
/// both declare the name `dep` among their dependencies, the resolution holds
/// exactly one entry named `dep`.
pub proof fn lemma_diamond_shared_once(
    reg: Seq<PackageView>,
    root: Seq<char>,
    out: Seq<PackageView>,
    a: int,
    b: int,
    dep: Seq<char>,
)
    requires
        resolution(reg, root, out),
        0 <= a < out.len(),
        0 <= b < out.len(),
        out[a].dependencies.contains(dep),
        out[b].dependencies.contains(dep),
    ensures
        exists|i: int| 0 <= i < out.len() && (#[trigger] out[i].name) == dep,
        forall|i: int, j: int|
            0 <= i < out.len() && 0 <= j < out.len() && out[i].name == dep && out[j].name == dep
                ==> i == j,
{
    assert(out[a] == pkg_named(reg, out[a].name));
    lemma_reach_step(reg, root, out[a].name, dep);
    assert(contains_name(out, dep));
    assert forall|i: int, j: int|
        0 <= i < out.len() && 0 <= j < out.len() && out[i].name == dep && out[j].name
            == dep implies i == j by {
        if i < j {
            assert(out[i].name != out[j].name);
        } else if j < i {
            assert(out[j].name != out[i].name);
        }
    };
}

} // verus!
