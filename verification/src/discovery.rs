//! The discovery of the requirement graph: starting from the packages that
//! were asked for, package by package, every version of every package that
//! can be reached is recorded with what it requires.
//!
//! The index is not read here. The caller takes the next package, fetches
//! its artifacts, asks [`crate::resolve::plan_package`] which versions to
//! fetch metadata for, and records each version with the requirements that
//! its metadata holds.

use vstd::prelude::*;
use crate::package_name::NormalizedPackageName;
use crate::pool::{intern_id, NameId, PoolData, SolvableId};
use crate::project_info::VersionArtifacts;
use crate::provider::{
    has_solvable, provider_wf, with_candidate, with_dependency, with_name, ProviderData,
    PypiDependencyProvider,
};
use crate::requirement::{marker_in, MarkerEnvironment, Requirement, RequirementData};
use crate::resolve::version_usable;
use crate::version::VersionData;

verus! {

/// The state of a discovery.
#[derive(Debug)]
pub struct Discovery {
    provider: PypiDependencyProvider,
    queue: Vec<NormalizedPackageName>,
    head: usize,
    seen: Vec<NormalizedPackageName>,
    env: MarkerEnvironment,
}

/// The mathematical value of a [`Discovery`]: what was recorded, the
/// packages that wait to be fetched, first in first out, and the packages
/// that were ever put in the queue.
pub struct DiscoveryData {
    pub provider: ProviderData,
    pub queue: Seq<Seq<char>>,
    pub seen: Seq<Seq<char>>,
}

/// The texts of a sequence of names.
pub open spec fn names(v: Seq<NormalizedPackageName>) -> Seq<Seq<char>> {
    Seq::new(v.len(), |i: int| v[i]@)
}

/// The values of a sequence of requirements.
pub open spec fn requirement_values(v: Seq<Requirement>) -> Seq<RequirementData> {
    Seq::new(v.len(), |i: int| v[i]@)
}

/// Whether every solvable of the pool is a final or a post release.
pub open spec fn all_stable(pool: PoolData) -> bool {
    forall|i: int|
        0 <= i < pool.solvables.len() ==> (#[trigger] pool.solvables[i]).1.pre is None
            && pool.solvables[i].1.dev is None
}

/// Whether the state is one of a discovery: no package was put in the queue
/// twice, every package in the queue counts as seen, and no pre-release or
/// development release was recorded.
pub open spec fn discovery_wf(d: DiscoveryData) -> bool {
    &&& provider_wf(d.provider)
    &&& all_stable(d.provider.pool)
    &&& d.seen.no_duplicates()
    &&& d.queue.no_duplicates()
    &&& forall|i: int| 0 <= i < d.queue.len() ==> d.seen.contains(#[trigger] d.queue[i])
}

/// The state once `name` was met: a package that was not seen before is put
/// at the end of the queue.
pub open spec fn with_enqueued(d: DiscoveryData, name: Seq<char>) -> DiscoveryData {
    if d.seen.contains(name) {
        d
    } else {
        DiscoveryData { queue: d.queue.push(name), seen: d.seen.push(name), ..d }
    }
}

/// The state once each of `names` was met, in order.
pub open spec fn with_all_enqueued(d: DiscoveryData, names: Seq<Seq<char>>) -> DiscoveryData
    decreases names.len(),
{
    if names.len() == 0 {
        d
    } else {
        with_enqueued(with_all_enqueued(d, names.drop_last()), names.last())
    }
}

/// Whether a requirement is asked in the environment `env`: it has no
/// marker, or its marker is true there. A marker that cannot be evaluated
/// counts as false.
pub open spec fn requirement_applies(req: RequirementData, env: Seq<Seq<char>>) -> bool {
    match req.env_marker {
        Some(m) => marker_in(m, env) == Some(true),
        None => true,
    }
}

/// The state once `solvable` was found to require `req`: the package is
/// met, its name and the version set are interned, and the version set is
/// added to what the solvable depends on.
pub open spec fn with_requirement(d: DiscoveryData, solvable: int, req: RequirementData) -> DiscoveryData {
    let met = with_enqueued(d, req.name);
    DiscoveryData {
        provider: with_dependency(
            with_name(d.provider, req.name),
            solvable,
            intern_id(d.provider.pool.names, req.name),
            req.specifiers,
        ),
        ..met
    }
}

/// The state once `solvable` was found to require those of `reqs` that are
/// asked in `env`, in order.
pub open spec fn with_requirements(
    d: DiscoveryData,
    solvable: int,
    reqs: Seq<RequirementData>,
    env: Seq<Seq<char>>,
) -> DiscoveryData
    decreases reqs.len(),
{
    if reqs.len() == 0 {
        d
    } else if requirement_applies(reqs.last(), env) {
        with_requirement(with_requirements(d, solvable, reqs.drop_last(), env), solvable, reqs.last())
    } else {
        with_requirements(d, solvable, reqs.drop_last(), env)
    }
}

/// The state once a version of the package `name` was recorded with its
/// requirements. Nothing changes where the version cannot be a candidate,
/// or where it was recorded before.
pub open spec fn with_version(
    d: DiscoveryData,
    name: int,
    usable: bool,
    v: VersionData,
    reqs: Seq<RequirementData>,
    env: Seq<Seq<char>>,
) -> DiscoveryData {
    if !usable || has_solvable(d.provider, name, v) {
        d
    } else {
        with_requirements(
            DiscoveryData { provider: with_candidate(d.provider, name, v), ..d },
            d.provider.pool.solvables.len() as int,
            reqs,
            env,
        )
    }
}

/// To meet a package keeps the state one of a discovery.
pub proof fn lemma_with_enqueued_wf(d: DiscoveryData, name: Seq<char>)
    requires
        discovery_wf(d),
    ensures
        discovery_wf(with_enqueued(d, name)),
        with_enqueued(d, name).provider == d.provider,
{
    let after = with_enqueued(d, name);
    if !d.seen.contains(name) {
        assert forall|i: int, j: int|
            0 <= i < after.seen.len() && 0 <= j < after.seen.len() && i != j implies after.seen[i]
            != after.seen[j] by {
            if i < d.seen.len() {
                assert(d.seen.contains(d.seen[i]));
            }
            if j < d.seen.len() {
                assert(d.seen.contains(d.seen[j]));
            }
        }
        assert forall|i: int, j: int|
            0 <= i < after.queue.len() && 0 <= j < after.queue.len() && i != j implies after.queue[i]
            != after.queue[j] by {
            if i < d.queue.len() {
                assert(d.seen.contains(d.queue[i]));
            }
            if j < d.queue.len() {
                assert(d.seen.contains(d.queue[j]));
            }
        }
        assert forall|i: int| 0 <= i < after.queue.len() implies after.seen.contains(
            #[trigger] after.queue[i],
        ) by {
            if i < d.queue.len() {
                assert(d.seen.contains(d.queue[i]));
                let k = choose|k: int| 0 <= k < d.seen.len() && d.seen[k] == d.queue[i];
                assert(after.seen[k] == d.queue[i]);
            } else {
                assert(after.seen[after.seen.len() - 1] == name);
            }
        }
    }
}

impl Discovery {
    pub closed spec fn view(&self) -> DiscoveryData {
        DiscoveryData {
            provider: self.provider@,
            queue: names(self.queue@).skip(self.head as int),
            seen: names(self.seen@),
        }
    }

    /// The texts of the environment that markers are evaluated in.
    pub closed spec fn env(&self) -> Seq<Seq<char>> {
        self.env@
    }

    /// Whether the state is one of a discovery.
    pub closed spec fn wf(&self) -> bool {
        &&& self.head <= self.queue@.len()
        &&& self.provider.wf()
        &&& discovery_wf(self@)
    }

    /// What `wf` says of the value of the state.
    pub proof fn lemma_wf(&self)
        requires
            self.wf(),
        ensures
            discovery_wf(self@),
    {
    }

    /// A discovery that starts from `roots`, each of them once, with
    /// markers evaluated in `env`.
    pub fn new(roots: &Vec<NormalizedPackageName>, env: MarkerEnvironment) -> (r: Self)
        ensures
            r.wf(),
            r.env() == env@,
            r@.provider.pool.names.len() == 0,
            r@.provider.pool.solvables.len() == 0,
            r@.provider.pool.version_sets.len() == 0,
            r@.queue == r@.seen,
            r@ == with_all_enqueued(
                (DiscoveryData { provider: r@.provider, queue: Seq::empty(), seen: Seq::empty() }),
                names(roots@),
            ),
    {
        let mut d = Discovery {
            provider: PypiDependencyProvider::new(),
            queue: Vec::new(),
            head: 0,
            seen: Vec::new(),
            env,
        };
        let ghost start = d@;
        assert(start.queue =~= Seq::<Seq<char>>::empty());
        assert(start.seen =~= Seq::<Seq<char>>::empty());
        assert(names(roots@).take(0) =~= Seq::<Seq<char>>::empty());
        let mut i: usize = 0;
        while i < roots.len()
            invariant
                i <= roots.len(),
                d.wf(),
                d.env() == env@,
                d@.provider == start.provider,
                d@.queue == d@.seen,
                d@ == with_all_enqueued(start, names(roots@).take(i as int)),
            decreases roots.len() - i,
        {
            proof {
                assert(names(roots@).take(i + 1).drop_last() =~= names(roots@).take(i as int));
                assert(names(roots@).take(i + 1).last() == roots@[i as int]@);
            }
            d.enqueue(&roots[i]);
            i += 1;
        }
        proof {
            assert(names(roots@).take(roots.len() as int) =~= names(roots@));
        }
        d
    }

    fn enqueue(&mut self, name: &NormalizedPackageName)
        requires
            old(self).wf(),
        ensures
            final(self).wf(),
            final(self).env() == old(self).env(),
            final(self)@ == with_enqueued(old(self)@, name@),
    {
        let ghost seen = self@.seen;
        let mut i: usize = 0;
        while i < self.seen.len()
            invariant
                i <= self.seen.len(),
                *self == *old(self),
                self.wf(),
                seen == self@.seen,
                forall|j: int| 0 <= j < i ==> seen[j] != name@,
            decreases self.seen.len() - i,
        {
            if self.seen[i].same(name) {
                assert(seen[i as int] == name@);
                return ;
            }
            i += 1;
        }
        proof {
            lemma_with_enqueued_wf(self@, name@);
        }
        self.queue.push(name.duplicate());
        self.seen.push(name.duplicate());
        assert(self@.queue =~= old(self)@.queue.push(name@));
        assert(self@.seen =~= old(self)@.seen.push(name@));
    }

    /// The number of packages that wait to be fetched.
    pub fn pending(&self) -> (r: usize)
        requires
            self.wf(),
        ensures
            r == self@.queue.len(),
    {
        self.queue.len() - self.head
    }

    /// The packages that wait to be fetched, the next one first.
    pub fn waiting(&self) -> (r: Vec<NormalizedPackageName>)
        requires
            self.wf(),
        ensures
            names(r@) == self@.queue,
    {
        let mut out: Vec<NormalizedPackageName> = Vec::new();
        let mut i: usize = self.head;
        while i < self.queue.len()
            invariant
                self.head <= i <= self.queue.len(),
                out@.len() == i - self.head,
                forall|k: int| 0 <= k < out@.len() ==> (#[trigger] out@[k])@ == self.queue@[self.head + k]@,
            decreases self.queue.len() - i,
        {
            out.push(self.queue[i].duplicate());
            i += 1;
        }
        assert(names(out@) =~= self@.queue);
        out
    }

    /// The number of packages that were ever put in the queue.
    pub fn seen_count(&self) -> (r: usize)
        ensures
            r == self@.seen.len(),
    {
        self.seen.len()
    }

    /// Takes the next package to fetch from the queue.
    pub fn next_package(&mut self) -> (r: Option<NormalizedPackageName>)
        requires
            old(self).wf(),
        ensures
            final(self).wf(),
            final(self).env() == old(self).env(),
            match r {
                Some(name) => old(self)@.queue.len() > 0 && name@ == old(self)@.queue[0] && final(self)@ == (DiscoveryData { queue: old(self)@.queue.drop_first(), ..old(self)@ }),
                None => old(self)@.queue.len() == 0 && final(self)@ == old(self)@,
            },
    {
        if self.head >= self.queue.len() {
            return None;
        }
        let name = self.queue[self.head].duplicate();
        self.head += 1;
        proof {
            let before = old(self)@;
            let after = self@;
            assert(after.queue =~= before.queue.drop_first());
            assert forall|i: int| 0 <= i < after.queue.len() implies after.seen.contains(
                #[trigger] after.queue[i],
            ) by {
                assert(after.queue[i] == before.queue[i + 1]);
            }
            assert forall|i: int, j: int|
                0 <= i < after.queue.len() && 0 <= j < after.queue.len() && i != j implies after.queue[i]
                != after.queue[j] by {
                assert(after.queue[i] == before.queue[i + 1]);
                assert(after.queue[j] == before.queue[j + 1]);
            }
        }
        Some(name)
    }

    /// Interns the name of a package whose artifacts were fetched.
    pub fn begin_package(&mut self, package: &NormalizedPackageName) -> (id: NameId)
        requires
            old(self).wf(),
        ensures
            final(self).wf(),
            final(self).env() == old(self).env(),
            final(self)@ == (DiscoveryData {
                provider: with_name(old(self)@.provider, package@),
                ..old(self)@
            }),
            id.0 == intern_id(old(self)@.provider.pool.names, package@),
            id.0 < final(self)@.provider.pool.names.len(),
    {
        self.provider.intern_package_name(package)
    }

    /// Records one version of the package `package` with the requirements
    /// that its metadata holds. The version becomes a candidate of the
    /// package, and each requirement that is asked in the environment
    /// becomes a dependency of it; a package that is required and was not
    /// seen before is put in the queue. Nothing is recorded for a version
    /// that cannot be a candidate or that was recorded before.
    pub fn record_version(
        &mut self,
        package: NameId,
        entry: &VersionArtifacts,
        requires_dist: &Vec<Requirement>,
    ) -> (r: Option<SolvableId>)
        requires
            old(self).wf(),
            package.0 < old(self)@.provider.pool.names.len(),
        ensures
            final(self).wf(),
            final(self).env() == old(self).env(),
            final(self)@ == with_version(
                old(self)@,
                package.0 as int,
                version_usable(*entry),
                entry.version@,
                requirement_values(requires_dist@),
                old(self).env(),
            ),
            match r {
                Some(id) => version_usable(*entry) && !has_solvable(
                    old(self)@.provider,
                    package.0 as int,
                    entry.version@,
                ) && id.0 == old(self)@.provider.pool.solvables.len(),
                None => !version_usable(*entry) || has_solvable(
                    old(self)@.provider,
                    package.0 as int,
                    entry.version@,
                ),
            },
    {
        if entry.version.has_pre() || entry.version.has_dev() {
            return None;
        }
        let usable = crate::resolve::select_artifacts(&entry.artifacts);
        if usable.len() == 0 {
            return None;
        }
        let id = match self.provider.add_candidate(package, entry.version.duplicate()) {
            Some(id) => id,
            None => {
                return None;
            },
        };
        let ghost start = self@;
        let ghost env = self.env@;
        let ghost reqs = requirement_values(requires_dist@);
        assert(reqs.take(0) =~= Seq::<RequirementData>::empty());
        let mut i: usize = 0;
        while i < requires_dist.len()
            invariant
                i <= requires_dist.len(),
                self.wf(),
                env == self.env@,
                env == old(self).env(),
                reqs == requirement_values(requires_dist@),
                id.0 < start.provider.pool.solvables.len(),
                self@.provider.pool.solvables == start.provider.pool.solvables,
                self@ == with_requirements(start, id.0 as int, reqs.take(i as int), env),
            decreases requires_dist.len() - i,
        {
            let req = &requires_dist[i];
            proof {
                assert(reqs.take(i + 1).drop_last() =~= reqs.take(i as int));
                assert(reqs.take(i + 1).last() == req@);
            }
            if req.applies_in(&self.env) {
                let ghost before = self@;
                self.enqueue(&req.name);
                let name = self.provider.intern_package_name(&req.name);
                self.provider.add_dependency(id, name, req.specifiers.duplicate());
                proof {
                    lemma_with_enqueued_wf(before, req.name@);
                    assert(self@ == with_requirement(before, id.0 as int, req@));
                }
            }
            i += 1;
        }
        proof {
            assert(reqs.take(requires_dist.len() as int) =~= reqs);
        }
        Some(id)
    }

    /// Ends the discovery and gives what was recorded.
    pub fn finish(self) -> (r: PypiDependencyProvider)
        requires
            self.wf(),
        ensures
            r.wf(),
            r@ == self@.provider,
            all_stable(r@.pool),
    {
        self.provider
    }
}

} // verus!
