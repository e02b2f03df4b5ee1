//! What is handed to the solver: the pool, for each package the versions
//! that may be chosen, and for each of them what it depends on.

use vstd::prelude::*;
use vstd::seq_lib::{to_multiset_contains, to_multiset_insert};
use crate::package_name::NormalizedPackageName;
use crate::pool::{
    intern_id, intern_table, lemma_intern_injective, pool_wf, solvable_keys, NameId, Pool,
    PoolData, SolvableId, VersionSetId,
};
use crate::requirement::{Requirement, RequirementData};
use crate::specifiers::{satisfied, Specifiers};
use crate::version::{
    lemma_precedes_asymmetric, lemma_precedes_total, lemma_precedes_transitive, precedes,
    same_rank, sort_key, Version, VersionData,
};

verus! {

/// The candidates of a package.
#[derive(Debug)]
pub struct Candidates {
    pub candidates: Vec<SolvableId>,
}

/// What a solvable depends on: version sets that must all be met.
#[derive(Debug)]
pub struct Dependencies {
    pub requirements: Vec<VersionSetId>,
}

/// The pool, the candidates of each package and the dependencies of each
/// solvable.
#[derive(Debug)]
pub struct PypiDependencyProvider {
    pool: Pool,
    candidates: Vec<Vec<SolvableId>>,
    dependencies: Vec<Vec<VersionSetId>>,
}

/// The mathematical value of a [`PypiDependencyProvider`]: the pool, for
/// each name the numbers of its candidates in the order in which they were
/// found, and for each solvable the numbers of the version sets it depends
/// on, in the order of its requirements.
pub struct ProviderData {
    pub pool: PoolData,
    pub candidates: Seq<Seq<int>>,
    pub dependencies: Seq<Seq<int>>,
}

/// The numbers of a list of solvables.
pub open spec fn solvable_numbers(ids: Seq<SolvableId>) -> Seq<int> {
    Seq::new(ids.len(), |i: int| ids[i].0 as int)
}

/// The values of a list of requirements.
pub open spec fn requirement_list(v: Seq<Requirement>) -> Seq<RequirementData> {
    Seq::new(v.len(), |i: int| v[i]@)
}

/// The numbers of a list of version sets.
pub open spec fn version_set_numbers(ids: Seq<VersionSetId>) -> Seq<int> {
    Seq::new(ids.len(), |i: int| ids[i].0 as int)
}

/// Whether the lists fit the pool: there is one list of candidates for each
/// name and one list of dependencies for each solvable; the candidates of a
/// name are solvables of that name, none of them twice; the dependencies are
/// version sets of the pool.
pub open spec fn provider_wf(p: ProviderData) -> bool {
    &&& pool_wf(p.pool)
    &&& p.candidates.len() == p.pool.names.len()
    &&& p.dependencies.len() == p.pool.solvables.len()
    &&& forall|n: int, k: int|
        0 <= n < p.candidates.len() && 0 <= k < p.candidates[n].len() ==> 0 <= (
        #[trigger] p.candidates[n][k]) < p.pool.solvables.len() && p.pool.solvables[p.candidates[n][k]].0
            == n
    &&& forall|n: int| 0 <= n < p.candidates.len() ==> (#[trigger] p.candidates[n]).no_duplicates()
    &&& forall|s: int, k: int|
        0 <= s < p.dependencies.len() && 0 <= k < p.dependencies[s].len() ==> 0 <= (
        #[trigger] p.dependencies[s][k]) < p.pool.version_sets.len()
}

/// The provider once `name` is interned: a name that is new gets an empty
/// list of candidates.
pub open spec fn with_name(p: ProviderData, name: Seq<char>) -> ProviderData {
    if p.pool.names.contains(name) {
        p
    } else {
        ProviderData {
            pool: PoolData { names: p.pool.names.push(name), ..p.pool },
            candidates: p.candidates.push(Seq::empty()),
            ..p
        }
    }
}

/// Whether the pool holds a solvable of the package `name` at the place of
/// `v` in the order of versions.
pub open spec fn has_solvable(p: ProviderData, name: int, v: VersionData) -> bool {
    solvable_keys(p.pool.solvables).contains((name, sort_key(v)))
}

/// The provider once version `v` is a candidate of the package `name`: a
/// new solvable, last among the candidates of the package, with no
/// dependencies yet. Nothing changes where the pool holds that solvable.
pub open spec fn with_candidate(p: ProviderData, name: int, v: VersionData) -> ProviderData {
    if has_solvable(p, name, v) {
        p
    } else {
        ProviderData {
            pool: PoolData { solvables: p.pool.solvables.push((name, v)), ..p.pool },
            candidates: p.candidates.update(
                name,
                p.candidates[name].push(p.pool.solvables.len() as int),
            ),
            dependencies: p.dependencies.push(Seq::empty()),
        }
    }
}

/// The provider once `solvable` depends on the versions of the package
/// `name` that meet `specifiers`: the version set is interned, and its
/// number is last among the dependencies of the solvable.
pub open spec fn with_dependency(
    p: ProviderData,
    solvable: int,
    name: int,
    specifiers: Seq<Seq<char>>,
) -> ProviderData {
    ProviderData {
        pool: PoolData {
            version_sets: intern_table(p.pool.version_sets, (name, specifiers)),
            ..p.pool
        },
        dependencies: p.dependencies.update(
            solvable,
            p.dependencies[solvable].push(intern_id(p.pool.version_sets, (name, specifiers))),
        ),
        ..p
    }
}

/// The provider once `name` and the versions of it that meet `specifiers`
/// are interned, as for a requirement that the resolution starts from.
pub open spec fn with_root(p: ProviderData, name: Seq<char>, specifiers: Seq<Seq<char>>) -> ProviderData {
    ProviderData {
        pool: PoolData {
            version_sets: intern_table(
                p.pool.version_sets,
                (intern_id(p.pool.names, name), specifiers),
            ),
            ..with_name(p, name).pool
        },
        ..with_name(p, name)
    }
}

/// The number of the version set of a requirement that the resolution
/// starts from.
pub open spec fn root_id(p: ProviderData, name: Seq<char>, specifiers: Seq<Seq<char>>) -> int {
    intern_id(p.pool.version_sets, (intern_id(p.pool.names, name), specifiers))
}

/// The provider once each of `roots` is interned, in order.
pub open spec fn with_roots(p: ProviderData, roots: Seq<RequirementData>) -> ProviderData
    decreases roots.len(),
{
    if roots.len() == 0 {
        p
    } else {
        with_root(with_roots(p, roots.drop_last()), roots.last().name, roots.last().specifiers)
    }
}

/// The numbers of the version sets of `roots`, in order.
pub open spec fn root_ids(p: ProviderData, roots: Seq<RequirementData>) -> Seq<int>
    decreases roots.len(),
{
    if roots.len() == 0 {
        Seq::empty()
    } else {
        root_ids(p, roots.drop_last()).push(
            root_id(with_roots(p, roots.drop_last()), roots.last().name, roots.last().specifiers),
        )
    }
}

/// The version of the solvable with the number `id`.
pub open spec fn version_at(pool: PoolData, id: int) -> VersionData {
    pool.solvables[id].1
}

/// Whether no solvable of the list is lower than one that follows it.
pub open spec fn descending(pool: PoolData, ids: Seq<SolvableId>) -> bool {
    forall|i: int, j: int|
        0 <= i < j < ids.len() ==> !precedes(
            version_at(pool, ids[i].0 as int),
            version_at(pool, ids[j].0 as int),
        )
}

/// A list of different solvables of one package that is in descending
/// order is strictly so: each solvable is higher than all that follow it.
pub proof fn lemma_descending_is_strict(pool: PoolData, ids: Seq<SolvableId>, name: int)
    requires
        pool_wf(pool),
        descending(pool, ids),
        ids.no_duplicates(),
        forall|i: int|
            0 <= i < ids.len() ==> (#[trigger] ids[i]).0 < pool.solvables.len()
                && pool.solvables[ids[i].0 as int].0 == name,
    ensures
        forall|i: int, j: int|
            0 <= i < j < ids.len() ==> precedes(
                version_at(pool, ids[j].0 as int),
                version_at(pool, ids[i].0 as int),
            ),
{
    assert forall|i: int, j: int| 0 <= i < j < ids.len() implies precedes(
        version_at(pool, ids[j].0 as int),
        version_at(pool, ids[i].0 as int),
    ) by {
        let a = ids[i].0 as int;
        let b = ids[j].0 as int;
        assert(ids[i] != ids[j]);
        assert(a != b);
        let keys = solvable_keys(pool.solvables);
        assert(keys[a] != keys[b]);
        assert(!same_rank(version_at(pool, a), version_at(pool, b)));
        lemma_precedes_total(version_at(pool, a), version_at(pool, b));
    }
}

impl PypiDependencyProvider {
    pub closed spec fn view(&self) -> ProviderData {
        ProviderData {
            pool: self.pool@,
            candidates: Seq::new(
                self.candidates@.len(),
                |i: int| solvable_numbers(self.candidates@[i]@),
            ),
            dependencies: Seq::new(
                self.dependencies@.len(),
                |i: int| version_set_numbers(self.dependencies@[i]@),
            ),
        }
    }

    pub open spec fn wf(&self) -> bool {
        provider_wf(self@)
    }

    /// The text of the version of the solvable with the number `id`.
    pub closed spec fn version_text(&self, id: int) -> Seq<char> {
        self.pool.version_text(id)
    }

    /// Whether one of the solvables `chosen` is in the version set `set`: it
    /// is of the package of the set, and its version meets the specifiers.
    pub open spec fn meets(&self, chosen: Seq<SolvableId>, set: int) -> bool {
        exists|k: int|
            0 <= k < chosen.len() && self.holds(#[trigger] chosen[k], set)
    }

    /// Whether the solvable is in the version set `set`.
    pub open spec fn holds(&self, solvable: SolvableId, set: int) -> bool {
        &&& self@.pool.solvables[solvable.0 as int].0 == self@.pool.version_sets[set].0
        &&& satisfied(self@.pool.version_sets[set].1, self.version_text(solvable.0 as int)) == Ok::<
            bool,
            Seq<char>,
        >(true)
    }

    /// Whether the solvables `chosen` are a solution for the version sets
    /// `roots`: they are solvables of the pool, no two of one package; each
    /// of the roots is met by one of them; and so is each version set that
    /// one of them depends on.
    pub open spec fn is_solution(&self, roots: Seq<VersionSetId>, chosen: Seq<SolvableId>) -> bool {
        &&& forall|k: int| 0 <= k < chosen.len() ==> (#[trigger] chosen[k]).0 < self@.pool.solvables.len()
        &&& forall|i: int, j: int|
            0 <= i < j < chosen.len() ==> self@.pool.solvables[chosen[i].0 as int].0
                != self@.pool.solvables[chosen[j].0 as int].0
        &&& forall|r: int|
            0 <= r < roots.len() ==> (#[trigger] roots[r]).0 < self@.pool.version_sets.len()
                && self.meets(chosen, roots[r].0 as int)
        &&& forall|k: int, d: int|
            0 <= k < chosen.len() && 0 <= d < self@.dependencies[chosen[k].0 as int].len()
                ==> self.meets(chosen, #[trigger] self@.dependencies[chosen[k].0 as int][d])
    }

    /// A provider with an empty pool.
    pub fn new() -> (r: Self)
        ensures
            r.wf(),
            r@.pool.names.len() == 0,
            r@.pool.solvables.len() == 0,
            r@.pool.version_sets.len() == 0,
            r@.candidates.len() == 0,
            r@.dependencies.len() == 0,
    {
        PypiDependencyProvider {
            pool: Pool::new(),
            candidates: Vec::new(),
            dependencies: Vec::new(),
        }
    }

    /// The pool that the numbers of this provider belong to.
    pub fn pool(&self) -> (r: &Pool)
        ensures
            r@ == self@.pool,
    {
        &self.pool
    }

    /// Interns a package name.
    pub fn intern_package_name(&mut self, name: &NormalizedPackageName) -> (id: NameId)
        requires
            old(self).wf(),
        ensures
            final(self).wf(),
            final(self)@ == with_name(old(self)@, name@),
            id.0 == intern_id(old(self)@.pool.names, name@),
            id.0 < final(self)@.pool.names.len(),
    {
        proof {
            lemma_intern_injective(self@.pool.names, name@, name@);
        }
        let before = self.pool.names_len();
        let id = self.pool.intern_package_name(name);
        if self.pool.names_len() != before {
            self.candidates.push(Vec::new());
            assert(solvable_numbers(self.candidates@[before as int]@) =~= Seq::<int>::empty());
            assert(self@.candidates =~= old(self)@.candidates.push(Seq::empty()));
        } else {
            assert(self@.candidates =~= old(self)@.candidates);
        }
        assert(self@.dependencies =~= old(self)@.dependencies);
        id
    }

    /// Makes `version` a candidate of the package `name`, unless the pool
    /// holds that solvable already. Gives the number of the new solvable.
    pub fn add_candidate(&mut self, name: NameId, version: Version) -> (r: Option<SolvableId>)
        requires
            old(self).wf(),
            name.0 < old(self)@.pool.names.len(),
        ensures
            final(self).wf(),
            final(self)@ == with_candidate(old(self)@, name.0 as int, version@),
            match r {
                Some(id) => !has_solvable(old(self)@, name.0 as int, version@) && id.0 == old(self)@.pool.solvables.len(),
                None => has_solvable(old(self)@, name.0 as int, version@),
            },
    {
        let ghost keys = solvable_keys(self@.pool.solvables);
        let ghost key = (name.0 as int, sort_key(version@));
        proof {
            lemma_intern_injective(keys, key, key);
        }
        let before = self.pool.solvables_len();
        let id = self.pool.intern_solvable(name, version);
        if id.0 < before {
            assert(self@.candidates =~= old(self)@.candidates);
            assert(self@.dependencies =~= old(self)@.dependencies);
            None
        } else {
            self.candidates[name.0].push(id);
            self.dependencies.push(Vec::new());
            proof {
                let old_list = old(self)@.candidates[name.0 as int];
                assert(solvable_numbers(self.candidates@[name.0 as int]@) =~= old_list.push(
                    id.0 as int,
                ));
                assert(self@.candidates =~= old(self)@.candidates.update(
                    name.0 as int,
                    old_list.push(id.0 as int),
                ));
                assert(version_set_numbers(self.dependencies@[before as int]@) =~= Seq::<
                    int,
                >::empty());
                assert(self@.dependencies =~= old(self)@.dependencies.push(Seq::empty()));
                assert(self@.candidates[name.0 as int].no_duplicates());
            }
            Some(id)
        }
    }

    /// Makes `solvable` depend on the versions of the package `name` that
    /// meet `specifiers`.
    pub fn add_dependency(
        &mut self,
        solvable: SolvableId,
        name: NameId,
        specifiers: Specifiers,
    ) -> (id: VersionSetId)
        requires
            old(self).wf(),
            solvable.0 < old(self)@.pool.solvables.len(),
            name.0 < old(self)@.pool.names.len(),
        ensures
            final(self).wf(),
            final(self)@ == with_dependency(
                old(self)@,
                solvable.0 as int,
                name.0 as int,
                specifiers@,
            ),
            id.0 == intern_id(old(self)@.pool.version_sets, (name.0 as int, specifiers@)),
    {
        let ghost x = (name.0 as int, specifiers@);
        proof {
            lemma_intern_injective(self@.pool.version_sets, x, x);
        }
        let id = self.pool.intern_version_set(name, specifiers);
        self.dependencies[solvable.0].push(id);
        proof {
            let old_list = old(self)@.dependencies[solvable.0 as int];
            assert(version_set_numbers(self.dependencies@[solvable.0 as int]@) =~= old_list.push(
                id.0 as int,
            ));
            assert(self@.dependencies =~= old(self)@.dependencies.update(
                solvable.0 as int,
                old_list.push(id.0 as int),
            ));
            assert(self@.candidates =~= old(self)@.candidates);
        }
        id
    }

    /// Interns the version set of a requirement that the resolution starts
    /// from.
    pub fn intern_root(&mut self, root: &Requirement) -> (id: VersionSetId)
        requires
            old(self).wf(),
        ensures
            final(self).wf(),
            final(self)@ == with_root(old(self)@, root.name@, root.specifiers@),
            id.0 == root_id(old(self)@, root.name@, root.specifiers@),
            id.0 < final(self)@.pool.version_sets.len(),
    {
        let name = self.intern_package_name(&root.name);
        let ghost x = (name.0 as int, root.specifiers@);
        proof {
            lemma_intern_injective(self@.pool.version_sets, x, x);
        }
        let id = self.pool.intern_version_set(name, root.specifiers.duplicate());
        proof {
            assert(self@.candidates =~= with_name(old(self)@, root.name@).candidates);
            assert(self@.dependencies =~= old(self)@.dependencies);
        }
        id
    }

    /// Interns the version sets of the requirements that the resolution
    /// starts from, and gives their numbers in the order of the
    /// requirements.
    pub fn intern_roots(&mut self, roots: &Vec<Requirement>) -> (ids: Vec<VersionSetId>)
        requires
            old(self).wf(),
        ensures
            final(self).wf(),
            final(self)@ == with_roots(old(self)@, requirement_list(roots@)),
            version_set_numbers(ids@) == root_ids(old(self)@, requirement_list(roots@)),
    {
        let ghost all = requirement_list(roots@);
        let ghost start = self@;
        let mut ids: Vec<VersionSetId> = Vec::new();
        let mut i: usize = 0;
        assert(all.take(0) =~= Seq::<RequirementData>::empty());
        assert(version_set_numbers(ids@) =~= Seq::<int>::empty());
        while i < roots.len()
            invariant
                i <= roots.len(),
                self.wf(),
                all == requirement_list(roots@),
                self@ == with_roots(start, all.take(i as int)),
                version_set_numbers(ids@) == root_ids(start, all.take(i as int)),
            decreases roots.len() - i,
        {
            proof {
                assert(all.take(i + 1).drop_last() =~= all.take(i as int));
                assert(all.take(i + 1).last() == roots@[i as int]@);
            }
            let ghost before = version_set_numbers(ids@);
            let id = self.intern_root(&roots[i]);
            ids.push(id);
            assert(version_set_numbers(ids@) =~= before.push(id.0 as int));
            i += 1;
        }
        proof {
            assert(all.take(roots.len() as int) =~= all);
        }
        ids
    }

    fn is_met(&self, chosen: &Vec<SolvableId>, set: VersionSetId) -> (r: bool)
        requires
            self.wf(),
            set.0 < self@.pool.version_sets.len(),
            forall|k: int|
                0 <= k < chosen@.len() ==> (#[trigger] chosen@[k]).0 < self@.pool.solvables.len(),
        ensures
            r == self.meets(chosen@, set.0 as int),
    {
        let version_set = self.pool.resolve_version_set(set);
        let mut k: usize = 0;
        while k < chosen.len()
            invariant
                k <= chosen.len(),
                self.wf(),
                set.0 < self@.pool.version_sets.len(),
                (version_set.name.0 as int, version_set.specifiers@) == self@.pool.version_sets[set.0 as int],
                forall|i: int|
                    0 <= i < chosen@.len() ==> (#[trigger] chosen@[i]).0 < self@.pool.solvables.len(),
                forall|i: int| 0 <= i < k ==> !self.holds(#[trigger] chosen@[i], set.0 as int),
            decreases chosen.len() - k,
        {
            let solvable = self.pool.resolve_solvable(chosen[k]);
            if solvable.name.0 == version_set.name.0 && version_set.contains(&solvable.version) {
                assert(self.holds(chosen@[k as int], set.0 as int));
                return true;
            }
            k += 1;
        }
        false
    }

    /// Whether the solvables `chosen` are a solution for the version sets
    /// `roots`.
    pub fn check_solution(&self, roots: &Vec<VersionSetId>, chosen: &Vec<SolvableId>) -> (r: bool)
        requires
            self.wf(),
        ensures
            r == self.is_solution(roots@, chosen@),
    {
        let mut k: usize = 0;
        while k < chosen.len()
            invariant
                k <= chosen.len(),
                forall|i: int| 0 <= i < k ==> (#[trigger] chosen@[i]).0 < self@.pool.solvables.len(),
            decreases chosen.len() - k,
        {
            if chosen[k].0 >= self.pool.solvables_len() {
                return false;
            }
            k += 1;
        }
        let mut j: usize = 0;
        while j < chosen.len()
            invariant
                j <= chosen.len(),
                self.wf(),
                forall|i: int|
                    0 <= i < chosen@.len() ==> (#[trigger] chosen@[i]).0 < self@.pool.solvables.len(),
                forall|a: int, b: int|
                    0 <= a < b < j ==> self@.pool.solvables[chosen@[a].0 as int].0
                        != self@.pool.solvables[chosen@[b].0 as int].0,
            decreases chosen.len() - j,
        {
            let name = self.pool.resolve_solvable(chosen[j]).name;
            let mut i: usize = 0;
            while i < j
                invariant
                    i <= j < chosen.len(),
                    self.wf(),
                    forall|x: int|
                        0 <= x < chosen@.len() ==> (#[trigger] chosen@[x]).0 < self@.pool.solvables.len(),
                    name.0 == self@.pool.solvables[chosen@[j as int].0 as int].0,
                    forall|a: int|
                        0 <= a < i ==> self@.pool.solvables[chosen@[a].0 as int].0 != name.0,
                decreases j - i,
            {
                if self.pool.resolve_solvable(chosen[i]).name.0 == name.0 {
                    return false;
                }
                i += 1;
            }
            j += 1;
        }
        let mut r: usize = 0;
        while r < roots.len()
            invariant
                r <= roots.len(),
                self.wf(),
                forall|i: int|
                    0 <= i < chosen@.len() ==> (#[trigger] chosen@[i]).0 < self@.pool.solvables.len(),
                forall|x: int|
                    0 <= x < r ==> (#[trigger] roots@[x]).0 < self@.pool.version_sets.len()
                        && self.meets(chosen@, roots@[x].0 as int),
            decreases roots.len() - r,
        {
            if roots[r].0 >= self.pool.version_sets_len() || !self.is_met(chosen, roots[r]) {
                return false;
            }
            r += 1;
        }
        let mut k: usize = 0;
        while k < chosen.len()
            invariant
                k <= chosen.len(),
                self.wf(),
                forall|i: int|
                    0 <= i < chosen@.len() ==> (#[trigger] chosen@[i]).0 < self@.pool.solvables.len(),
                forall|x: int, d: int|
                    0 <= x < k && 0 <= d < self@.dependencies[chosen@[x].0 as int].len()
                        ==> self.meets(chosen@, #[trigger] self@.dependencies[chosen@[x].0 as int][d]),
            decreases chosen.len() - k,
        {
            let list = &self.dependencies[chosen[k].0];
            let ghost numbers = self@.dependencies[chosen@[k as int].0 as int];
            assert(numbers == version_set_numbers(list@));
            let mut d: usize = 0;
            while d < list.len()
                invariant
                    d <= list.len(),
                    k < chosen.len(),
                    self.wf(),
                    numbers == version_set_numbers(list@),
                    numbers == self@.dependencies[chosen@[k as int].0 as int],
                    forall|i: int|
                        0 <= i < chosen@.len() ==> (#[trigger] chosen@[i]).0 < self@.pool.solvables.len(),
                    forall|y: int| 0 <= y < d ==> self.meets(chosen@, #[trigger] numbers[y]),
                decreases list.len() - d,
            {
                assert(numbers[d as int] == list@[d as int].0);
                assert(0 <= numbers[d as int] < self@.pool.version_sets.len());
                if !self.is_met(chosen, list[d]) {
                    return false;
                }
                d += 1;
            }
            k += 1;
        }
        true
    }

    /// The name and the version of each of `solvables`, as text, in order.
    pub fn describe(&self, solvables: &Vec<SolvableId>) -> (r: Vec<(String, String)>)
        requires
            self.wf(),
            forall|i: int|
                0 <= i < solvables@.len() ==> (#[trigger] solvables@[i]).0 < self@.pool.solvables.len(),
        ensures
            r@.len() == solvables@.len(),
            forall|i: int|
                0 <= i < r@.len() ==> (#[trigger] r@[i]).0@ == self@.pool.names[self@.pool.solvables[solvables@[i].0 as int].0]
                    && r@[i].1@ == self.version_text(solvables@[i].0 as int),
    {
        let mut out: Vec<(String, String)> = Vec::new();
        let mut i: usize = 0;
        while i < solvables.len()
            invariant
                i <= solvables.len(),
                self.wf(),
                forall|k: int|
                    0 <= k < solvables@.len() ==> (#[trigger] solvables@[k]).0 < self@.pool.solvables.len(),
                out@.len() == i,
                forall|k: int|
                    0 <= k < i ==> (#[trigger] out@[k]).0@ == self@.pool.names[self@.pool.solvables[solvables@[k].0 as int].0]
                        && out@[k].1@ == self.version_text(solvables@[k].0 as int),
            decreases solvables.len() - i,
        {
            let solvable = self.pool.resolve_solvable(solvables[i]);
            let name = self.pool.resolve_package_name(solvable.name);
            out.push((name.as_str().to_owned(), solvable.version.as_str().to_owned()));
            i += 1;
        }
        out
    }

    /// The candidates of the package `name`, in the order in which they were
    /// found; none where the package has no candidate.
    pub fn get_candidates(&self, name: NameId) -> (r: Option<Candidates>)
        ensures
            match r {
                Some(c) => name.0 < self@.candidates.len() && c.candidates@.len() > 0
                    && solvable_numbers(c.candidates@) == self@.candidates[name.0 as int],
                None => name.0 >= self@.candidates.len() || self@.candidates[name.0 as int].len()
                    == 0,
            },
            self.wf() ==> (r matches Some(c) ==> c.candidates@.no_duplicates() && forall|i: int|
                0 <= i < c.candidates@.len() ==> (#[trigger] c.candidates@[i]).0 < self@.pool.solvables.len()
                    && self@.pool.solvables[c.candidates@[i].0 as int].0 == name.0),
    {
        if name.0 >= self.candidates.len() || self.candidates[name.0].len() == 0 {
            return None;
        }
        let list = &self.candidates[name.0];
        let mut out: Vec<SolvableId> = Vec::new();
        let mut i: usize = 0;
        while i < list.len()
            invariant
                i <= list.len(),
                out@ =~= list@.take(i as int),
            decreases list.len() - i,
        {
            out.push(list[i]);
            i += 1;
        }
        assert(out@ =~= list@);
        proof {
            if self.wf() {
                let numbers = self@.candidates[name.0 as int];
                assert(numbers == solvable_numbers(out@));
                assert forall|i: int| 0 <= i < out@.len() implies (#[trigger] out@[i]).0 < self@.pool.solvables.len()
                    && self@.pool.solvables[out@[i].0 as int].0 == name.0 by {
                    assert(numbers[i] == out@[i].0);
                }
                assert forall|i: int, j: int| 0 <= i < out@.len() && 0 <= j < out@.len() && i != j implies out@[i]
                    != out@[j] by {
                    assert(numbers[i] == out@[i].0);
                    assert(numbers[j] == out@[j].0);
                }
            }
        }
        Some(Candidates { candidates: out })
    }

    /// What the solvable depends on, in the order of its requirements;
    /// nothing where the solvable is not known.
    pub fn get_dependencies(&self, solvable: SolvableId) -> (r: Dependencies)
        ensures
            version_set_numbers(r.requirements@) == if solvable.0 < self@.dependencies.len() {
                self@.dependencies[solvable.0 as int]
            } else {
                Seq::empty()
            },
    {
        let mut out: Vec<VersionSetId> = Vec::new();
        if solvable.0 < self.dependencies.len() {
            let list = &self.dependencies[solvable.0];
            let mut i: usize = 0;
            while i < list.len()
                invariant
                    i <= list.len(),
                    out@ =~= list@.take(i as int),
                decreases list.len() - i,
            {
                out.push(list[i]);
                i += 1;
            }
            assert(out@ =~= list@);
        } else {
            assert(version_set_numbers(out@) =~= Seq::<int>::empty());
        }
        Dependencies { requirements: out }
    }

    /// Sorts solvables from the highest version to the lowest, the order in
    /// which the solver is to try them.
    pub fn sort_candidates(&self, solvables: &mut Vec<SolvableId>)
        requires
            forall|i: int|
                0 <= i < old(solvables)@.len() ==> (#[trigger] old(solvables)@[i]).0 < self@.pool.solvables.len(),
        ensures
            final(solvables)@.to_multiset() == old(solvables)@.to_multiset(),
            descending(self@.pool, final(solvables)@),
            forall|i: int|
                0 <= i < final(solvables)@.len() ==> (#[trigger] final(solvables)@[i]).0 < self@.pool.solvables.len(),
            old(solvables)@.no_duplicates() ==> final(solvables)@.no_duplicates(),
            forall|i: int|
                0 <= i < final(solvables)@.len() ==> old(solvables)@.contains(
                    #[trigger] final(solvables)@[i],
                ),
    {
        let ghost pool = self@.pool;
        let mut out: Vec<SolvableId> = Vec::new();
        let mut i: usize = 0;
        assert(solvables@.take(0) =~= Seq::<SolvableId>::empty());
        while i < solvables.len()
            invariant
                i <= solvables.len(),
                *solvables == *old(solvables),
                pool == self@.pool,
                forall|k: int|
                    0 <= k < solvables@.len() ==> (#[trigger] solvables@[k]).0 < pool.solvables.len(),
                forall|k: int| 0 <= k < out@.len() ==> (#[trigger] out@[k]).0 < pool.solvables.len(),
                out@.to_multiset() == solvables@.take(i as int).to_multiset(),
                descending(pool, out@),
            decreases solvables.len() - i,
        {
            let x = solvables[i];
            let ghost vx = version_at(pool, x.0 as int);
            let mut p: usize = 0;
            while p < out.len() && !self.pool.resolve_solvable(out[p]).version.is_lower_than(
                &self.pool.resolve_solvable(x).version,
            )
                invariant
                    p <= out.len(),
                    pool == self@.pool,
                    x.0 < pool.solvables.len(),
                    vx == version_at(pool, x.0 as int),
                    forall|k: int|
                        0 <= k < out@.len() ==> (#[trigger] out@[k]).0 < pool.solvables.len(),
                    forall|k: int|
                        0 <= k < p ==> !precedes(version_at(pool, (#[trigger] out@[k]).0 as int), vx),
                decreases out.len() - p,
            {
                p += 1;
            }
            let ghost before = out@;
            out.insert(p, x);
            proof {
                to_multiset_insert(before, p as int, x);
                assert(solvables@.take(i + 1) =~= solvables@.take(i as int).push(x));
                solvables@.take(i as int).to_multiset_ensures();
                let after = out@;
                assert forall|a: int, b: int| 0 <= a < b < after.len() implies !precedes(
                    version_at(pool, after[a].0 as int),
                    version_at(pool, after[b].0 as int),
                ) by {
                    let va = version_at(pool, after[a].0 as int);
                    let vb = version_at(pool, after[b].0 as int);
                    if b < p {
                        assert(after[a] == before[a] && after[b] == before[b]);
                    } else if b == p {
                        assert(after[a] == before[a]);
                    } else if a > p {
                        assert(after[a] == before[a - 1] && after[b] == before[b - 1]);
                    } else if a < p {
                        assert(after[a] == before[a] && after[b] == before[b - 1]);
                    } else {
                        assert(after[b] == before[b - 1]);
                        let vp = version_at(pool, before[p as int].0 as int);
                        assert(precedes(vp, vx));
                        if precedes(va, vb) {
                            if b - 1 == p {
                                lemma_precedes_asymmetric(vp, vx);
                            } else {
                                lemma_precedes_transitive(vp, vx, vb);
                            }
                        }
                    }
                }
            }
            i += 1;
        }
        proof {
            assert(solvables@.take(solvables.len() as int) =~= solvables@);
            if solvables@.no_duplicates() {
                solvables@.lemma_multiset_has_no_duplicates();
                out@.lemma_multiset_has_no_duplicates_conv();
            }
            assert forall|i: int| 0 <= i < out@.len() implies solvables@.contains(
                #[trigger] out@[i],
            ) by {
                assert(out@.contains(out@[i]));
                to_multiset_contains(out@, out@[i]);
                to_multiset_contains(solvables@, out@[i]);
            }
        }
        *solvables = out;
    }
}

} // verus!
