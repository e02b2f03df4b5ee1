//! The pool of a resolution: an arena in which package names, solvables and
//! version sets are interned, each known by a small number from then on.

use vstd::prelude::*;
use crate::package_name::NormalizedPackageName;
use crate::specifiers::{satisfied, Specifiers};
use crate::version::{sort_key, version_of_text, Version, VersionData};

verus! {

/// The number of an interned package name.
#[derive(Clone, Copy, Debug, PartialEq, Eq, Structural)]
pub struct NameId(pub usize);

/// The number of an interned solvable.
#[derive(Clone, Copy, Debug, PartialEq, Eq, Structural)]
pub struct SolvableId(pub usize);

/// The number of an interned version set.
#[derive(Clone, Copy, Debug, PartialEq, Eq, Structural)]
pub struct VersionSetId(pub usize);

/// A solvable: one version of one package.
#[derive(Debug)]
pub struct Solvable {
    pub name: NameId,
    pub version: Version,
}

/// A version set: the versions of one package that meet the specifiers.
#[derive(Debug)]
pub struct VersionSet {
    pub name: NameId,
    pub specifiers: Specifiers,
}

/// An arena of names, solvables and version sets.
#[derive(Debug)]
pub struct Pool {
    names: Vec<NormalizedPackageName>,
    solvables: Vec<Solvable>,
    version_sets: Vec<VersionSet>,
}

/// The mathematical value of a [`Pool`]: what each number stands for.
pub struct PoolData {
    pub names: Seq<Seq<char>>,
    pub solvables: Seq<(int, VersionData)>,
    pub version_sets: Seq<(int, Seq<Seq<char>>)>,
}

/// The number that `x` has once it is interned in `table`: the one it has
/// there already, or the next free one.
pub open spec fn intern_id<A>(table: Seq<A>, x: A) -> int {
    if table.contains(x) {
        table.index_of(x)
    } else {
        table.len() as int
    }
}

/// The table once `x` is interned in it: `x` is added at the end unless it
/// is there already.
pub open spec fn intern_table<A>(table: Seq<A>, x: A) -> Seq<A> {
    if table.contains(x) {
        table
    } else {
        table.push(x)
    }
}

/// What tells one solvable from another: the package, and the place of the
/// version in the order of versions.
pub open spec fn solvable_keys(solvables: Seq<(int, VersionData)>) -> Seq<(int, Seq<int>)> {
    Seq::new(solvables.len(), |i: int| (solvables[i].0, sort_key(solvables[i].1)))
}

/// The solvables once the given one is interned: it is added at the end
/// unless one of the same package and the same place in the order is there.
pub open spec fn intern_solvables(solvables: Seq<(int, VersionData)>, name: int, v: VersionData) -> Seq<
    (int, VersionData),
> {
    if solvable_keys(solvables).contains((name, sort_key(v))) {
        solvables
    } else {
        solvables.push((name, v))
    }
}

/// In a table without duplicates a value stands at one place only.
pub proof fn lemma_index_of_unique<A>(table: Seq<A>, i: int)
    requires
        table.no_duplicates(),
        0 <= i < table.len(),
    ensures
        table.contains(table[i]),
        table.index_of(table[i]) == i,
{
    assert(table.contains(table[i]));
    let j = table.index_of(table[i]);
    assert(0 <= j < table.len() && table[j] == table[i]);
}

/// Interning gives equal numbers to equal values and to no others: in a
/// table without duplicates, once `x` is interned, `y` gets the number of
/// `x` exactly when `y` is `x`; to intern `x` again changes nothing.
pub proof fn lemma_intern_injective<A>(table: Seq<A>, x: A, y: A)
    requires
        table.no_duplicates(),
    ensures
        intern_table(table, x).no_duplicates(),
        0 <= intern_id(table, x) < intern_table(table, x).len(),
        intern_table(table, x)[intern_id(table, x)] == x,
        intern_table(intern_table(table, x), x) == intern_table(table, x),
        intern_id(intern_table(table, x), x) == intern_id(table, x),
        intern_id(intern_table(table, x), y) == intern_id(table, x) <==> x == y,
{
    let after = intern_table(table, x);
    let id = intern_id(table, x);
    if table.contains(x) {
        let i = table.index_of(x);
        assert(0 <= i < table.len() && table[i] == x);
    } else {
        assert forall|i: int, j: int| 0 <= i < after.len() && 0 <= j < after.len() && i != j implies after[i]
            != after[j] by {
            if i < table.len() {
                assert(table.contains(table[i]));
            }
            if j < table.len() {
                assert(table.contains(table[j]));
            }
        }
    }
    assert(after[id] == x);
    lemma_index_of_unique(after, id);
    if after.contains(y) {
        let j = after.index_of(y);
        assert(0 <= j < after.len() && after[j] == y);
    }
}

impl VersionSet {
    /// Whether `version` is in the set: it meets every clause of the
    /// specifiers. Where that cannot be told, it is not; so a legacy version
    /// is in the set of the empty specifiers only.
    pub fn contains(&self, version: &Version) -> (r: bool)
        ensures
            r == (satisfied(self.specifiers@, version.text()) == Ok::<bool, Seq<char>>(true)),
            version_of_text(version.text()) is None && self.specifiers@.len() > 0 ==> !r,
    {
        match self.specifiers.satisfied_by(version) {
            Err(_) => false,
            Ok(result) => result,
        }
    }
}

impl Pool {
    /// What each number of the pool stands for.
    pub closed spec fn view(&self) -> PoolData {
        PoolData {
            names: Seq::new(self.names@.len(), |i: int| self.names@[i]@),
            solvables: Seq::new(
                self.solvables@.len(),
                |i: int| (self.solvables@[i].name.0 as int, self.solvables@[i].version@),
            ),
            version_sets: Seq::new(
                self.version_sets@.len(),
                |i: int| (self.version_sets@[i].name.0 as int, self.version_sets@[i].specifiers@),
            ),
        }
    }

    /// The text of the version of the solvable with the number `id`.
    pub closed spec fn version_text(&self, id: int) -> Seq<char> {
        self.solvables@[id].version.text()
    }

    /// Whether the pool is an arena: nothing is interned twice, and the
    /// solvables and version sets belong to interned names.
    pub open spec fn wf(&self) -> bool {
        pool_wf(self@)
    }

    /// A pool in which nothing is interned.
    pub fn new() -> (r: Self)
        ensures
            r.wf(),
            r@.names.len() == 0,
            r@.solvables.len() == 0,
            r@.version_sets.len() == 0,
    {
        Pool { names: Vec::new(), solvables: Vec::new(), version_sets: Vec::new() }
    }

    /// Interns a package name. Names are deduplicated: the same name gets
    /// the same number.
    pub fn intern_package_name(&mut self, name: &NormalizedPackageName) -> (id: NameId)
        requires
            old(self).wf(),
        ensures
            final(self).wf(),
            final(self)@.names == intern_table(old(self)@.names, name@),
            id.0 == intern_id(old(self)@.names, name@),
            final(self)@.solvables == old(self)@.solvables,
            final(self)@.version_sets == old(self)@.version_sets,
    {
        let ghost table = self@.names;
        let mut i: usize = 0;
        while i < self.names.len()
            invariant
                i <= self.names.len(),
                *self == *old(self),
                self.wf(),
                table == self@.names,
                forall|j: int| 0 <= j < i ==> table[j] != name@,
            decreases self.names.len() - i,
        {
            if self.names[i].same(name) {
                proof {
                    assert(table[i as int] == name@);
                    lemma_index_of_unique(table, i as int);
                }
                return NameId(i);
            }
            i += 1;
        }
        proof {
            lemma_intern_injective(table, name@, name@);
        }
        self.names.push(name.duplicate());
        assert(self@.names =~= table.push(name@));
        assert(self@.solvables =~= old(self)@.solvables);
        assert(self@.version_sets =~= old(self)@.version_sets);
        NameId(i)
    }

    /// The number of a package name, if it is interned.
    pub fn lookup_package_name(&self, name: &NormalizedPackageName) -> (r: Option<NameId>)
        requires
            self.wf(),
        ensures
            match r {
                Some(id) => self@.names.contains(name@) && id.0 == self@.names.index_of(name@),
                None => !self@.names.contains(name@),
            },
    {
        let ghost table = self@.names;
        let mut i: usize = 0;
        while i < self.names.len()
            invariant
                i <= self.names.len(),
                table == self@.names,
                self.wf(),
                forall|j: int| 0 <= j < i ==> table[j] != name@,
            decreases self.names.len() - i,
        {
            if self.names[i].same(name) {
                proof {
                    assert(table[i as int] == name@);
                    lemma_index_of_unique(table, i as int);
                }
                return Some(NameId(i));
            }
            i += 1;
        }
        None
    }

    /// Interns a solvable. Solvables are deduplicated: the same package at
    /// the same place in the order of versions gets the same number.
    pub fn intern_solvable(&mut self, name: NameId, version: Version) -> (id: SolvableId)
        requires
            old(self).wf(),
            name.0 < old(self)@.names.len(),
        ensures
            final(self).wf(),
            final(self)@.solvables == intern_solvables(
                old(self)@.solvables,
                name.0 as int,
                version@,
            ),
            id.0 == intern_id(
                solvable_keys(old(self)@.solvables),
                (name.0 as int, sort_key(version@)),
            ),
            final(self)@.names == old(self)@.names,
            final(self)@.version_sets == old(self)@.version_sets,
    {
        let ghost keys = solvable_keys(self@.solvables);
        let ghost key = (name.0 as int, sort_key(version@));
        let mut i: usize = 0;
        while i < self.solvables.len()
            invariant
                i <= self.solvables.len(),
                *self == *old(self),
                self.wf(),
                keys == solvable_keys(self@.solvables),
                key == (name.0 as int, sort_key(version@)),
                forall|j: int| 0 <= j < i ==> keys[j] != key,
            decreases self.solvables.len() - i,
        {
            if self.solvables[i].name.0 == name.0 && self.solvables[i].version.same_rank_as(
                &version,
            ) {
                proof {
                    assert(keys[i as int] == key);
                    lemma_index_of_unique(keys, i as int);
                }
                return SolvableId(i);
            }
            assert(keys[i as int] != key);
            i += 1;
        }
        proof {
            lemma_intern_injective(keys, key, key);
        }
        self.solvables.push(Solvable { name, version });
        assert(self@.solvables =~= old(self)@.solvables.push((name.0 as int, version@)));
        assert(solvable_keys(self@.solvables) =~= keys.push(key));
        assert(self@.names =~= old(self)@.names);
        assert(self@.version_sets =~= old(self)@.version_sets);
        SolvableId(i)
    }

    /// Interns a version set. Version sets are deduplicated: the same
    /// specifiers of the same package get the same number.
    pub fn intern_version_set(&mut self, name: NameId, specifiers: Specifiers) -> (id: VersionSetId)
        requires
            old(self).wf(),
            name.0 < old(self)@.names.len(),
        ensures
            final(self).wf(),
            final(self)@.version_sets == intern_table(
                old(self)@.version_sets,
                (name.0 as int, specifiers@),
            ),
            id.0 == intern_id(old(self)@.version_sets, (name.0 as int, specifiers@)),
            final(self)@.names == old(self)@.names,
            final(self)@.solvables == old(self)@.solvables,
    {
        let ghost table = self@.version_sets;
        let ghost x = (name.0 as int, specifiers@);
        let mut i: usize = 0;
        while i < self.version_sets.len()
            invariant
                i <= self.version_sets.len(),
                *self == *old(self),
                self.wf(),
                table == self@.version_sets,
                x == (name.0 as int, specifiers@),
                forall|j: int| 0 <= j < i ==> table[j] != x,
            decreases self.version_sets.len() - i,
        {
            if self.version_sets[i].name.0 == name.0 && self.version_sets[i].specifiers.same(
                &specifiers,
            ) {
                proof {
                    assert(table[i as int] == x);
                    lemma_index_of_unique(table, i as int);
                }
                return VersionSetId(i);
            }
            assert(table[i as int] != x);
            i += 1;
        }
        proof {
            lemma_intern_injective(table, x, x);
        }
        self.version_sets.push(VersionSet { name, specifiers });
        assert(self@.version_sets =~= table.push(x));
        assert(self@.names =~= old(self)@.names);
        assert(self@.solvables =~= old(self)@.solvables);
        VersionSetId(i)
    }

    /// The name with the given number.
    pub fn resolve_package_name(&self, id: NameId) -> (r: &NormalizedPackageName)
        requires
            id.0 < self@.names.len(),
        ensures
            r@ == self@.names[id.0 as int],
    {
        &self.names[id.0]
    }

    /// The solvable with the given number.
    pub fn resolve_solvable(&self, id: SolvableId) -> (r: &Solvable)
        requires
            id.0 < self@.solvables.len(),
        ensures
            (r.name.0 as int, r.version@) == self@.solvables[id.0 as int],
            r.version.text() == self.version_text(id.0 as int),
    {
        &self.solvables[id.0]
    }

    /// The version set with the given number.
    pub fn resolve_version_set(&self, id: VersionSetId) -> (r: &VersionSet)
        requires
            id.0 < self@.version_sets.len(),
        ensures
            (r.name.0 as int, r.specifiers@) == self@.version_sets[id.0 as int],
    {
        &self.version_sets[id.0]
    }

    /// The package that the version set with the given number is about.
    pub fn resolve_version_set_package_name(&self, id: VersionSetId) -> (r: NameId)
        requires
            id.0 < self@.version_sets.len(),
        ensures
            r.0 == self@.version_sets[id.0 as int].0,
    {
        self.version_sets[id.0].name
    }

    pub fn names_len(&self) -> (r: usize)
        ensures
            r == self@.names.len(),
    {
        self.names.len()
    }

    pub fn solvables_len(&self) -> (r: usize)
        ensures
            r == self@.solvables.len(),
    {
        self.solvables.len()
    }

    pub fn version_sets_len(&self) -> (r: usize)
        ensures
            r == self@.version_sets.len(),
    {
        self.version_sets.len()
    }
}

/// Whether the data is that of an arena.
pub open spec fn pool_wf(p: PoolData) -> bool {
    &&& p.names.no_duplicates()
    &&& p.version_sets.no_duplicates()
    &&& solvable_keys(p.solvables).no_duplicates()
    &&& forall|i: int| 0 <= i < p.solvables.len() ==> 0 <= (#[trigger] p.solvables[i]).0 < p.names.len()
    &&& forall|i: int|
        0 <= i < p.version_sets.len() ==> 0 <= (#[trigger] p.version_sets[i]).0 < p.names.len()
}

} // verus!
