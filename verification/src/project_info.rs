//! What a package index says of the artifacts of a package.

use vstd::prelude::*;
use crate::artifact_name::ArtifactName;
use crate::specifiers::Specifiers;
use crate::version::{
    lemma_precedes_asymmetric, lemma_precedes_total, lemma_precedes_transitive, precedes,
    same_rank, Version, VersionData,
};

verus! {

/// The hashes that the index gives for an artifact.
#[derive(Debug)]
pub struct ArtifactHashes {
    pub sha256: Option<String>,
    pub md5: Option<String>,
}

/// Whether an artifact was withdrawn, and why.
#[derive(Debug)]
pub struct Yanked {
    pub yanked: bool,
    pub reason: Option<String>,
}

/// Whether the metadata of an artifact can be had beside it.
#[derive(Debug)]
pub struct DistInfoMetadata {
    pub available: bool,
    pub hashes: ArtifactHashes,
}

/// One artifact of a package, as the index lists it.
#[derive(Debug)]
pub struct ArtifactInfo {
    pub filename: ArtifactName,
    pub url: String,
    pub hashes: ArtifactHashes,
    pub requires_python: Option<Specifiers>,
    pub dist_info_metadata: DistInfoMetadata,
    pub yanked: Yanked,
}

/// The artifacts that the index lists for one version of a package.
#[derive(Debug)]
pub struct VersionArtifacts {
    pub version: Version,
    pub artifacts: Vec<ArtifactInfo>,
}

impl ArtifactInfo {
    /// Whether the artifact can be used: it is a wheel and was not yanked.
    pub open spec fn usable(&self) -> bool {
        self.filename is Wheel && !self.yanked.yanked
    }

    pub fn is_wheel(&self) -> (r: bool)
        ensures
            r == (self.filename is Wheel),
    {
        self.filename.is_wheel()
    }

    pub fn is_usable(&self) -> (r: bool)
        ensures
            r == self.usable(),
    {
        self.filename.is_wheel() && !self.yanked.yanked
    }
}


/// The artifacts whose version stands at the place of `v` in the order of
/// versions.
pub open spec fn of_rank(v: VersionData) -> spec_fn(ArtifactInfo) -> bool {
    |a: ArtifactInfo| same_rank(a.filename.version_of()@, v)
}

/// Whether the entries are those of an index: from the highest version to
/// the lowest, no two of the same rank, none without artifacts, each under
/// the version of its first artifact.
pub open spec fn entries_wf(entries: Seq<VersionArtifacts>) -> bool {
    &&& forall|i: int, j: int|
        0 <= i < j < entries.len() ==> precedes(entries[j].version@, entries[i].version@)
    &&& forall|i: int|
        0 <= i < entries.len() ==> (#[trigger] entries[i]).artifacts@.len() > 0
            && entries[i].version@ == entries[i].artifacts@[0].filename.version_of()@
            && entries[i].version.text() == entries[i].artifacts@[0].filename.version_of().text()
}

/// Whether the entries hold the artifacts `artifacts`: each entry holds the
/// artifacts of its version, in their order, and each artifact has an
/// entry.
pub open spec fn grouped(entries: Seq<VersionArtifacts>, artifacts: Seq<ArtifactInfo>) -> bool {
    &&& forall|i: int|
        0 <= i < entries.len() ==> (#[trigger] entries[i]).artifacts@ == artifacts.filter(
            of_rank(entries[i].version@),
        )
    &&& forall|k: int|
        0 <= k < artifacts.len() ==> exists|i: int|
            0 <= i < entries.len() && same_rank(
                (#[trigger] artifacts[k]).filename.version_of()@,
                entries[i].version@,
            )
}

proof fn lemma_filter_none(s: Seq<ArtifactInfo>, pred: spec_fn(ArtifactInfo) -> bool)
    requires
        forall|k: int| 0 <= k < s.len() ==> !pred(#[trigger] s[k]),
    ensures
        s.filter(pred).len() == 0,
    decreases s.len(),
{
    reveal(Seq::filter);
    if s.len() > 0 {
        assert forall|k: int| 0 <= k < s.drop_last().len() implies !pred(
            #[trigger] s.drop_last()[k],
        ) by {
            assert(s.drop_last()[k] == s[k]);
        }
        lemma_filter_none(s.drop_last(), pred);
        assert(!pred(s[s.len() - 1]));
    }
}

proof fn lemma_filter_step(s: Seq<ArtifactInfo>, a: ArtifactInfo, pred: spec_fn(ArtifactInfo) -> bool)
    ensures
        s.push(a).filter(pred) == if pred(a) {
            s.filter(pred).push(a)
        } else {
            s.filter(pred)
        },
{
    s.lemma_filter_push(a, pred);
}

/// Groups the artifacts of a package by version: one entry for each
/// version, from the highest to the lowest; versions that are the same in
/// the order share an entry.
pub fn group_by_version(artifacts: Vec<ArtifactInfo>) -> (r: Vec<VersionArtifacts>)
    ensures
        entries_wf(r@),
        grouped(r@, artifacts@),
{
    let ghost input = artifacts@;
    let mut out: Vec<VersionArtifacts> = Vec::new();
    assert(input.take(0) =~= Seq::<ArtifactInfo>::empty());
    for a in it: artifacts.into_iter()
        invariant
            it.seq() == input,
            entries_wf(out@),
            grouped(out@, input.take(it.index() as int)),
    {
        let ghost n = it.index() as int;
        let ghost done = input.take(n);
        let ghost before = out@;
        let ghost va = a.filename.version_of()@;
        assert(input.take(n + 1) =~= done.push(a));
        let mut i: usize = 0;
        while i < out.len() && a.filename.version().is_lower_than(&out[i].version)
            invariant
                i <= out.len(),
                va == a.filename.version_of()@,
                forall|k: int| 0 <= k < i ==> precedes(va, (#[trigger] out@[k]).version@),
            decreases out.len() - i,
        {
            i += 1;
        }
        let found = i < out.len() && a.filename.version().same_rank_as(&out[i].version);
        proof {
            assert forall|k: int| 0 <= k < before.len() && !(found && k == i) implies !same_rank(
                va,
                (#[trigger] before[k]).version@,
            ) by {
                let vk = before[k].version@;
                if k < i {
                    lemma_precedes_asymmetric(va, vk);
                } else if k == i {
                } else {
                    let vi = before[i as int].version@;
                    lemma_precedes_asymmetric(vk, vi);
                    if found {
                    } else if same_rank(va, vk) {
                        lemma_precedes_total(va, vi);
                    }
                }
            }
            assert forall|k: int| 0 <= k < before.len() implies done.push(a).filter(
                of_rank((#[trigger] before[k]).version@),
            ) == if found && k == i {
                before[k].artifacts@.push(a)
            } else {
                before[k].artifacts@
            } by {
                lemma_filter_step(done, a, of_rank(before[k].version@));
            }
        }
        if found {
            out[i].artifacts.push(a);
            proof {
                assert forall|k: int| 0 <= k < out@.len() implies (#[trigger] out@[k]).version
                    == before[k].version && out@[k].artifacts@[0] == before[k].artifacts@[0] by {}
                assert forall|k: int| 0 <= k < done.push(a).len() implies exists|e: int|
                    0 <= e < out@.len() && same_rank(
                        (#[trigger] done.push(a)[k]).filename.version_of()@,
                        out@[e].version@,
                    ) by {
                    if k < done.len() {
                        let e = choose|e: int|
                            0 <= e < before.len() && same_rank(
                                done[k].filename.version_of()@,
                                before[e].version@,
                            );
                        assert(out@[e].version == before[e].version);
                    } else {
                        assert(same_rank(va, out@[i as int].version@));
                    }
                }
            }
        } else {
            let version = a.filename.version().duplicate();
            let mut list: Vec<ArtifactInfo> = Vec::new();
            list.push(a);
            out.insert(i, VersionArtifacts { version, artifacts: list });
            proof {
                assert(out@[i as int].version@ == va);
                assert forall|k: int| 0 <= k < done.len() implies !of_rank(va)(
                    #[trigger] done[k],
                ) by {
                    let e = choose|e: int|
                        0 <= e < before.len() && same_rank(
                            done[k].filename.version_of()@,
                            before[e].version@,
                        );
                    assert(!same_rank(va, before[e].version@));
                }
                lemma_filter_none(done, of_rank(va));
                lemma_filter_step(done, a, of_rank(va));
                assert(done.push(a).filter(of_rank(va)) =~= seq![a]);
                assert forall|x: int, y: int| 0 <= x < y < out@.len() implies precedes(
                    out@[y].version@,
                    out@[x].version@,
                ) by {
                    if y < i {
                        assert(out@[x] == before[x] && out@[y] == before[y]);
                    } else if y == i {
                        assert(out@[x] == before[x]);
                    } else if x > i {
                        assert(out@[x] == before[x - 1] && out@[y] == before[y - 1]);
                    } else if x < i {
                        assert(out@[x] == before[x] && out@[y] == before[y - 1]);
                    } else {
                        assert(out@[y] == before[y - 1]);
                        let vi = before[i as int].version@;
                        let vy = before[y - 1].version@;
                        lemma_precedes_total(va, vi);
                        if y - 1 > i {
                            lemma_precedes_transitive(vy, vi, va);
                        }
                    }
                }
                assert forall|k: int| 0 <= k < out@.len() implies (#[trigger] out@[k]).artifacts@
                    == done.push(a).filter(of_rank(out@[k].version@)) && out@[k].artifacts@.len()
                    > 0 && out@[k].version@ == out@[k].artifacts@[0].filename.version_of()@
                    && out@[k].version.text() == out@[k].artifacts@[0].filename.version_of().text() by {
                    if k < i {
                        assert(out@[k] == before[k]);
                    } else if k > i {
                        assert(out@[k] == before[k - 1]);
                    }
                }
                assert forall|k: int| 0 <= k < done.push(a).len() implies exists|e: int|
                    0 <= e < out@.len() && same_rank(
                        (#[trigger] done.push(a)[k]).filename.version_of()@,
                        out@[e].version@,
                    ) by {
                    if k < done.len() {
                        let e = choose|e: int|
                            0 <= e < before.len() && same_rank(
                                done[k].filename.version_of()@,
                                before[e].version@,
                            );
                        if e < i {
                            assert(out@[e] == before[e]);
                        } else {
                            assert(out@[e + 1] == before[e]);
                        }
                    } else {
                        assert(same_rank(va, out@[i as int].version@));
                    }
                }
            }
        }
    }
    proof {
        assert(input.take(input.len() as int) =~= input);
    }
    out
}

} // verus!
