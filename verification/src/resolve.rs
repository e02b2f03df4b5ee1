//! The choice of the versions of a package that may be candidates, and of the
//! artifacts that their metadata is fetched from.

use vstd::prelude::*;
use crate::project_info::{ArtifactInfo, VersionArtifacts};

verus! {

/// The places, in order, of the artifacts that can be used: the wheels that
/// were not yanked.
pub open spec fn usable_indices(artifacts: Seq<ArtifactInfo>) -> Seq<int>
    decreases artifacts.len(),
{
    if artifacts.len() == 0 {
        Seq::empty()
    } else if artifacts.last().usable() {
        usable_indices(artifacts.drop_last()).push(artifacts.len() - 1)
    } else {
        usable_indices(artifacts.drop_last())
    }
}

/// Whether a version can be a candidate: it is neither a pre-release nor a
/// development release, and one of its artifacts can be used.
pub open spec fn version_usable(entry: VersionArtifacts) -> bool {
    !entry.version.is_unstable() && usable_indices(entry.artifacts@).len() > 0
}

/// The versions whose metadata is to be fetched, in order: the place of each
/// version that can be a candidate, with the places of its artifacts that
/// can be used.
pub open spec fn planned(entries: Seq<VersionArtifacts>) -> Seq<(int, Seq<int>)>
    decreases entries.len(),
{
    if entries.len() == 0 {
        Seq::empty()
    } else if version_usable(entries.last()) {
        planned(entries.drop_last()).push(
            (entries.len() - 1, usable_indices(entries.last().artifacts@)),
        )
    } else {
        planned(entries.drop_last())
    }
}

/// A version whose metadata is to be fetched: its place in the list of
/// versions, and the places of its artifacts to fetch it from.
#[derive(Debug)]
pub struct MetadataRequest {
    pub version: usize,
    pub artifacts: Vec<usize>,
}

impl MetadataRequest {
    pub open spec fn view(&self) -> (int, Seq<int>) {
        (self.version as int, Seq::new(self.artifacts@.len(), |i: int| self.artifacts@[i] as int))
    }
}

/// The values of a list of requests.
pub open spec fn requests(v: Seq<MetadataRequest>) -> Seq<(int, Seq<int>)> {
    Seq::new(v.len(), |i: int| v[i]@)
}

/// The places that `usable_indices` gives are those of the artifacts that
/// can be used, all of them, each once and in order.
pub proof fn lemma_usable_indices(artifacts: Seq<ArtifactInfo>)
    ensures
        forall|k: int|
            0 <= k < usable_indices(artifacts).len() ==> 0 <= #[trigger] usable_indices(
                artifacts,
            )[k] < artifacts.len() && artifacts[usable_indices(artifacts)[k]].usable(),
        forall|j: int, k: int|
            0 <= j < k < usable_indices(artifacts).len() ==> usable_indices(artifacts)[j]
                < usable_indices(artifacts)[k],
        forall|i: int|
            0 <= i < artifacts.len() && (#[trigger] artifacts[i]).usable() ==> usable_indices(
                artifacts,
            ).contains(i),
    decreases artifacts.len(),
{
    if artifacts.len() > 0 {
        let rest = artifacts.drop_last();
        lemma_usable_indices(rest);
        let now = usable_indices(artifacts);
        let before = usable_indices(rest);
        assert forall|k: int| 0 <= k < before.len() implies artifacts[before[k]] == rest[before[k]] by {}
        assert forall|i: int| 0 <= i < artifacts.len() && (#[trigger] artifacts[i]).usable() implies now.contains(
            i,
        ) by {
            if i < rest.len() {
                assert(rest[i] == artifacts[i]);
                assert(before.contains(i));
                let k = choose|k: int| 0 <= k < before.len() && before[k] == i;
                assert(now[k] == i);
            } else {
                assert(now[now.len() - 1] == i);
            }
        }
    }
}

/// The requests that `planned` gives are those of the versions that can be
/// candidates, all of them, each once and in order, each with its artifacts
/// that can be used.
pub proof fn lemma_planned(entries: Seq<VersionArtifacts>)
    ensures
        forall|k: int|
            0 <= k < planned(entries).len() ==> {
                let request = #[trigger] planned(entries)[k];
                &&& 0 <= request.0 < entries.len()
                &&& version_usable(entries[request.0])
                &&& request.1 == usable_indices(entries[request.0].artifacts@)
            },
        forall|j: int, k: int|
            0 <= j < k < planned(entries).len() ==> planned(entries)[j].0 < planned(entries)[k].0,
        forall|i: int|
            0 <= i < entries.len() && version_usable(#[trigger] entries[i]) ==> exists|k: int|
                0 <= k < planned(entries).len() && planned(entries)[k].0 == i,
    decreases entries.len(),
{
    if entries.len() > 0 {
        let rest = entries.drop_last();
        lemma_planned(rest);
        let now = planned(entries);
        let before = planned(rest);
        assert forall|k: int| 0 <= k < before.len() implies entries[before[k].0] == rest[before[k].0] by {}
        assert forall|i: int| 0 <= i < entries.len() && version_usable(#[trigger] entries[i]) implies exists|
            k: int,
        |
            0 <= k < now.len() && now[k].0 == i by {
            if i < rest.len() {
                assert(rest[i] == entries[i]);
                let k = choose|k: int| 0 <= k < before.len() && before[k].0 == i;
                assert(now[k].0 == i);
            } else {
                assert(now[now.len() - 1].0 == i);
            }
        }
    }
}

/// No artifact that was yanked, and none that is no wheel, is among those
/// that metadata is fetched from.
pub proof fn lemma_planned_artifacts_usable(entries: Seq<VersionArtifacts>, k: int, j: int)
    requires
        0 <= k < planned(entries).len(),
        0 <= j < planned(entries)[k].1.len(),
    ensures
        0 <= planned(entries)[k].0 < entries.len(),
        0 <= planned(entries)[k].1[j] < entries[planned(entries)[k].0].artifacts@.len(),
        entries[planned(entries)[k].0].artifacts@[planned(entries)[k].1[j]].filename is Wheel,
        !entries[planned(entries)[k].0].artifacts@[planned(entries)[k].1[j]].yanked.yanked,
{
    lemma_planned(entries);
    let request = planned(entries)[k];
    lemma_usable_indices(entries[request.0].artifacts@);
}

/// No pre-release and no development release is among the versions whose
/// metadata is fetched.
pub proof fn lemma_planned_versions_stable(entries: Seq<VersionArtifacts>, k: int)
    requires
        0 <= k < planned(entries).len(),
    ensures
        0 <= planned(entries)[k].0 < entries.len(),
        entries[planned(entries)[k].0].version@.pre is None,
        entries[planned(entries)[k].0].version@.dev is None,
{
    lemma_planned(entries);
}

/// A version whose one artifact was yanked is no candidate.
pub proof fn lemma_yanked_version_not_planned(entries: Seq<VersionArtifacts>, i: int, k: int)
    requires
        0 <= i < entries.len(),
        entries[i].artifacts@.len() == 1,
        entries[i].artifacts@[0].yanked.yanked,
        0 <= k < planned(entries).len(),
    ensures
        planned(entries)[k].0 != i,
{
    lemma_planned(entries);
    let artifacts = entries[i].artifacts@;
    assert(artifacts.drop_last().len() == 0);
    assert(usable_indices(artifacts.drop_last()).len() == 0);
    assert(usable_indices(artifacts).len() == 0);
}

/// A package of which every version is a pre-release or a development
/// release has no candidate.
pub proof fn lemma_unstable_versions_plan_nothing(entries: Seq<VersionArtifacts>)
    requires
        forall|i: int| 0 <= i < entries.len() ==> (#[trigger] entries[i]).version.is_unstable(),
    ensures
        planned(entries).len() == 0,
{
    lemma_planned(entries);
    if planned(entries).len() > 0 {
        let request = planned(entries)[0];
        assert(version_usable(entries[request.0]));
    }
}

/// The places of the artifacts of `artifacts` that can be used.
pub fn select_artifacts(artifacts: &Vec<ArtifactInfo>) -> (r: Vec<usize>)
    ensures
        Seq::new(r@.len(), |i: int| r@[i] as int) == usable_indices(artifacts@),
{
    let mut out: Vec<usize> = Vec::new();
    let mut i: usize = 0;
    assert(artifacts@.take(0) =~= Seq::<ArtifactInfo>::empty());
    while i < artifacts.len()
        invariant
            i <= artifacts.len(),
            Seq::new(out@.len(), |k: int| out@[k] as int) =~= usable_indices(
                artifacts@.take(i as int),
            ),
        decreases artifacts.len() - i,
    {
        proof {
            assert(artifacts@.take(i + 1).drop_last() =~= artifacts@.take(i as int));
            assert(artifacts@.take(i + 1).last() == artifacts@[i as int]);
        }
        if artifacts[i].is_usable() {
            out.push(i);
        }
        i += 1;
    }
    proof {
        assert(artifacts@.take(artifacts.len() as int) =~= artifacts@);
    }
    out
}

/// The versions of a package whose metadata is to be fetched, and the
/// artifacts to fetch it from: only wheels count, pre-releases and
/// development releases are dropped, and so is what was yanked.
pub fn plan_package(entries: &Vec<VersionArtifacts>) -> (r: Vec<MetadataRequest>)
    ensures
        requests(r@) == planned(entries@),
{
    let mut out: Vec<MetadataRequest> = Vec::new();
    let mut i: usize = 0;
    assert(entries@.take(0) =~= Seq::<VersionArtifacts>::empty());
    while i < entries.len()
        invariant
            i <= entries.len(),
            requests(out@) =~= planned(entries@.take(i as int)),
        decreases entries.len() - i,
    {
        proof {
            assert(entries@.take(i + 1).drop_last() =~= entries@.take(i as int));
            assert(entries@.take(i + 1).last() == entries@[i as int]);
        }
        let entry = &entries[i];
        if !entry.version.has_pre() && !entry.version.has_dev() {
            let artifacts = select_artifacts(&entry.artifacts);
            if artifacts.len() > 0 {
                out.push(MetadataRequest { version: i, artifacts });
            }
        }
        i += 1;
    }
    proof {
        assert(entries@.take(entries.len() as int) =~= entries@);
    }
    out
}

} // verus!
