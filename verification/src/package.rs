//! Artifacts with their published versions, and the selection of the newest
//! version of an artifact at or above a release channel.

use crate::channel::{channel_of, eligible, Channel};
use crate::version::{at_most, below, precedes, same_precedence, valid, version_views};
use crate::version::written_version;
use crate::version::{Precedence, Version, VersionView};
use vstd::prelude::*;
use vstd::string::StringExecFns;

verus! {

/// An artifact of a Maven repository with the versions published of it.
#[derive(Debug)]
pub struct MavenPackage {
    pub group_id: String,
    pub artifact_id: String,
    pub versions: Vec<Version>,
}

/// An artifact with the one version that was selected of it.
#[derive(Debug)]
pub struct LatestPackage {
    pub group_id: String,
    pub artifact_id: String,
    pub version: Version,
}

/// What an artifact holds, as plain values.
pub struct PackageView {
    pub group_id: Seq<char>,
    pub artifact_id: Seq<char>,
    pub versions: Seq<VersionView>,
}

/// What a selection holds, as plain values.
pub struct LatestView {
    pub group_id: Seq<char>,
    pub artifact_id: Seq<char>,
    pub version: VersionView,
}

/// The artifacts of a list as plain values.
pub open spec fn package_views(packages: Seq<MavenPackage>) -> Seq<PackageView> {
    packages.map_values(|p: MavenPackage| p@)
}

/// The selections of a list as plain values.
pub open spec fn latest_views(packages: Seq<LatestPackage>) -> Seq<LatestView> {
    packages.map_values(|p: LatestPackage| p@)
}

impl View for MavenPackage {
    type V = PackageView;

    open spec fn view(&self) -> PackageView {
        PackageView {
            group_id: self.group_id@,
            artifact_id: self.artifact_id@,
            versions: version_views(self.versions@),
        }
    }
}

impl View for LatestPackage {
    type V = LatestView;

    open spec fn view(&self) -> LatestView {
        LatestView {
            group_id: self.group_id@,
            artifact_id: self.artifact_id@,
            version: self.version@,
        }
    }
}

/// Whether some version among `versions` is eligible at `min`.
pub open spec fn has_eligible(versions: Seq<VersionView>, min: Channel) -> bool {
    exists|j: int| 0 <= j < versions.len() && eligible(#[trigger] versions[j], min)
}

/// Whether `versions[k]` is the version to select at `min`: it is eligible,
/// and every eligible version is at most it. An eligible version is then the
/// selected one itself, or precedes it, or has its precedence and the lesser
/// build metadata; and the selected one stands below none of them.
pub open spec fn is_latest(versions: Seq<VersionView>, min: Channel, k: int) -> bool {
    &&& 0 <= k < versions.len()
    &&& eligible(versions[k], min)
    &&& forall|j: int|
        0 <= j < versions.len() && eligible(#[trigger] versions[j], min) ==> at_most(
            versions[j],
            versions[k],
        )
}

/// The selection for one artifact at `min`: the artifact with its newest
/// eligible version, or nothing where no version is eligible.
pub open spec fn latest_of(package: PackageView, min: Channel) -> Option<LatestView> {
    if exists|k: int| is_latest(package.versions, min, k) {
        let k = choose|k: int| is_latest(package.versions, min, k);
        Some(
            LatestView {
                group_id: package.group_id,
                artifact_id: package.artifact_id,
                version: package.versions[k],
            },
        )
    } else {
        None
    }
}

/// The selections for `packages` at `min`, in order: one for each artifact that
/// has an eligible version.
pub open spec fn selected(packages: Seq<PackageView>, min: Channel) -> Seq<LatestView>
    decreases packages.len(),
{
    if packages.len() == 0 {
        Seq::empty()
    } else {
        let before = selected(packages.drop_last(), min);
        match latest_of(packages.last(), min) {
            Some(latest) => before.push(latest),
            None => before,
        }
    }
}

/// How a selection is written out: group, artifact and version between colons.
pub open spec fn written_latest(latest: LatestView) -> Seq<char> {
    latest.group_id + seq![':'] + latest.artifact_id + seq![':'] + written_version(
        latest.version,
    )
}

/// A selection, if there is one, as plain values.
pub open spec fn latest_view_of(latest: Option<LatestPackage>) -> Option<LatestView> {
    match latest {
        Some(p) => Some(p@),
        None => None,
    }
}

/// The version to select is one version only: two places that both hold the
/// version to select hold the same version.
pub proof fn lemma_latest_is_unique(versions: Seq<VersionView>, min: Channel, k: int, m: int)
    requires
        is_latest(versions, min, k),
        is_latest(versions, min, m),
    ensures
        versions[k] == versions[m],
{
}

/// The selected version is never of a channel below the requested one.
pub proof fn lemma_latest_is_eligible(package: PackageView, min: Channel)
    ensures
        latest_of(package, min) matches Some(latest) ==> (channel_of(latest.version) matches Some(
            c,
        ) && c.rank() >= min.rank()),
{
}

/// The selected version is the unique maximum of the eligible versions: every
/// eligible version is the selected one or stands below it, so it precedes
/// the selected one or has its precedence; the selected one stands below no
/// eligible version; and an eligible version that stands below no eligible
/// version is the selected one.
pub proof fn lemma_latest_is_maximum(versions: Seq<VersionView>, min: Channel, k: int, m: int)
    requires
        is_latest(versions, min, k),
        0 <= m < versions.len(),
        eligible(versions[m], min),
    ensures
        versions[m] == versions[k] || below(versions[m], versions[k]),
        !below(versions[k], versions[m]),
        precedes(versions[m], versions[k]) || same_precedence(versions[m], versions[k]),
        (forall|j: int|
            0 <= j < versions.len() && eligible(#[trigger] versions[j], min) ==> !below(
                versions[m],
                versions[j],
            )) ==> versions[m] == versions[k],
{
}

/// Two lists that hold the same versions, each as often as in the other, have
/// the same members.
proof fn lemma_same_members(a: Seq<VersionView>, b: Seq<VersionView>, x: VersionView)
    requires
        a.to_multiset() == b.to_multiset(),
        a.contains(x),
    ensures
        b.contains(x),
{
    a.to_multiset_ensures();
    b.to_multiset_ensures();
    assert(a.to_multiset().count(x) > 0);
}

/// Where `versions[k]` is the version to select among `versions`, the same
/// version is the one to select in every list that holds the same versions,
/// at every place where it stands.
proof fn lemma_latest_in_other_order(
    versions: Seq<VersionView>,
    others: Seq<VersionView>,
    min: Channel,
    k: int,
    m: int,
)
    requires
        is_latest(versions, min, k),
        versions.to_multiset() == others.to_multiset(),
        0 <= m < others.len(),
        others[m] == versions[k],
    ensures
        is_latest(others, min, m),
{
    assert forall|j: int|
        0 <= j < others.len() && eligible(#[trigger] others[j], min) implies at_most(
        others[j],
        others[m],
    ) by {
        lemma_same_members(others, versions, others[j]);
    }
}

/// The selection does not depend on the order in which the versions are
/// listed: two artifacts of the same names whose lists hold the same versions,
/// each as often as in the other, have the same selection.
pub proof fn lemma_latest_ignores_order(a: PackageView, b: PackageView, min: Channel)
    requires
        a.group_id == b.group_id,
        a.artifact_id == b.artifact_id,
        a.versions.to_multiset() == b.versions.to_multiset(),
    ensures
        latest_of(a, min) == latest_of(b, min),
{
    if exists|k: int| is_latest(a.versions, min, k) {
        let k = choose|k: int| is_latest(a.versions, min, k);
        lemma_same_members(a.versions, b.versions, a.versions[k]);
        let m = choose|m: int| 0 <= m < b.versions.len() && b.versions[m] == a.versions[k];
        lemma_latest_in_other_order(a.versions, b.versions, min, k, m);
        let n = choose|n: int| is_latest(b.versions, min, n);
        lemma_latest_is_unique(b.versions, min, m, n);
    } else if exists|n: int| is_latest(b.versions, min, n) {
        let n = choose|n: int| is_latest(b.versions, min, n);
        lemma_same_members(b.versions, a.versions, b.versions[n]);
        let k = choose|k: int| 0 <= k < a.versions.len() && a.versions[k] == b.versions[n];
        lemma_latest_in_other_order(b.versions, a.versions, min, n, k);
    }
}

impl MavenPackage {
    /// The newest version of the artifact whose channel is at least `channel`,
    /// if there is one: the highest by precedence, and among versions of the
    /// highest precedence the one with the greatest build metadata. A version
    /// without a channel is never selected. The order of the list plays no
    /// part.
    pub fn latest(&self, channel: Channel) -> (latest: Option<LatestPackage>)
        ensures
            latest is Some <==> has_eligible(self@.versions, channel),
            latest matches Some(p) ==> p@.group_id == self@.group_id && p@.artifact_id
                == self@.artifact_id && exists|k: int|
                is_latest(self@.versions, channel, k) && p@.version == self@.versions[k],
            latest_view_of(latest) == latest_of(self@, channel),
    {
        let ghost versions = self@.versions;
        let mut best: Option<usize> = None;
        let mut i: usize = 0;
        while i < self.versions.len()
            invariant
                i <= self.versions.len(),
                versions == version_views(self.versions@),
                best matches Some(b) ==> b < i && is_latest(
                    versions.take(i as int),
                    channel,
                    b as int,
                ),
                best is None ==> forall|j: int|
                    0 <= j < i ==> !eligible(#[trigger] versions[j], channel),
                forall|j: int|
                    0 <= j < i && eligible(#[trigger] versions[j], channel) ==> valid(versions[j]),
            decreases self.versions.len() - i,
        {
            let candidate = &self.versions[i];
            let fits = match Channel::try_from(candidate) {
                Ok(c) => c.at_least(channel),
                Err(_) => false,
            };
            if fits {
                match best {
                    None => {
                        best = Some(i);
                    },
                    Some(b) => {
                        let order = self.versions[b].order(candidate);
                        if order == Precedence::Lower {
                            best = Some(i);
                        }
                    },
                }
            }
            i += 1;
        }
        proof {
            assert(versions.take(i as int) =~= versions);
        }
        match best {
            None => None,
            Some(b) => {
                proof {
                    let k = choose|k: int| is_latest(versions, channel, k);
                    lemma_latest_is_unique(versions, channel, k, b as int);
                }
                Some(
                    LatestPackage {
                        group_id: self.group_id.clone(),
                        artifact_id: self.artifact_id.clone(),
                        version: self.versions[b].clone(),
                    },
                )
            },
        }
    }
}

impl LatestPackage {
    /// The selection as one line of text: `group:artifact:version`.
    pub fn to_string(&self) -> (line: String)
        ensures
            line@ == written_latest(self@),
    {
        let mut line = self.group_id.clone();
        line.append(":");
        line.append(self.artifact_id.as_str());
        line.append(":");
        let version = self.version.to_string();
        line.append(version.as_str());
        proof {
            reveal_strlit(":");
        }
        line
    }
}

/// The newest eligible version of each artifact of `packages` that has one, in
/// the order of `packages`.
pub fn select_latest(packages: &Vec<MavenPackage>, channel: Channel) -> (latest: Vec<LatestPackage>)
    ensures
        latest_views(latest@) == selected(package_views(packages@), channel),
{
    let mut latest: Vec<LatestPackage> = Vec::new();
    let ghost views = package_views(packages@);
    let mut i: usize = 0;
    while i < packages.len()
        invariant
            i <= packages.len(),
            views == package_views(packages@),
            latest_views(latest@) == selected(views.take(i as int), channel),
        decreases packages.len() - i,
    {
        let found = packages[i].latest(channel);
        proof {
            assert(views.take(i + 1).drop_last() =~= views.take(i as int));
        }
        if let Some(p) = found {
            latest.push(p);
        }
        i += 1;
    }
    proof {
        assert(views.take(i as int) =~= views);
    }
    latest
}

} // verus!
