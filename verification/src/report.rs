//! What is shown for a query: one line for each selected artifact, or the
//! notice that nothing was found.

use crate::channel::Channel;
use crate::package::{latest_views, package_views, select_latest, selected, written_latest};
use crate::package::{LatestPackage, LatestView, MavenPackage, PackageView};
use crate::resolver::aggregate;
use crate::text::texts;
use vstd::prelude::*;
use vstd::string::StringExecFns;

verus! {

/// The lines shown for the selections `latest`: one line each, in order, or
/// the one line that says that nothing was found.
pub open spec fn report_of(latest: Seq<LatestView>) -> Seq<Seq<char>> {
    if latest.len() == 0 {
        seq!["No results found!"@]
    } else {
        latest.map_values(|l: LatestView| written_latest(l))
    }
}

/// The lines shown for the selections `latest`.
pub fn report(latest: &Vec<LatestPackage>) -> (lines: Vec<String>)
    ensures
        texts(lines@) == report_of(latest_views(latest@)),
{
    let mut lines: Vec<String> = Vec::new();
    if latest.len() == 0 {
        lines.push(String::from_str("No results found!"));
        return lines;
    }
    let mut i: usize = 0;
    while i < latest.len()
        invariant
            i <= latest.len(),
            lines@.len() == i,
            forall|j: int| 0 <= j < i ==> (#[trigger] lines@[j])@ == written_latest(latest@[j]@),
        decreases latest.len() - i,
    {
        lines.push(latest[i].to_string());
        i += 1;
    }
    lines
}

/// The lines shown for the artifacts `packages` at the channel `channel`: one
/// for each artifact that has a version of that channel or a more stable one,
/// with the newest such version.
pub fn search_results(packages: &Vec<MavenPackage>, channel: Channel) -> (lines: Vec<String>)
    ensures
        texts(lines@) == report_of(selected(package_views(packages@), channel)),
{
    let latest = select_latest(packages, channel);
    report(&latest)
}

/// Where no group is resolved there are no artifacts, nothing is selected, and
/// the report is the notice that nothing was found.
pub proof fn lemma_no_groups_no_results(min: Channel)
    ensures
        aggregate(Seq::empty()) == Seq::<PackageView>::empty(),
        selected(Seq::empty(), min) == Seq::<LatestView>::empty(),
        report_of(selected(aggregate(Seq::empty()), min)) == seq!["No results found!"@],
{
}

} // verus!
