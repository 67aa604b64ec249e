//! Reading the two index documents of the repository: the master index, which
//! lists the groups, and a group index, which lists the artifacts of one group
//! with their versions.

use crate::package::{package_views, MavenPackage, PackageView};
use crate::text::{contains, contains_text, replace_char, replaced, split, split_text, texts};
use crate::version::{arranged, parsed_version, sort_descending, version_views};
use crate::version::{Version, VersionView};
use crate::xml::{node_views, read_nodes, xml_nodes, NodeView, XmlNode};
use vstd::prelude::*;
use vstd::string::StringExecFns;

verus! {

/// Why an index could not be had.
#[derive(Debug, Clone, Copy, PartialEq, Eq, Structural)]
pub enum IndexError {
    /// The document could not be fetched.
    Fetch,
    /// The document is not well-formed XML, has no root element, or an
    /// artifact in it lacks its list of versions.
    Malformed,
}

/// Why a document could not be fetched.
#[derive(Debug)]
pub struct FetchError {
    pub reason: String,
}

/// The names of the element nodes among `nodes`, in order.
pub open spec fn element_names(nodes: Seq<NodeView>) -> Seq<Seq<char>>
    decreases nodes.len(),
{
    if nodes.len() == 0 {
        Seq::empty()
    } else if nodes.last().element {
        element_names(nodes.drop_last()).push(nodes.last().name)
    } else {
        element_names(nodes.drop_last())
    }
}

/// The groups that a master index lists: the name of every element but the
/// first, which is the root element of the document and names no group.
pub open spec fn group_names(nodes: Seq<NodeView>) -> Seq<Seq<char>> {
    let names = element_names(nodes);
    if names.len() > 0 {
        names.drop_first()
    } else {
        names
    }
}

/// Those of `groups` that hold `term`, in order.
pub open spec fn matching(groups: Seq<Seq<char>>, term: Seq<char>) -> Seq<Seq<char>>
    decreases groups.len(),
{
    if groups.len() == 0 {
        Seq::empty()
    } else if contains_text(groups.last(), term) {
        matching(groups.drop_last(), term).push(groups.last())
    } else {
        matching(groups.drop_last(), term)
    }
}

/// The groups of a master index that hold `term`, given what the XML reading
/// made of the index.
pub open spec fn groups_of(nodes: Option<Seq<NodeView>>, term: Seq<char>) -> Result<
    Seq<Seq<char>>,
    IndexError,
> {
    match nodes {
        Some(nodes) => Ok(matching(group_names(nodes), term)),
        None => Err(IndexError::Malformed),
    }
}

/// The versions that the raw texts `raws` stand for, in order; a text that
/// stands for no version leaves no trace.
pub open spec fn versions_of(raws: Seq<Seq<char>>) -> Seq<VersionView>
    decreases raws.len(),
{
    if raws.len() == 0 {
        Seq::empty()
    } else {
        match parsed_version(raws.last()) {
            Some(v) => versions_of(raws.drop_last()).push(v),
            None => versions_of(raws.drop_last()),
        }
    }
}

/// The versions that a comma-separated list stands for.
pub open spec fn versions_in(list: Seq<char>) -> Seq<VersionView> {
    versions_of(split(list, ','))
}

/// The place of the first element among `nodes`, or their number where there
/// is none.
pub open spec fn first_element(nodes: Seq<NodeView>) -> int
    decreases nodes.len(),
{
    if nodes.len() == 0 || nodes[0].element {
        0
    } else {
        1 + first_element(nodes.drop_first())
    }
}

/// Whether `node` is an artifact of the group whose root element stands at
/// `root`: an element that is a child of the root element.
pub open spec fn is_artifact(node: NodeView, root: int) -> bool {
    node.element && node.parent == Some(root)
}

/// The artifact records among the first `upto` nodes, in order: one for each
/// artifact that lists at least one version, with its versions in descending
/// order.
pub open spec fn records(nodes: Seq<NodeView>, root: int, upto: int) -> Seq<PackageView>
    decreases upto,
{
    if upto <= 0 {
        Seq::empty()
    } else {
        let before = records(nodes, root, upto - 1);
        let node = nodes[upto - 1];
        if is_artifact(node, root) && node.attribute is Some && versions_in(
            node.attribute->0,
        ).len() > 0 {
            before.push(
                PackageView {
                    group_id: nodes[root].name,
                    artifact_id: node.name,
                    versions: arranged(versions_in(node.attribute->0)),
                },
            )
        } else {
            before
        }
    }
}

/// Whether some artifact among the first `upto` nodes lacks the attribute.
pub open spec fn lacks_versions(nodes: Seq<NodeView>, root: int, upto: int) -> bool {
    exists|i: int|
        0 <= i < upto && is_artifact(#[trigger] nodes[i], root) && nodes[i].attribute is None
}

/// The artifact records of a group index, given its nodes. The first element
/// is the root element; its name is the group. Every element child of the root
/// element is an artifact and must carry the list of its versions.
pub open spec fn group_records(nodes: Seq<NodeView>) -> Result<Seq<PackageView>, IndexError> {
    let root = first_element(nodes);
    if !(0 <= root < nodes.len()) || lacks_versions(nodes, root, nodes.len() as int) {
        Err(IndexError::Malformed)
    } else {
        Ok(records(nodes, root, nodes.len() as int))
    }
}

/// The artifact records of a group index, given what the XML reading made of
/// the index.
pub open spec fn packages_of(nodes: Option<Seq<NodeView>>) -> Result<Seq<PackageView>, IndexError> {
    match nodes {
        Some(nodes) => group_records(nodes),
        None => Err(IndexError::Malformed),
    }
}

/// The text that a fetch brought, or nothing where it failed.
pub open spec fn fetched_text(fetched: Result<String, FetchError>) -> Option<Seq<char>> {
    match fetched {
        Ok(text) => Some(text@),
        Err(_) => None,
    }
}

/// The artifact records of a group, given the outcome of fetching its index:
/// those of the index, or the reason why there are none.
pub open spec fn outcome_of(fetched: Option<Seq<char>>) -> Result<Seq<PackageView>, IndexError> {
    match fetched {
        Some(text) => packages_of(xml_nodes(text, "versions"@)),
        None => Err(IndexError::Fetch),
    }
}

/// What one group adds to the result, given the outcome of fetching its index:
/// its artifact records, or nothing where the index could not be fetched or
/// read.
pub open spec fn contribution(fetched: Option<Seq<char>>) -> Seq<PackageView> {
    match outcome_of(fetched) {
        Ok(found) => found,
        Err(_) => Seq::empty(),
    }
}

/// Those of `packages` whose group or artifact name holds `term`.
pub open spec fn packages_matching(packages: Seq<PackageView>, term: Seq<char>) -> Seq<PackageView>
    decreases packages.len(),
{
    if packages.len() == 0 {
        Seq::empty()
    } else {
        let before = packages_matching(packages.drop_last(), term);
        let p = packages.last();
        if contains_text(p.group_id, term) || contains_text(p.artifact_id, term) {
            before.push(p)
        } else {
            before
        }
    }
}

/// The address below which the repository keeps its index documents.
pub open spec fn base_url() -> Seq<char> {
    "https://dl.google.com/dl/android/maven2"@
}

/// The address of the index of `group`: the group's name with slashes for
/// dots, below the base address.
pub open spec fn group_index_address(group: Seq<char>) -> Seq<char> {
    base_url() + "/"@ + replaced(group, '.', "/"@) + "/group-index.xml"@
}

/// Artifact records or an error, the records as plain values.
pub open spec fn views_of(found: Result<Vec<MavenPackage>, IndexError>) -> Result<
    Seq<PackageView>,
    IndexError,
> {
    match found {
        Ok(packages) => Ok(package_views(packages@)),
        Err(e) => Err(e),
    }
}

/// Group names or an error, the names as plain values.
pub open spec fn names_of(found: Result<Vec<String>, IndexError>) -> Result<
    Seq<Seq<char>>,
    IndexError,
> {
    match found {
        Ok(names) => Ok(texts(names@)),
        Err(e) => Err(e),
    }
}

/// The address of the master index.
pub fn master_index_url() -> (url: String)
    ensures
        url@ == base_url() + "/master-index.xml"@,
{
    let mut url = String::from_str("https://dl.google.com/dl/android/maven2");
    url.append("/master-index.xml");
    url
}

/// The address of the index of `group`.
pub fn group_index_url(group: &str) -> (url: String)
    ensures
        url@ == group_index_address(group@),
{
    let mut url = String::from_str("https://dl.google.com/dl/android/maven2");
    url.append("/");
    let path = replace_char(group, '.', "/");
    url.append(path.as_str());
    url.append("/group-index.xml");
    url
}

/// The groups that a master index lists, given its nodes.
pub fn parse_groups(nodes: &Vec<XmlNode>) -> (groups: Vec<String>)
    ensures
        texts(groups@) == group_names(node_views(nodes@)),
{
    let mut groups: Vec<String> = Vec::new();
    let mut skipped = false;
    let ghost views = node_views(nodes@);
    let mut i: usize = 0;
    while i < nodes.len()
        invariant
            i <= nodes.len(),
            views == node_views(nodes@),
            skipped == (element_names(views.take(i as int)).len() > 0),
            texts(groups@) == group_names(views.take(i as int)),
        decreases nodes.len() - i,
    {
        proof {
            let grown = views.take(i + 1);
            assert(grown.drop_last() =~= views.take(i as int));
        }
        if nodes[i].element {
            if skipped {
                let name = nodes[i].name.clone();
                proof {
                    assert(texts(groups@.push(name)) =~= texts(groups@).push(name@));
                }
                groups.push(name);
            } else {
                skipped = true;
            }
        }
        i += 1;
    }
    proof {
        assert(views.take(i as int) =~= views);
    }
    groups
}

/// Those of `groups` whose name holds `search_term`, in order. The match is by
/// characters: no pattern syntax, and case counts. The empty term is held by
/// every name.
pub fn filter_groups(groups: Vec<String>, search_term: &str) -> (kept: Vec<String>)
    ensures
        texts(kept@) == matching(texts(groups@), search_term@),
{
    let mut kept: Vec<String> = Vec::new();
    let ghost all = texts(groups@);
    let mut i: usize = 0;
    while i < groups.len()
        invariant
            i <= groups.len(),
            all == texts(groups@),
            texts(kept@) == matching(all.take(i as int), search_term@),
        decreases groups.len() - i,
    {
        proof {
            let grown = all.take(i + 1);
            assert(grown.drop_last() =~= all.take(i as int));
        }
        if contains(groups[i].as_str(), search_term) {
            kept.push(groups[i].clone());
        }
        i += 1;
    }
    proof {
        assert(all.take(i as int) =~= all);
    }
    kept
}

/// The groups of a master index that hold `search_term`, given the outcome of
/// reading the index as XML.
pub fn groups_from(nodes: Result<Vec<XmlNode>, roxmltree::Error>, search_term: &str) -> (groups:
    Result<Vec<String>, IndexError>)
    ensures
        names_of(groups) == groups_of(
            match nodes {
                Ok(n) => Some(node_views(n@)),
                Err(_) => None,
            },
            search_term@,
        ),
{
    match nodes {
        Ok(nodes) => Ok(filter_groups(parse_groups(&nodes), search_term)),
        Err(_) => Err(IndexError::Malformed),
    }
}

/// The groups that the master index `index` lists and that hold `search_term`.
/// It fails where the index is not well-formed XML.
pub fn master_groups(index: &str, search_term: &str) -> (groups: Result<Vec<String>, IndexError>)
    ensures
        names_of(groups) == groups_of(xml_nodes(index@, "versions"@), search_term@),
{
    groups_from(read_nodes(index, "versions"), search_term)
}

/// The versions that the comma-separated `list` stands for, in the order of
/// the list. An entry that stands for no version is left out.
pub fn parse_versions(list: &str) -> (versions: Vec<Version>)
    ensures
        version_views(versions@) == versions_in(list@),
{
    let raws = split_text(list, ',');
    let mut versions: Vec<Version> = Vec::new();
    let ghost all = texts(raws@);
    let mut i: usize = 0;
    while i < raws.len()
        invariant
            i <= raws.len(),
            all == texts(raws@),
            version_views(versions@) == versions_of(all.take(i as int)),
        decreases raws.len() - i,
    {
        proof {
            let grown = all.take(i + 1);
            assert(grown.drop_last() =~= all.take(i as int));
        }
        if let Some(v) = Version::from_text(raws[i].as_str()) {
            versions.push(v);
        }
        i += 1;
    }
    proof {
        assert(all.take(i as int) =~= all);
    }
    versions
}

proof fn lemma_first_element(nodes: Seq<NodeView>, at: int)
    requires
        0 <= at <= nodes.len(),
        forall|j: int| 0 <= j < at ==> !(#[trigger] nodes[j]).element,
        at < nodes.len() ==> nodes[at].element,
    ensures
        first_element(nodes) == at,
    decreases nodes.len(),
{
    if at > 0 {
        let rest = nodes.drop_first();
        lemma_first_element(rest, at - 1);
    }
}

/// The artifact records of a group index, given its nodes.
pub fn group_packages(nodes: &Vec<XmlNode>) -> (packages: Result<Vec<MavenPackage>, IndexError>)
    ensures
        views_of(packages) == group_records(node_views(nodes@)),
{
    let ghost views = node_views(nodes@);
    let mut root: usize = 0;
    while root < nodes.len() && !nodes[root].element
        invariant
            root <= nodes.len(),
            views == node_views(nodes@),
            forall|j: int| 0 <= j < root ==> !(#[trigger] views[j]).element,
        decreases nodes.len() - root,
    {
        root += 1;
    }
    proof {
        lemma_first_element(views, root as int);
    }
    if root >= nodes.len() {
        return Err(IndexError::Malformed);
    }
    let mut packages: Vec<MavenPackage> = Vec::new();
    let mut i: usize = 0;
    while i < nodes.len()
        invariant
            i <= nodes.len(),
            root < nodes.len(),
            views == node_views(nodes@),
            first_element(views) == root,
            !lacks_versions(views, root as int, i as int),
            package_views(packages@) == records(views, root as int, i as int),
        decreases nodes.len() - i,
    {
        let node = &nodes[i];
        let is_child = match node.parent {
            Some(p) => p == root,
            None => false,
        };
        if node.element && is_child {
            match &node.attribute {
                None => {
                    proof {
                        assert(views[i as int].attribute is None);
                    }
                    return Err(IndexError::Malformed);
                },
                Some(list) => {
                    let listed = parse_versions(list.as_str());
                    if listed.len() > 0 {
                        packages.push(
                            MavenPackage {
                                group_id: nodes[root].name.clone(),
                                artifact_id: node.name.clone(),
                                versions: sort_descending(&listed),
                            },
                        );
                    }
                },
            }
        }
        i += 1;
    }
    Ok(packages)
}

/// The artifact records of a group index, given the outcome of reading the
/// index as XML.
pub fn packages_from(nodes: Result<Vec<XmlNode>, roxmltree::Error>) -> (packages: Result<
    Vec<MavenPackage>,
    IndexError,
>)
    ensures
        views_of(packages) == packages_of(
            match nodes {
                Ok(n) => Some(node_views(n@)),
                Err(_) => None,
            },
        ),
{
    match nodes {
        Ok(nodes) => group_packages(&nodes),
        Err(_) => Err(IndexError::Malformed),
    }
}

/// The artifact records of the group index `index`. It fails where the index
/// is not well-formed XML or an artifact in it lacks its list of versions.
pub fn parse_group(index: &str) -> (packages: Result<Vec<MavenPackage>, IndexError>)
    ensures
        views_of(packages) == packages_of(xml_nodes(index@, "versions"@)),
{
    packages_from(read_nodes(index, "versions"))
}

/// The artifact records of a group, given the outcome of fetching its index.
/// It fails where the index could not be fetched, is not well-formed XML, or
/// holds an artifact without its list of versions.
pub fn fetched_group(fetched: &Result<String, FetchError>) -> (packages: Result<
    Vec<MavenPackage>,
    IndexError,
>)
    ensures
        views_of(packages) == outcome_of(fetched_text(*fetched)),
{
    match fetched {
        Ok(index) => parse_group(index.as_str()),
        Err(_) => Err(IndexError::Fetch),
    }
}

/// Those of `packages` whose group or artifact name holds `search_term`, in
/// order.
pub fn filter_packages(packages: &Vec<MavenPackage>, search_term: &str) -> (kept: Vec<MavenPackage>)
    ensures
        package_views(kept@) == packages_matching(package_views(packages@), search_term@),
{
    let mut kept: Vec<MavenPackage> = Vec::new();
    let ghost all = package_views(packages@);
    let mut i: usize = 0;
    while i < packages.len()
        invariant
            i <= packages.len(),
            all == package_views(packages@),
            package_views(kept@) == packages_matching(all.take(i as int), search_term@),
        decreases packages.len() - i,
    {
        proof {
            let grown = all.take(i + 1);
            assert(grown.drop_last() =~= all.take(i as int));
        }
        let p = &packages[i];
        if contains(p.group_id.as_str(), search_term) || contains(
            p.artifact_id.as_str(),
            search_term,
        ) {
            kept.push(
                MavenPackage {
                    group_id: p.group_id.clone(),
                    artifact_id: p.artifact_id.clone(),
                    versions: copy_versions(&p.versions),
                },
            );
        }
        i += 1;
    }
    proof {
        assert(all.take(i as int) =~= all);
    }
    kept
}

fn copy_versions(versions: &Vec<Version>) -> (copy: Vec<Version>)
    ensures
        version_views(copy@) == version_views(versions@),
{
    let mut copy: Vec<Version> = Vec::new();
    let mut i: usize = 0;
    while i < versions.len()
        invariant
            i <= versions.len(),
            copy.len() == i,
            forall|j: int| 0 <= j < i ==> copy@[j]@ == versions@[j]@,
        decreases versions.len() - i,
    {
        copy.push(versions[i].clone());
        i += 1;
    }
    copy
}

/// The versions of a list are the versions of its front part followed by
/// those of its back part: what one entry stands for does not depend on the
/// entries around it.
pub proof fn lemma_versions_concat(a: Seq<Seq<char>>, b: Seq<Seq<char>>)
    ensures
        versions_of(a + b) == versions_of(a) + versions_of(b),
    decreases b.len(),
{
    if b.len() > 0 {
        assert((a + b).drop_last() =~= a + b.drop_last());
        lemma_versions_concat(a, b.drop_last());
    }
}

/// An entry that stands for no version is dropped without a trace: the
/// versions of the list are those of the list without that entry, which are
/// the versions of the entries before it followed by those of the entries
/// behind it.
pub proof fn lemma_malformed_is_dropped(raws: Seq<Seq<char>>, k: int)
    requires
        0 <= k < raws.len(),
        parsed_version(raws[k]) is None,
    ensures
        versions_of(raws) == versions_of(raws.remove(k)),
        versions_of(raws) == versions_of(raws.take(k)) + versions_of(raws.skip(k + 1)),
{
    let before = raws.take(k);
    let after = raws.skip(k + 1);
    let one = seq![raws[k]];
    assert(raws =~= before + one + after);
    lemma_versions_concat(before, one);
    lemma_versions_concat(before + one, after);
    lemma_versions_concat(before, after);
    assert(versions_of(Seq::empty()) =~= Seq::empty());
    assert(one.drop_last() =~= Seq::empty());
}

/// Every name holds the empty term, so the empty term keeps every group.
pub proof fn lemma_empty_term_keeps_all(groups: Seq<Seq<char>>)
    ensures
        matching(groups, Seq::empty()) == groups,
    decreases groups.len(),
{
    if groups.len() > 0 {
        lemma_empty_term_keeps_all(groups.drop_last());
        let last = groups.last();
        assert(last.subrange(0, 0) =~= Seq::<char>::empty());
        assert(crate::text::occurs_at(last, Seq::empty(), 0));
    }
}

/// A term that no group's name holds keeps no group.
pub proof fn lemma_no_match_keeps_none(groups: Seq<Seq<char>>, term: Seq<char>)
    requires
        forall|i: int| 0 <= i < groups.len() ==> !contains_text(#[trigger] groups[i], term),
    ensures
        matching(groups, term) == Seq::<Seq<char>>::empty(),
    decreases groups.len(),
{
    if groups.len() > 0 {
        lemma_no_match_keeps_none(groups.drop_last(), term);
    }
}

} // verus!
