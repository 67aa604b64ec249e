//! A query over documents that have been fetched already: the master index
//! and the indexes of its groups. It gives what resolving the groups that hold
//! the search term gives.

use crate::package::{package_views, MavenPackage, PackageView};
use crate::parse::{fetched_group, fetched_text, group_names, parse_groups, views_of};
use crate::parse::{FetchError, IndexError};
use crate::resolver::aggregate;
use crate::text::{contains, contains_text, texts};
use crate::xml::{node_views, read_nodes, xml_nodes, NodeView, XmlNode};
use vstd::prelude::*;

verus! {

/// What a list of fetches brought, each as a text or as nothing.
pub open spec fn fetched_texts(indexes: Seq<Result<String, FetchError>>) -> Seq<Option<Seq<char>>> {
    indexes.map_values(|fetched: Result<String, FetchError>| fetched_text(fetched))
}

/// What was fetched for the group at place `i` of the master index: the entry
/// at that place, or nothing where the list does not reach so far.
pub open spec fn outcome_at(indexes: Seq<Option<Seq<char>>>, i: int) -> Option<Seq<char>> {
    if 0 <= i < indexes.len() {
        indexes[i]
    } else {
        None
    }
}

/// The outcomes to take in: for each of the first `upto` groups that holds
/// `term`, in order, what was fetched for it.
pub open spec fn chosen(
    groups: Seq<Seq<char>>,
    indexes: Seq<Option<Seq<char>>>,
    term: Seq<char>,
    upto: int,
) -> Seq<Option<Seq<char>>>
    decreases upto,
{
    if upto <= 0 {
        Seq::empty()
    } else if contains_text(groups[upto - 1], term) {
        chosen(groups, indexes, term, upto - 1).push(outcome_at(indexes, upto - 1))
    } else {
        chosen(groups, indexes, term, upto - 1)
    }
}

/// What a query for `term` gives, given what the XML reading made of the
/// master index and what was fetched for its groups: what the outcomes of the
/// groups that hold `term` add up to. Without the master index there is no
/// result at all.
pub open spec fn found_in(
    nodes: Option<Seq<NodeView>>,
    indexes: Seq<Option<Seq<char>>>,
    term: Seq<char>,
) -> Result<Seq<PackageView>, IndexError> {
    match nodes {
        Some(nodes) => Ok(
            aggregate(
                chosen(group_names(nodes), indexes, term, group_names(nodes).len() as int),
            ),
        ),
        None => Err(IndexError::Malformed),
    }
}

/// What a query for `term` gives, given what was fetched.
pub open spec fn search_of(
    term: Seq<char>,
    master: Option<Seq<char>>,
    indexes: Seq<Option<Seq<char>>>,
) -> Result<Seq<PackageView>, IndexError> {
    match master {
        Some(text) => found_in(xml_nodes(text, "versions"@), indexes, term),
        None => Err(IndexError::Fetch),
    }
}

/// The artifact records of the groups that hold `search_term`, given the
/// outcome of reading the master index as XML and what was fetched for its
/// groups, place by place.
pub fn parse_from(
    search_term: &str,
    nodes: Result<Vec<XmlNode>, roxmltree::Error>,
    indexes: &Vec<Result<String, FetchError>>,
) -> (packages: Result<Vec<MavenPackage>, IndexError>)
    ensures
        views_of(packages) == found_in(
            match nodes {
                Ok(n) => Some(node_views(n@)),
                Err(_) => None,
            },
            fetched_texts(indexes@),
            search_term@,
        ),
{
    let nodes = match nodes {
        Ok(nodes) => nodes,
        Err(_) => {
            return Err(IndexError::Malformed);
        },
    };
    let groups = parse_groups(&nodes);
    let ghost names = texts(groups@);
    let ghost brought = fetched_texts(indexes@);
    let mut packages: Vec<MavenPackage> = Vec::new();
    let mut i: usize = 0;
    while i < groups.len()
        invariant
            i <= groups.len(),
            names == texts(groups@),
            brought == fetched_texts(indexes@),
            package_views(packages@) == aggregate(chosen(names, brought, search_term@, i as int)),
        decreases groups.len() - i,
    {
        if contains(groups[i].as_str(), search_term) {
            proof {
                let taken = chosen(names, brought, search_term@, i + 1);
                assert(taken.drop_last() =~= chosen(names, brought, search_term@, i as int));
            }
            if i < indexes.len() {
                if let Ok(mut found) = fetched_group(&indexes[i]) {
                    packages.append(&mut found);
                }
            }
        }
        i += 1;
    }
    Ok(packages)
}

/// The artifact records that a query for `search_term` gives, given what was
/// fetched: `master` for the master index, and `indexes[i]` for the index of
/// the group at place `i` of the master index. Each group whose name holds
/// `search_term` adds its records, in the order of the master index; a group
/// whose index was not fetched or cannot be read adds nothing. The query fails
/// only where the master index was not fetched or is not well-formed XML.
pub fn parse(
    search_term: &str,
    master: &Result<String, FetchError>,
    indexes: &Vec<Result<String, FetchError>>,
) -> (packages: Result<Vec<MavenPackage>, IndexError>)
    ensures
        views_of(packages) == search_of(
            search_term@,
            fetched_text(*master),
            fetched_texts(indexes@),
        ),
{
    match master {
        Ok(text) => parse_from(search_term, read_nodes(text.as_str(), "versions"), indexes),
        Err(_) => Err(IndexError::Fetch),
    }
}

/// The empty term filters nothing out: every group of the master index is
/// taken in, so the result holds the records of every group.
pub proof fn lemma_empty_term_searches_every_group(
    groups: Seq<Seq<char>>,
    indexes: Seq<Option<Seq<char>>>,
    upto: int,
)
    requires
        0 <= upto <= groups.len(),
    ensures
        chosen(groups, indexes, Seq::empty(), upto) == Seq::new(
            upto as nat,
            |i: int| outcome_at(indexes, i),
        ),
    decreases upto,
{
    if upto > 0 {
        lemma_empty_term_searches_every_group(groups, indexes, upto - 1);
        let name = groups[upto - 1];
        assert(name.subrange(0, 0) =~= Seq::<char>::empty());
        assert(crate::text::occurs_at(name, Seq::empty(), 0));
    }
}

/// A term that no group's name holds takes no group in.
pub proof fn lemma_no_match_chooses_nothing(
    groups: Seq<Seq<char>>,
    indexes: Seq<Option<Seq<char>>>,
    term: Seq<char>,
    upto: int,
)
    requires
        0 <= upto <= groups.len(),
        forall|i: int| 0 <= i < groups.len() ==> !contains_text(#[trigger] groups[i], term),
    ensures
        chosen(groups, indexes, term, upto) == Seq::<Option<Seq<char>>>::empty(),
    decreases upto,
{
    if upto > 0 {
        lemma_no_match_chooses_nothing(groups, indexes, term, upto - 1);
    }
}

/// For a master index that was fetched and reads as XML, the query succeeds.
/// With the empty term it gives what the outcomes of all the groups of the
/// master index add up to; with a term that no group's name holds it gives no
/// record at all, which is a result and no failure.
pub proof fn lemma_search_by_term(
    master: Seq<char>,
    nodes: Seq<NodeView>,
    indexes: Seq<Option<Seq<char>>>,
    term: Seq<char>,
)
    requires
        xml_nodes(master, "versions"@) == Some(nodes),
    ensures
        search_of(term, Some(master), indexes) is Ok,
        search_of(Seq::empty(), Some(master), indexes) == Ok::<Seq<PackageView>, IndexError>(
            aggregate(Seq::new(group_names(nodes).len(), |i: int| outcome_at(indexes, i))),
        ),
        (forall|i: int|
            0 <= i < group_names(nodes).len() ==> !contains_text(
                #[trigger] group_names(nodes)[i],
                term,
            )) ==> search_of(term, Some(master), indexes) == Ok::<Seq<PackageView>, IndexError>(
            Seq::empty(),
        ),
{
    let groups = group_names(nodes);
    lemma_empty_term_searches_every_group(groups, indexes, groups.len() as int);
    if forall|i: int| 0 <= i < groups.len() ==> !contains_text(#[trigger] groups[i], term) {
        lemma_no_match_chooses_nothing(groups, indexes, term, groups.len() as int);
    }
}

} // verus!
