//! Resolving many groups at once: which group index to fetch next, with a
//! bound on the fetches under way, and what each outcome adds to the result.
//! The resolver only decides; fetching is left to its caller, who asks for the
//! next request, performs it, and reports the outcome.

use crate::package::{package_views, MavenPackage, PackageView};
use crate::parse::{contribution, fetched_group, fetched_text, group_index_address};
use crate::parse::{group_index_url, outcome_of, FetchError, IndexError};
use crate::text::texts;
use vstd::prelude::*;

verus! {

/// The most fetches that are under way at any time.
pub const MAX_IN_FLIGHT: usize = 32;

/// How far the resolver is with one group.
#[derive(Debug, Clone, Copy, PartialEq, Eq, Structural)]
pub enum GroupState {
    /// Its index has not been asked for yet.
    Waiting,
    /// Its index is being fetched.
    InFlight,
    /// The outcome of fetching its index has been taken in.
    Done,
}

/// A group index to fetch.
#[derive(Debug)]
pub struct FetchRequest {
    /// The place of the group among the groups to resolve.
    pub group: usize,
    /// The address of the group's index.
    pub url: String,
}

/// What became of a reported outcome.
#[derive(Debug, Clone, Copy, PartialEq, Eq, Structural)]
pub enum Completion {
    /// The group was not being fetched; nothing changed.
    Ignored,
    /// The index could not be had; the group adds nothing.
    Failed(IndexError),
    /// The group's artifact records were added, this many.
    Added(usize),
}

/// The state of resolving a list of groups.
pub struct Resolver {
    groups: Vec<String>,
    states: Vec<GroupState>,
    next: usize,
    in_flight: usize,
    packages: Vec<MavenPackage>,
    history: Ghost<Seq<Option<Seq<char>>>>,
}

/// What a resolver holds, as plain values.
pub struct ResolverView {
    /// The names of the groups to resolve.
    pub groups: Seq<Seq<char>>,
    pub states: Seq<GroupState>,
    /// The artifact records taken in so far.
    pub packages: Seq<PackageView>,
    /// The outcomes taken in so far, in the order in which they came: the text
    /// of an index, or nothing for a failed fetch.
    pub history: Seq<Option<Seq<char>>>,
}

/// How many of `states` are in flight.
pub open spec fn count_in_flight(states: Seq<GroupState>) -> nat
    decreases states.len(),
{
    if states.len() == 0 {
        0
    } else {
        count_in_flight(states.drop_last()) + if states.last() is InFlight {
            1nat
        } else {
            0nat
        }
    }
}

/// Whether every one of `states` is done.
pub open spec fn all_done(states: Seq<GroupState>) -> bool {
    forall|i: int| 0 <= i < states.len() ==> #[trigger] states[i] is Done
}

/// What the outcomes `outcomes` add up to: the records of each, one after
/// another.
pub open spec fn aggregate(outcomes: Seq<Option<Seq<char>>>) -> Seq<PackageView>
    decreases outcomes.len(),
{
    if outcomes.len() == 0 {
        Seq::empty()
    } else {
        aggregate(outcomes.drop_last()) + contribution(outcomes.last())
    }
}

proof fn lemma_count_update(states: Seq<GroupState>, i: int, state: GroupState)
    requires
        0 <= i < states.len(),
    ensures
        count_in_flight(states.update(i, state)) + (if states[i] is InFlight {
            1int
        } else {
            0int
        }) == count_in_flight(states) + (if state is InFlight {
            1int
        } else {
            0int
        }),
    decreases states.len(),
{
    let updated = states.update(i, state);
    if i == states.len() - 1 {
        assert(updated.drop_last() =~= states.drop_last());
    } else {
        assert(updated.drop_last() =~= states.drop_last().update(i, state));
        lemma_count_update(states.drop_last(), i, state);
    }
}

proof fn lemma_count_waiting(states: Seq<GroupState>)
    requires
        forall|i: int| 0 <= i < states.len() ==> #[trigger] states[i] is Waiting,
    ensures
        count_in_flight(states) == 0,
    decreases states.len(),
{
    if states.len() > 0 {
        lemma_count_waiting(states.drop_last());
    }
}

proof fn lemma_count_bound(states: Seq<GroupState>)
    ensures
        count_in_flight(states) <= states.len(),
    decreases states.len(),
{
    if states.len() > 0 {
        lemma_count_bound(states.drop_last());
    }
}

proof fn lemma_count_none(states: Seq<GroupState>, i: int)
    requires
        count_in_flight(states) == 0,
        0 <= i < states.len(),
    ensures
        !(states[i] is InFlight),
    decreases states.len(),
{
    if i < states.len() - 1 {
        lemma_count_none(states.drop_last(), i);
    }
}

/// What the outcomes add up to does not depend on how they are bracketed.
pub proof fn lemma_aggregate_concat(a: Seq<Option<Seq<char>>>, b: Seq<Option<Seq<char>>>)
    ensures
        aggregate(a + b) == aggregate(a) + aggregate(b),
    decreases b.len(),
{
    if b.len() > 0 {
        assert((a + b).drop_last() =~= a + b.drop_last());
        lemma_aggregate_concat(a, b.drop_last());
    }
}

/// A failure for one group leaves what every other group adds as it is: with
/// the outcome at `k` replaced by a failed fetch, the result is the result of
/// the other outcomes alone, and it has lost only the records of the group
/// at `k`.
pub proof fn lemma_failure_is_isolated(outcomes: Seq<Option<Seq<char>>>, k: int)
    requires
        0 <= k < outcomes.len(),
    ensures
        aggregate(outcomes.update(k, None)) == aggregate(outcomes.remove(k)),
        aggregate(outcomes.update(k, None)) == aggregate(outcomes.take(k)) + aggregate(
            outcomes.skip(k + 1),
        ),
        aggregate(outcomes) == aggregate(outcomes.take(k)) + contribution(outcomes[k])
            + aggregate(outcomes.skip(k + 1)),
        aggregate(outcomes.update(k, None)).len() + contribution(outcomes[k]).len()
            == aggregate(outcomes).len(),
{
    let before = outcomes.take(k);
    let after = outcomes.skip(k + 1);
    let one = seq![outcomes[k]];
    let none = seq![None::<Seq<char>>];
    assert(outcomes =~= before + one + after);
    assert(outcomes.update(k, None) =~= before + none + after);
    lemma_aggregate_concat(before, one);
    lemma_aggregate_concat(before + one, after);
    lemma_aggregate_concat(before, none);
    lemma_aggregate_concat(before + none, after);
    lemma_aggregate_concat(before, after);
    assert(aggregate(Seq::empty()) =~= Seq::empty());
    assert(one.drop_last() =~= Seq::empty());
    assert(none.drop_last() =~= Seq::empty());
}

/// The order in which the outcomes come is irrelevant to what they add up
/// to: two histories that hold the same outcomes, each as often as in the
/// other, give the same records, each as often as in the other.
pub proof fn lemma_order_of_completion_is_irrelevant(
    a: Seq<Option<Seq<char>>>,
    b: Seq<Option<Seq<char>>>,
)
    requires
        a.to_multiset() == b.to_multiset(),
    ensures
        aggregate(a).to_multiset() == aggregate(b).to_multiset(),
        aggregate(a).len() == aggregate(b).len(),
    decreases a.len(),
{
    a.to_multiset_ensures();
    b.to_multiset_ensures();
    aggregate(a).to_multiset_ensures();
    aggregate(b).to_multiset_ensures();
    if a.len() > 0 {
        let x = a.last();
        let front = a.drop_last();
        assert(b.to_multiset().count(x) > 0);
        let i = choose|i: int| 0 <= i < b.len() && b[i] == x;
        let rest = b.remove(i);
        vstd::seq_lib::to_multiset_remove(b, i);
        vstd::seq_lib::to_multiset_remove(a, a.len() - 1);
        lemma_order_of_completion_is_irrelevant(front, rest);
        lemma_failure_is_isolated(b, i);
        let head = aggregate(b.take(i));
        let tail = aggregate(b.skip(i + 1));
        let added = contribution(x);
        vstd::seq_lib::lemma_multiset_commutative(aggregate(front), added);
        vstd::seq_lib::lemma_multiset_commutative(head, tail);
        vstd::seq_lib::lemma_multiset_commutative(head, added);
        vstd::seq_lib::lemma_multiset_commutative(head + added, tail);
    }
}

impl View for Resolver {
    type V = ResolverView;

    closed spec fn view(&self) -> ResolverView {
        ResolverView {
            groups: texts(self.groups@),
            states: self.states@,
            packages: package_views(self.packages@),
            history: self.history@,
        }
    }
}

impl Resolver {
    /// What holds of every resolver: the groups are handed out in order, no
    /// more than the bound are in flight, and the records held are what the
    /// outcomes taken in add up to.
    #[verifier::type_invariant]
    closed spec fn wf(self) -> bool {
        &&& self.states@.len() == self.groups@.len()
        &&& self.next <= self.groups@.len()
        &&& forall|i: int| 0 <= i < self.next ==> !(#[trigger] self.states@[i] is Waiting)
        &&& forall|i: int|
            self.next <= i < self.states@.len() ==> #[trigger] self.states@[i] is Waiting
        &&& self.in_flight == count_in_flight(self.states@)
        &&& self.in_flight <= MAX_IN_FLIGHT
        &&& package_views(self.packages@) == aggregate(self.history@)
    }

    /// The number of fetches under way.
    pub closed spec fn spec_in_flight(&self) -> nat {
        self.in_flight as nat
    }

    /// The number of groups whose index has been asked for.
    pub closed spec fn handed_out(&self) -> nat {
        self.next as nat
    }

    /// Whether `after` and `request` are what asking `self` for the next
    /// fetch gives. There is a request exactly when a group is still waiting
    /// and fewer than the bound are in flight; it is for the first waiting
    /// group, which is then in flight. Nothing else changes.
    pub open spec fn hands_out(self, after: Resolver, request: Option<FetchRequest>) -> bool {
        &&& after@.groups == self@.groups
        &&& after@.packages == self@.packages
        &&& after@.history == self@.history
        &&& after.spec_in_flight() == count_in_flight(after@.states)
        &&& after.spec_in_flight() <= MAX_IN_FLIGHT
        &&& request is Some <==> self.handed_out() < self@.groups.len() && self.spec_in_flight()
            < MAX_IN_FLIGHT
        &&& request is None ==> after@.states == self@.states && after.spec_in_flight()
            == self.spec_in_flight() && after.handed_out() == self.handed_out()
        &&& request matches Some(r) ==> {
            &&& r.group == self.handed_out()
            &&& r.url@ == group_index_address(self@.groups[r.group as int])
            &&& self@.states[r.group as int] is Waiting
            &&& after@.states == self@.states.update(r.group as int, GroupState::InFlight)
            &&& after.spec_in_flight() == self.spec_in_flight() + 1
            &&& after.handed_out() == self.handed_out() + 1
        }
    }

    /// Whether `after` and `completion` are what taking in the outcome
    /// `fetched` for the group at `group` gives. The outcome is ignored exactly
    /// when that group is not in flight, and then nothing changes. Else the
    /// group is done, the outcome joins the history, and what it adds, if
    /// anything, stands behind the records held.
    pub open spec fn takes_in(
        self,
        after: Resolver,
        group: usize,
        fetched: Option<Seq<char>>,
        completion: Completion,
    ) -> bool {
        &&& after@.groups == self@.groups
        &&& after.handed_out() == self.handed_out()
        &&& after.spec_in_flight() == count_in_flight(after@.states)
        &&& after.spec_in_flight() <= MAX_IN_FLIGHT
        &&& completion is Ignored <==> !(group < self@.states.len()
            && self@.states[group as int] is InFlight)
        &&& completion is Ignored ==> after@ == self@ && after.spec_in_flight()
            == self.spec_in_flight()
        &&& !(completion is Ignored) ==> {
            &&& after@.states == self@.states.update(group as int, GroupState::Done)
            &&& after.spec_in_flight() == self.spec_in_flight() - 1
            &&& after@.history == self@.history.push(fetched)
            &&& after@.packages == self@.packages + contribution(fetched)
        }
        &&& completion matches Completion::Failed(e) ==> outcome_of(fetched) == Err::<
            Seq<PackageView>,
            IndexError,
        >(e)
        &&& completion matches Completion::Added(n) ==> outcome_of(fetched) is Ok && n
            == contribution(fetched).len()
    }

    /// A resolver for `groups`, none of which has been asked for.
    pub fn new(groups: Vec<String>) -> (resolver: Resolver)
        ensures
            resolver@.groups == texts(groups@),
            resolver@.states == Seq::new(groups@.len(), |i: int| GroupState::Waiting),
            resolver@.packages == Seq::<PackageView>::empty(),
            resolver@.history == Seq::<Option<Seq<char>>>::empty(),
            resolver.spec_in_flight() == 0,
            resolver.handed_out() == 0,
    {
        let mut states: Vec<GroupState> = Vec::new();
        let mut i: usize = 0;
        while i < groups.len()
            invariant
                i <= groups.len(),
                states@ == Seq::new(i as nat, |i: int| GroupState::Waiting),
            decreases groups.len() - i,
        {
            states.push(GroupState::Waiting);
            i += 1;
        }
        proof {
            lemma_count_waiting(states@);
            assert(package_views(Seq::<MavenPackage>::empty()) =~= Seq::empty());
        }
        Resolver {
            groups,
            states,
            next: 0,
            in_flight: 0,
            packages: Vec::new(),
            history: Ghost(Seq::empty()),
        }
    }

    /// The number of fetches under way, which is what the states say and never
    /// more than the bound.
    pub fn in_flight(&self) -> (n: usize)
        ensures
            n == self.spec_in_flight(),
            n == count_in_flight(self@.states),
            n <= MAX_IN_FLIGHT,
    {
        proof {
            use_type_invariant(self);
        }
        self.in_flight
    }

    /// Whether every group's outcome has been taken in.
    pub fn is_done(&self) -> (done: bool)
        ensures
            self@.states.len() == self@.groups.len(),
            done == all_done(self@.states),
            done == (self.handed_out() == self@.groups.len() && self.spec_in_flight() == 0),
    {
        proof {
            use_type_invariant(self);
        }
        let done = self.next == self.groups.len() && self.in_flight == 0;
        proof {
            if done {
                assert forall|i: int| 0 <= i < self.states@.len() implies #[trigger] self.states@[i]
                    is Done by {
                    lemma_count_none(self.states@, i);
                }
            } else if self.next >= self.groups.len() {
                if all_done(self.states@) {
                    lemma_count_done(self.states@);
                }
            }
        }
        done
    }

    fn take(&mut self) -> (held: Resolver)
        ensures
            held == *old(self),
    {
        let mut held = Resolver::new(Vec::new());
        core::mem::swap(self, &mut held);
        held
    }

    fn advance(self) -> (next: (Resolver, Option<FetchRequest>))
        ensures
            self.hands_out(next.0, next.1),
    {
        proof {
            use_type_invariant(&self);
        }
        if self.next >= self.groups.len() || self.in_flight >= MAX_IN_FLIGHT {
            return (self, None);
        }
        let group = self.next;
        let url = group_index_url(self.groups[group].as_str());
        proof {
            lemma_count_update(self.states@, group as int, GroupState::InFlight);
        }
        let Resolver { groups, mut states, next, in_flight, packages, history } = self;
        states.set(group, GroupState::InFlight);
        (
            Resolver {
                groups,
                states,
                next: next + 1,
                in_flight: in_flight + 1,
                packages,
                history,
            },
            Some(FetchRequest { group, url }),
        )
    }

    /// The next group index to fetch, if one may be fetched now: a group is
    /// still waiting and fewer than the bound are in flight. Groups are handed
    /// out in their order, each once.
    pub fn next_fetch(&mut self) -> (request: Option<FetchRequest>)
        ensures
            old(self).hands_out(*final(self), request),
    {
        let (next, request) = self.take().advance();
        *self = next;
        request
    }

    fn settle(self, group: usize, fetched: Result<String, FetchError>) -> (next: (
        Resolver,
        Completion,
    ))
        ensures
            self.takes_in(next.0, group, fetched_text(fetched), next.1),
    {
        proof {
            use_type_invariant(&self);
        }
        if group >= self.states.len() {
            return (self, Completion::Ignored);
        }
        match self.states[group] {
            GroupState::InFlight => {},
            _ => {
                return (self, Completion::Ignored);
            },
        }
        proof {
            lemma_count_update(self.states@, group as int, GroupState::Done);
            lemma_count_bound(self.states@);
        }
        let ghost text = fetched_text(fetched);
        let ghost held = package_views(self.packages@);
        let Resolver { groups, mut states, next, in_flight, mut packages, history } = self;
        states.set(group, GroupState::Done);
        let ghost outcomes = history@.push(text);
        proof {
            assert(outcomes.drop_last() =~= history@);
        }
        let completion = match fetched_group(&fetched) {
            Ok(mut found) => {
                let n = found.len();
                let ghost added = package_views(found@);
                packages.append(&mut found);
                proof {
                    assert(package_views(packages@) =~= held + added);
                }
                Completion::Added(n)
            },
            Err(e) => Completion::Failed(e),
        };
        (
            Resolver {
                groups,
                states,
                next,
                in_flight: in_flight - 1,
                packages,
                history: Ghost(outcomes),
            },
            completion,
        )
    }

    /// Takes in the outcome of fetching the index of the group at `group`.
    /// Where that group is in flight, the outcome's records are added behind
    /// those held, and the group is done: a failed fetch or an index that
    /// cannot be read adds nothing and is reported without touching what other
    /// groups added. For a group that is not in flight nothing changes.
    pub fn complete(&mut self, group: usize, fetched: Result<String, FetchError>) -> (completion:
        Completion)
        ensures
            old(self).takes_in(*final(self), group, fetched_text(fetched), completion),
    {
        let (next, completion) = self.take().settle(group, fetched);
        *self = next;
        completion
    }

    /// The artifact records taken in, in the order in which they came: what
    /// the outcomes taken in add up to.
    pub fn into_packages(self) -> (packages: Vec<MavenPackage>)
        ensures
            package_views(packages@) == self@.packages,
            package_views(packages@) == aggregate(self@.history),
    {
        proof {
            use_type_invariant(&self);
        }
        self.packages
    }
}

proof fn lemma_count_done(states: Seq<GroupState>)
    requires
        forall|i: int| 0 <= i < states.len() ==> !(#[trigger] states[i] is InFlight),
    ensures
        count_in_flight(states) == 0,
    decreases states.len(),
{
    if states.len() > 0 {
        lemma_count_done(states.drop_last());
    }
}

} // verus!
