//! Inclusion rules for a build script: one rule for each group, or one for
//! each artifact, of the repository.

use crate::package::{package_views, MavenPackage, PackageView};
use crate::text::{chars_of, texts};
use vstd::prelude::*;
use vstd::string::StringExecFns;

verus! {

/// What the rules are written for.
#[derive(Debug, Clone, Copy, PartialEq, Eq, Structural)]
pub enum PrintType {
    IncludeGroup,
    IncludeModule,
}

/// How one text stands to another in the order of their characters.
#[derive(Debug, Clone, Copy, PartialEq, Eq, Structural)]
pub enum TextOrder {
    Before,
    Same,
    After,
}

/// Whether `a` and `b` agree in their first `k` characters and `a` is the
/// lesser behind them: it ends there and `b` goes on, or its next character
/// is the lesser one.
pub open spec fn parts_at(a: Seq<char>, b: Seq<char>, k: int) -> bool {
    &&& 0 <= k <= a.len()
    &&& k <= b.len()
    &&& a.take(k) == b.take(k)
    &&& if k == a.len() {
        k < b.len()
    } else {
        k < b.len() && a[k] < b[k]
    }
}

/// Whether `a` stands before `b` in the order of texts: character by
/// character, a text before each of its continuations.
pub open spec fn text_before(a: Seq<char>, b: Seq<char>) -> bool {
    exists|k: int| parts_at(a, b, k)
}

/// Whether `list` is in strictly ascending order, so that no text occurs
/// twice.
pub open spec fn ascending(list: Seq<Seq<char>>) -> bool {
    forall|i: int, j: int|
        0 <= i < j < list.len() ==> text_before(#[trigger] list[i], #[trigger] list[j])
}

/// Whether `sorted` is `given` sorted and without repetitions: in strictly
/// ascending order and holding the same texts.
pub open spec fn is_sorted_set(sorted: Seq<Seq<char>>, given: Seq<Seq<char>>) -> bool {
    &&& ascending(sorted)
    &&& forall|s: Seq<char>| sorted.contains(s) <==> given.contains(s)
}

/// The rule that includes the group `group`.
pub open spec fn group_rule(group: Seq<char>) -> Seq<char> {
    "includeGroup(\""@ + group + "\")\n"@
}

/// The rule that includes the artifact `artifact` of the group `group`.
pub open spec fn module_rule(group: Seq<char>, artifact: Seq<char>) -> Seq<char> {
    "includeModule(\""@ + group + "\", \""@ + artifact + "\")\n"@
}

/// The rules for `groups`, one after another.
pub open spec fn group_rules(groups: Seq<Seq<char>>) -> Seq<char>
    decreases groups.len(),
{
    if groups.len() == 0 {
        Seq::empty()
    } else {
        group_rules(groups.drop_last()) + group_rule(groups.last())
    }
}

/// The rules for `packages`, one after another.
pub open spec fn module_rules(packages: Seq<PackageView>) -> Seq<char>
    decreases packages.len(),
{
    if packages.len() == 0 {
        Seq::empty()
    } else {
        module_rules(packages.drop_last()) + module_rule(
            packages.last().group_id,
            packages.last().artifact_id,
        )
    }
}

/// The order of texts is transitive.
pub proof fn lemma_text_before_transitive(a: Seq<char>, b: Seq<char>, c: Seq<char>)
    requires
        text_before(a, b),
        text_before(b, c),
    ensures
        text_before(a, c),
{
    let k1 = choose|k: int| parts_at(a, b, k);
    let k2 = choose|k: int| parts_at(b, c, k);
    let k = if k1 <= k2 {
        k1
    } else {
        k2
    };
    assert(a.take(k) =~= c.take(k));
    if k1 < k2 {
        assert(b.take(k2)[k1] == c.take(k2)[k1]);
    } else if k2 < k1 {
        assert(a.take(k1)[k2] == b.take(k1)[k2]);
    }
    assert(parts_at(a, c, k));
}

/// No text stands before itself, and of two texts at most one stands before
/// the other.
pub proof fn lemma_text_before_asymmetric(a: Seq<char>, b: Seq<char>)
    requires
        text_before(a, b),
    ensures
        a != b,
        !text_before(b, a),
{
    let k1 = choose|k: int| parts_at(a, b, k);
    if text_before(b, a) {
        let k2 = choose|k: int| parts_at(b, a, k);
        if k1 < k2 {
            assert(b.take(k2)[k1] == a.take(k2)[k1]);
        } else if k2 < k1 {
            assert(a.take(k1)[k2] == b.take(k1)[k2]);
        }
    }
}

/// How `a` stands to `b` in the order of texts.
pub fn order_texts(a: &str, b: &str) -> (order: TextOrder)
    ensures
        order is Before <==> text_before(a@, b@),
        order is After <==> text_before(b@, a@),
        order is Same <==> a@ == b@,
{
    let left = chars_of(a);
    let right = chars_of(b);
    let mut k: usize = 0;
    while k < left.len() && k < right.len() && left[k] == right[k]
        invariant
            k <= left.len(),
            k <= right.len(),
            left@.take(k as int) == right@.take(k as int),
        decreases left.len() - k,
    {
        k += 1;
    }
    let order = if k == left.len() {
        if k == right.len() {
            TextOrder::Same
        } else {
            TextOrder::Before
        }
    } else if k == right.len() {
        TextOrder::After
    } else if left[k] < right[k] {
        TextOrder::Before
    } else {
        TextOrder::After
    };
    proof {
        if order is Same {
            assert(left@.take(k as int) =~= left@);
            assert(right@.take(k as int) =~= right@);
        } else if order is Before {
            assert(parts_at(a@, b@, k as int));
            lemma_text_before_asymmetric(a@, b@);
        } else {
            assert(parts_at(b@, a@, k as int));
            lemma_text_before_asymmetric(b@, a@);
        }
    }
    order
}

/// `texts` sorted and without repetitions.
pub fn sorted_set(given: &Vec<String>) -> (sorted: Vec<String>)
    ensures
        is_sorted_set(texts(sorted@), texts(given@)),
{
    let mut sorted: Vec<String> = Vec::new();
    let ghost all = texts(given@);
    let mut i: usize = 0;
    while i < given.len()
        invariant
            i <= given.len(),
            all == texts(given@),
            is_sorted_set(texts(sorted@), all.take(i as int)),
        decreases given.len() - i,
    {
        let x = &given[i];
        let ghost before = texts(sorted@);
        let ghost seen = all.take(i as int);
        let ghost grown = all.take(i + 1);
        proof {
            assert forall|s: Seq<char>| grown.contains(s) <==> (seen.contains(s) || s == x@) by {
                if s == x@ {
                    assert(grown[i as int] == s);
                }
            }
        }
        let mut k: usize = 0;
        let mut order = TextOrder::After;
        while k < sorted.len() && order == TextOrder::After
            invariant
                k <= sorted.len(),
                before == texts(sorted@),
                forall|j: int| 0 <= j < k - 1 ==> text_before(#[trigger] before[j], x@),
                k > 0 && order is After ==> text_before(before[k - 1], x@),
                k > 0 && order is Before ==> text_before(x@, before[k - 1]),
                k > 0 && order is Same ==> before[k - 1] == x@,
                k == 0 ==> order is After,
            decreases sorted.len() - k,
        {
            order = order_texts(x.as_str(), sorted[k].as_str());
            k += 1;
        }
        match order {
            TextOrder::Same => {},
            TextOrder::Before => {
                let at = k - 1;
                let copy = x.clone();
                proof {
                    let after = before.insert(at as int, x@);
                    assert(texts(sorted@.insert(at as int, copy)) =~= after);
                    assert forall|a: int, b: int| 0 <= a < b < after.len() implies text_before(
                        #[trigger] after[a],
                        #[trigger] after[b],
                    ) by {
                        if a < at && b - 1 == at {
                            lemma_text_before_transitive(before[a], x@, before[at as int]);
                        } else if a == at && b - 1 > at {
                            lemma_text_before_transitive(x@, before[at as int], before[b - 1]);
                        }
                    }
                    assert forall|s: Seq<char>| after.contains(s) <==> grown.contains(s) by {
                        if before.contains(s) {
                            let j = choose|j: int| 0 <= j < before.len() && before[j] == s;
                            if j < at {
                                assert(after[j] == s);
                            } else {
                                assert(after[j + 1] == s);
                            }
                        }
                        if s == x@ {
                            assert(after[at as int] == s);
                        }
                    }
                }
                sorted.insert(at, copy);
            },
            TextOrder::After => {
                let copy = x.clone();
                proof {
                    let after = before.push(x@);
                    assert(texts(sorted@.push(copy)) =~= after);
                    assert forall|s: Seq<char>| after.contains(s) <==> grown.contains(s) by {
                        if before.contains(s) {
                            let j = choose|j: int| 0 <= j < before.len() && before[j] == s;
                            assert(after[j] == s);
                        }
                        if s == x@ {
                            assert(after[before.len() as int] == s);
                        }
                    }
                }
                sorted.push(copy);
            },
        }
        i += 1;
    }
    proof {
        assert(all.take(i as int) =~= all);
    }
    sorted
}

/// The inclusion rules for `groups`: one rule for each group, the groups
/// sorted and each named once.
pub fn print_group_inclusions(groups: &Vec<String>) -> (rules: String)
    ensures
        exists|sorted: Seq<Seq<char>>|
            is_sorted_set(sorted, texts(groups@)) && rules@ == group_rules(sorted),
{
    let sorted = sorted_set(groups);
    let mut rules = String::new();
    let ghost names = texts(sorted@);
    let mut i: usize = 0;
    while i < sorted.len()
        invariant
            i <= sorted.len(),
            names == texts(sorted@),
            rules@ == group_rules(names.take(i as int)),
        decreases sorted.len() - i,
    {
        proof {
            let grown = names.take(i + 1);
            assert(grown.drop_last() =~= names.take(i as int));
        }
        rules.append("includeGroup(\"");
        rules.append(sorted[i].as_str());
        rules.append("\")\n");
        i += 1;
    }
    proof {
        assert(names.take(i as int) =~= names);
    }
    rules
}

/// The inclusion rules for `packages`: one rule for each artifact, in order.
pub fn print_module_inclusions(packages: &Vec<MavenPackage>) -> (rules: String)
    ensures
        rules@ == module_rules(package_views(packages@)),
{
    let mut rules = String::new();
    let ghost views = package_views(packages@);
    let mut i: usize = 0;
    while i < packages.len()
        invariant
            i <= packages.len(),
            views == package_views(packages@),
            rules@ == module_rules(views.take(i as int)),
        decreases packages.len() - i,
    {
        proof {
            let grown = views.take(i + 1);
            assert(grown.drop_last() =~= views.take(i as int));
        }
        rules.append("includeModule(\"");
        rules.append(packages[i].group_id.as_str());
        rules.append("\", \"");
        rules.append(packages[i].artifact_id.as_str());
        rules.append("\")\n");
        i += 1;
    }
    proof {
        assert(views.take(i as int) =~= views);
    }
    rules
}

/// The inclusion rules of the kind `print_type`, for the groups `groups` or
/// for the artifacts `packages`.
pub fn print_inclusions(
    print_type: PrintType,
    groups: &Vec<String>,
    packages: &Vec<MavenPackage>,
) -> (rules: String)
    ensures
        print_type is IncludeModule ==> rules@ == module_rules(package_views(packages@)),
        print_type is IncludeGroup ==> exists|sorted: Seq<Seq<char>>|
            is_sorted_set(sorted, texts(groups@)) && rules@ == group_rules(sorted),
{
    match print_type {
        PrintType::IncludeGroup => print_group_inclusions(groups),
        PrintType::IncludeModule => print_module_inclusions(packages),
    }
}

/// A list has one sorted set only.
pub proof fn lemma_sorted_set_is_unique(a: Seq<Seq<char>>, b: Seq<Seq<char>>, given: Seq<Seq<char>>)
    requires
        is_sorted_set(a, given),
        is_sorted_set(b, given),
    ensures
        a == b,
    decreases a.len(),
{
    if a.len() == 0 {
        if b.len() > 0 {
            assert(a.contains(b[0]));
        }
    } else if b.len() == 0 {
        assert(b.contains(a[0]));
    } else {
        let x = a.last();
        let y = b.last();
        assert(b.contains(x));
        assert(a.contains(y));
        let i = choose|i: int| 0 <= i < b.len() && b[i] == x;
        if i < b.len() - 1 {
            lemma_text_before_asymmetric(x, y);
        }
        let a0 = a.drop_last();
        let b0 = b.drop_last();
        assert forall|s: Seq<char>| b0.contains(s) <==> a0.contains(s) by {
            if b0.contains(s) {
                lemma_text_before_asymmetric(s, y);
                assert(a.contains(s));
                let q = choose|q: int| 0 <= q < a.len() && a[q] == s;
                assert(a0[q] == s);
            }
            if a0.contains(s) {
                lemma_text_before_asymmetric(s, x);
                assert(b.contains(s));
                let q = choose|q: int| 0 <= q < b.len() && b[q] == s;
                assert(b0[q] == s);
            }
        }
        lemma_sorted_set_is_unique(a0, b0, a0);
        assert(b =~= b0.push(y));
    }
}

} // verus!
