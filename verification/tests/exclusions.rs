use adx::exclusions::{
    order_texts, print_group_inclusions, print_inclusions, print_module_inclusions, sorted_set,
    PrintType, TextOrder,
};
use adx::package::MavenPackage;

fn names(groups: &[&str]) -> Vec<String> {
    groups.iter().map(|g| g.to_string()).collect()
}

fn package(group: &str, artifact: &str) -> MavenPackage {
    MavenPackage { group_id: group.to_string(), artifact_id: artifact.to_string(), versions: Vec::new() }
}

#[test]
fn texts_in_order() {
    assert_eq!(order_texts("a", "b"), TextOrder::Before);
    assert_eq!(order_texts("b", "a"), TextOrder::After);
    assert_eq!(order_texts("a", "a"), TextOrder::Same);
    assert_eq!(order_texts("", ""), TextOrder::Same);
    assert_eq!(order_texts("", "a"), TextOrder::Before);
    assert_eq!(order_texts("androidx.core", "androidx.core.ui"), TextOrder::Before);
    assert_eq!(order_texts("androidx.core.ui", "androidx.core"), TextOrder::After);
    assert_eq!(order_texts("Z", "a"), TextOrder::Before);
    assert_eq!(order_texts("a10", "a9"), TextOrder::Before);
}

#[test]
fn texts_in_order_agree_with_std() {
    let all = ["", "a", "ab", "b", "B", "a.b", "a-b", "ä", "z", "zz", "a\u{10000}", "a\u{ffff}"];
    for a in all {
        for b in all {
            let expected = match a.cmp(b) {
                std::cmp::Ordering::Less => TextOrder::Before,
                std::cmp::Ordering::Equal => TextOrder::Same,
                std::cmp::Ordering::Greater => TextOrder::After,
            };
            assert_eq!(order_texts(a, b), expected, "{:?} {:?}", a, b);
        }
    }
}

#[test]
fn sorts_and_drops_repetitions() {
    let given = names(&["b", "a", "c", "a", "b", "aa", "", "c"]);
    assert_eq!(sorted_set(&given), names(&["", "a", "aa", "b", "c"]));
    assert!(sorted_set(&Vec::new()).is_empty());
    assert_eq!(sorted_set(&names(&["x"])), names(&["x"]));
    assert_eq!(sorted_set(&names(&["x", "x", "x"])), names(&["x"]));
    let mut expected = given.clone();
    expected.sort();
    expected.dedup();
    assert_eq!(sorted_set(&given), expected);
}

#[test]
fn rules_for_groups() {
    let groups = names(&["com.google.firebase", "androidx.core", "androidx.core", "androidx.activity"]);
    assert_eq!(
        print_group_inclusions(&groups),
        "includeGroup(\"androidx.activity\")\nincludeGroup(\"androidx.core\")\nincludeGroup(\"com.google.firebase\")\n"
    );
    assert_eq!(print_group_inclusions(&Vec::new()), "");
}

#[test]
fn rules_for_artifacts() {
    let packages = vec![package("g.two", "b"), package("g.one", "a"), package("g.two", "b")];
    assert_eq!(
        print_module_inclusions(&packages),
        "includeModule(\"g.two\", \"b\")\nincludeModule(\"g.one\", \"a\")\nincludeModule(\"g.two\", \"b\")\n"
    );
    assert_eq!(print_module_inclusions(&Vec::new()), "");
}

#[test]
fn rules_of_either_kind() {
    let groups = names(&["g.two", "g.one"]);
    let packages = vec![package("g.two", "b")];
    assert_eq!(
        print_inclusions(PrintType::IncludeGroup, &groups, &packages),
        "includeGroup(\"g.one\")\nincludeGroup(\"g.two\")\n"
    );
    assert_eq!(
        print_inclusions(PrintType::IncludeModule, &groups, &packages),
        "includeModule(\"g.two\", \"b\")\n"
    );
}
