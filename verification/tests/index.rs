use adx::parse::{
    fetched_group, FetchError, filter_groups, filter_packages, group_index_url, group_packages, groups_from, master_groups,
    master_index_url, packages_from, parse_group, parse_groups, parse_versions, IndexError,
};
use adx::package::MavenPackage;
use adx::version::Version;
use adx::xml::XmlNode;

const MASTER: &str = "<?xml version='1.0' encoding='UTF-8'?>
<metadata>
  <androidx.activity/>
  <androidx.appcompat/>
  <!-- a comment between groups -->
  <androidx.compose.ui/>
  <com.google.android.material/>
  <com.android.tools.build></com.android.tools.build>
</metadata>
";

const GROUP: &str = "<?xml version='1.0' encoding='UTF-8'?>
<androidx.appcompat>
  <appcompat versions=\"1.0.0,1.1.0-alpha01,not-a-version,1.1.0,1.2.0-beta01\"/>
  <appcompat-resources versions=\"1.1.0,1.2.0-alpha01\"/>
  <empty versions=\"\"/>
  <broken versions=\"x,y\"/>
  <legacy versions=\"2023.04.01,2022.12.31\"/>
</androidx.appcompat>
";

fn names(groups: &[&str]) -> Vec<String> {
    groups.iter().map(|g| g.to_string()).collect()
}

fn shown(p: &MavenPackage) -> (String, String, Vec<String>) {
    (
        p.group_id.clone(),
        p.artifact_id.clone(),
        p.versions.iter().map(|v| v.to_string()).collect(),
    )
}

fn element(name: &str, parent: Option<usize>, attribute: Option<&str>) -> XmlNode {
    XmlNode {
        element: true,
        name: name.to_string(),
        parent,
        attribute: attribute.map(|a| a.to_string()),
    }
}

fn other(parent: Option<usize>) -> XmlNode {
    XmlNode { element: false, name: String::new(), parent, attribute: None }
}

#[test]
fn master_index_lists_every_group_but_the_root_element() {
    let groups = master_groups(MASTER, "").unwrap();
    assert_eq!(groups.len(), 5);
    assert_eq!(
        groups,
        names(&[
            "androidx.activity",
            "androidx.appcompat",
            "androidx.compose.ui",
            "com.google.android.material",
            "com.android.tools.build",
        ])
    );
}

#[test]
fn master_index_is_filtered_by_the_search_term() {
    assert_eq!(
        master_groups(MASTER, "androidx").unwrap(),
        names(&["androidx.activity", "androidx.appcompat", "androidx.compose.ui"])
    );
    assert_eq!(master_groups(MASTER, "appcompat").unwrap(), names(&["androidx.appcompat"]));
    assert_eq!(
        master_groups(MASTER, "android.").unwrap(),
        names(&["com.google.android.material", "com.android.tools.build"])
    );
    assert!(master_groups(MASTER, "qtc").unwrap().is_empty());
    assert!(master_groups(MASTER, "Androidx").unwrap().is_empty());
    assert!(master_groups(MASTER, "metadata").unwrap().is_empty());
}

#[test]
fn a_master_index_that_is_not_xml_is_malformed() {
    assert_eq!(master_groups("", "").unwrap_err(), IndexError::Malformed);
    assert_eq!(master_groups("<metadata><a></metadata>", "").unwrap_err(), IndexError::Malformed);
    assert_eq!(master_groups("plain text", "").unwrap_err(), IndexError::Malformed);
    assert!(master_groups("<metadata/>", "").unwrap().is_empty());
}

#[test]
fn groups_from_nodes() {
    let nodes = vec![
        other(None),
        element("metadata", Some(0), None),
        other(Some(1)),
        element("g.one", Some(1), None),
        other(Some(1)),
        element("g.two", Some(1), None),
        element("nested", Some(5), None),
    ];
    assert_eq!(parse_groups(&nodes), names(&["g.one", "g.two", "nested"]));
    assert!(parse_groups(&vec![other(None)]).is_empty());
    assert!(parse_groups(&Vec::new()).is_empty());
    assert!(parse_groups(&vec![other(None), element("metadata", Some(0), None)]).is_empty());
    assert_eq!(groups_from(Ok(nodes), "two").unwrap(), names(&["g.two"]));
    let failed = roxmltree::Document::parse("<a>").map(|_| Vec::new());
    assert_eq!(groups_from(failed, "").unwrap_err(), IndexError::Malformed);
}

#[test]
fn filtering_groups() {
    let groups = names(&["androidx.core", "androidx.room", "com.google.firebase"]);
    assert_eq!(filter_groups(groups.clone(), ""), groups);
    assert_eq!(filter_groups(groups.clone(), "room"), names(&["androidx.room"]));
    assert_eq!(filter_groups(groups.clone(), "o"), groups);
    assert!(filter_groups(groups.clone(), "nothing").is_empty());
    assert!(filter_groups(groups, "ROOM").is_empty());
    assert!(filter_groups(Vec::new(), "").is_empty());
}

#[test]
fn versions_of_a_list() {
    let shown: Vec<String> =
        parse_versions("1.0.0,1.1.0-alpha01,2023.04.01").iter().map(|v| v.to_string()).collect();
    assert_eq!(shown, vec!["1.0.0", "1.1.0-alpha01", "2023.04.01"]);
    assert!(parse_versions("").is_empty());
    assert!(parse_versions(",").is_empty());
    assert!(parse_versions("x,y").is_empty());
}

#[test]
fn malformed_versions_are_dropped_without_touching_the_others() {
    let with = parse_versions("1.0.0,not-a-version,1.1.0,,1.2.0-beta01, 1.3.0");
    let without = parse_versions("1.0.0,1.1.0,1.2.0-beta01");
    assert_eq!(with, without);
    assert_eq!(
        with,
        vec![
            Version::from_text("1.0.0").unwrap(),
            Version::from_text("1.1.0").unwrap(),
            Version::from_text("1.2.0-beta01").unwrap(),
        ]
    );
    assert_eq!(parse_versions("not-a-version,1.0.0"), parse_versions("1.0.0"));
    assert_eq!(parse_versions("1.0.0,not-a-version"), parse_versions("1.0.0"));
}

#[test]
fn group_index_gives_one_record_for_each_artifact_with_versions() {
    let packages = parse_group(GROUP).unwrap();
    let shown: Vec<_> = packages.iter().map(shown).collect();
    assert_eq!(
        shown,
        vec![
            (
                "androidx.appcompat".to_string(),
                "appcompat".to_string(),
                names(&["1.2.0-beta01", "1.1.0", "1.1.0-alpha01", "1.0.0"]),
            ),
            (
                "androidx.appcompat".to_string(),
                "appcompat-resources".to_string(),
                names(&["1.2.0-alpha01", "1.1.0"]),
            ),
            (
                "androidx.appcompat".to_string(),
                "legacy".to_string(),
                names(&["2023.04.01", "2022.12.31"]),
            ),
        ]
    );
}

#[test]
fn a_group_index_without_the_versions_attribute_is_malformed() {
    let index = "<g><a versions=\"1.0.0\"/><b/></g>";
    assert_eq!(parse_group(index).unwrap_err(), IndexError::Malformed);
    let other_attribute = "<g><a version=\"1.0.0\"/></g>";
    assert_eq!(parse_group(other_attribute).unwrap_err(), IndexError::Malformed);
}

#[test]
fn a_group_index_that_is_not_xml_is_malformed() {
    assert_eq!(parse_group("").unwrap_err(), IndexError::Malformed);
    assert_eq!(parse_group("<g><a versions=\"1.0.0\"></g>").unwrap_err(), IndexError::Malformed);
    assert_eq!(parse_group("<g versions=1/>").unwrap_err(), IndexError::Malformed);
}

#[test]
fn only_children_of_the_root_element_are_artifacts() {
    let index = "<!-- head --><g versions=\"9.9.9\">text<a versions=\"1.0.0\"><inner/></a><!-- c --><b versions=\"2.0.0\"/></g>";
    let packages = parse_group(index).unwrap();
    let shown: Vec<_> = packages.iter().map(shown).collect();
    assert_eq!(
        shown,
        vec![
            ("g".to_string(), "a".to_string(), names(&["1.0.0"])),
            ("g".to_string(), "b".to_string(), names(&["2.0.0"])),
        ]
    );
    assert!(parse_group("<g/>").unwrap().is_empty());
}

#[test]
fn group_records_from_nodes() {
    let nodes = vec![
        other(None),
        other(Some(0)),
        element("the.group", Some(0), None),
        element("first", Some(2), Some("1.0.0,2.0.0")),
        element("grandchild", Some(3), None),
        other(Some(2)),
        element("second", Some(2), Some("bad")),
        element("third", Some(2), Some("0.1.0-rc01")),
    ];
    let packages = group_packages(&nodes).unwrap();
    let shown: Vec<_> = packages.iter().map(shown).collect();
    assert_eq!(
        shown,
        vec![
            ("the.group".to_string(), "first".to_string(), names(&["2.0.0", "1.0.0"])),
            ("the.group".to_string(), "third".to_string(), names(&["0.1.0-rc01"])),
        ]
    );
    assert_eq!(group_packages(&Vec::new()).unwrap_err(), IndexError::Malformed);
    assert_eq!(group_packages(&vec![other(None)]).unwrap_err(), IndexError::Malformed);
    let lacking = vec![other(None), element("g", Some(0), None), element("a", Some(1), None)];
    assert_eq!(group_packages(&lacking).unwrap_err(), IndexError::Malformed);
    assert!(packages_from(Ok(vec![element("g", None, None)])).unwrap().is_empty());
    let failed = roxmltree::Document::parse("").map(|_| Vec::new());
    assert_eq!(packages_from(failed).unwrap_err(), IndexError::Malformed);
}

#[test]
fn addresses() {
    assert_eq!(master_index_url(), "https://dl.google.com/dl/android/maven2/master-index.xml");
    assert_eq!(
        group_index_url("androidx.compose.ui"),
        "https://dl.google.com/dl/android/maven2/androidx/compose/ui/group-index.xml"
    );
    assert_eq!(
        group_index_url("single"),
        "https://dl.google.com/dl/android/maven2/single/group-index.xml"
    );
}

#[test]
fn filtering_packages_by_group_or_artifact() {
    let packages = parse_group(GROUP).unwrap();
    let by_artifact: Vec<String> =
        filter_packages(&packages, "resources").iter().map(|p| p.artifact_id.clone()).collect();
    assert_eq!(by_artifact, names(&["appcompat-resources"]));
    assert_eq!(filter_packages(&packages, "androidx").len(), packages.len());
    assert_eq!(filter_packages(&packages, "").len(), packages.len());
    assert!(filter_packages(&packages, "qtc").is_empty());
    let kept = filter_packages(&packages, "legacy");
    assert_eq!(kept.len(), 1);
    assert_eq!(shown(&kept[0]), shown(&packages[2]));
}

#[test]
fn a_fetched_group_gives_records_or_the_reason_why_not() {
    let packages = fetched_group(&Ok(GROUP.to_string())).unwrap();
    assert_eq!(packages.len(), 3);
    assert_eq!(packages[0].artifact_id, "appcompat");
    let failed = fetched_group(&Err(FetchError { reason: "timed out".to_string() }));
    assert_eq!(failed.unwrap_err(), IndexError::Fetch);
    assert_eq!(fetched_group(&Ok("<g>".to_string())).unwrap_err(), IndexError::Malformed);
    assert_eq!(fetched_group(&Ok("<g><a/></g>".to_string())).unwrap_err(), IndexError::Malformed);
}

#[test]
fn names_are_local_names_and_the_attribute_has_no_namespace() {
    let index = "<p:g xmlns:p=\"urn:p\"><p:a versions=\"1.0.0\"/></p:g>";
    let packages = parse_group(index).unwrap();
    assert_eq!(packages.len(), 1);
    assert_eq!(packages[0].group_id, "g");
    assert_eq!(packages[0].artifact_id, "a");
    let namespaced = "<g xmlns:x=\"urn:x\"><a x:versions=\"1.0.0\"/></g>";
    assert_eq!(parse_group(namespaced).unwrap_err(), IndexError::Malformed);
    let escaped = "<g><a versions=\"1.0.0&#44;2.0.0\"/></g>";
    let versions: Vec<String> =
        parse_group(escaped).unwrap()[0].versions.iter().map(|v| v.to_string()).collect();
    assert_eq!(versions, names(&["2.0.0", "1.0.0"]));
}
