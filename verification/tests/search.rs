use adx::channel::Channel;
use adx::parse::{FetchError, IndexError};
use adx::report::search_results;
use adx::search::{parse, parse_from};

const MASTER: &str = "<?xml version='1.0' encoding='UTF-8'?>
<metadata>
  <androidx.activity/>
  <androidx.appcompat/>
  <com.google.firebase/>
</metadata>
";

fn fetched(text: &str) -> Result<String, FetchError> {
    Ok(text.to_string())
}

fn failure() -> Result<String, FetchError> {
    Err(FetchError { reason: "unreachable".to_string() })
}

fn indexes() -> Vec<Result<String, FetchError>> {
    vec![
        fetched("<androidx.activity><activity versions=\"1.0.0,1.1.0-rc01\"/></androidx.activity>"),
        fetched(
            "<androidx.appcompat><appcompat versions=\"1.6.1,1.7.0-alpha03\"/>\
             <appcompat-resources versions=\"1.6.1\"/></androidx.appcompat>",
        ),
        fetched("<com.google.firebase><firebase-core versions=\"21.1.1\"/></com.google.firebase>"),
    ]
}

fn names(found: Result<Vec<adx::package::MavenPackage>, IndexError>) -> Vec<String> {
    found.unwrap().iter().map(|p| format!("{}:{}", p.group_id, p.artifact_id)).collect()
}

#[test]
fn the_empty_term_gives_the_records_of_every_group() {
    let all = names(parse("", &fetched(MASTER), &indexes()));
    assert_eq!(
        all,
        vec![
            "androidx.activity:activity",
            "androidx.appcompat:appcompat",
            "androidx.appcompat:appcompat-resources",
            "com.google.firebase:firebase-core",
        ]
    );
}

#[test]
fn a_term_selects_the_groups_that_hold_it() {
    assert_eq!(
        names(parse("appcompat", &fetched(MASTER), &indexes())),
        vec!["androidx.appcompat:appcompat", "androidx.appcompat:appcompat-resources"]
    );
    assert_eq!(
        names(parse("androidx", &fetched(MASTER), &indexes())),
        vec![
            "androidx.activity:activity",
            "androidx.appcompat:appcompat",
            "androidx.appcompat:appcompat-resources",
        ]
    );
    assert_eq!(
        names(parse("firebase-core", &fetched(MASTER), &indexes())),
        Vec::<String>::new()
    );
}

#[test]
fn a_term_that_no_group_holds_gives_an_empty_result_and_no_failure() {
    let found = parse("qtc", &fetched(MASTER), &indexes());
    let packages = found.unwrap();
    assert!(packages.is_empty());
    assert_eq!(search_results(&packages, Channel::Alpha), vec!["No results found!"]);
}

#[test]
fn without_the_master_index_the_query_fails() {
    assert_eq!(parse("", &failure(), &indexes()).unwrap_err(), IndexError::Fetch);
    assert_eq!(parse("", &fetched("<metadata>"), &indexes()).unwrap_err(), IndexError::Malformed);
    assert_eq!(parse("", &fetched(""), &indexes()).unwrap_err(), IndexError::Malformed);
    let failed = roxmltree::Document::parse("").map(|_| Vec::new());
    assert_eq!(parse_from("", failed, &indexes()).unwrap_err(), IndexError::Malformed);
}

#[test]
fn a_group_that_fails_adds_nothing_and_takes_nothing_away() {
    let mut some = indexes();
    some[1] = failure();
    assert_eq!(
        names(parse("", &fetched(MASTER), &some)),
        vec!["androidx.activity:activity", "com.google.firebase:firebase-core"]
    );
    some[1] = fetched("<androidx.appcompat><appcompat/></androidx.appcompat>");
    assert_eq!(
        names(parse("", &fetched(MASTER), &some)),
        vec!["androidx.activity:activity", "com.google.firebase:firebase-core"]
    );
    let short = vec![indexes().remove(0)];
    assert_eq!(names(parse("", &fetched(MASTER), &short)), vec!["androidx.activity:activity"]);
    assert!(parse("", &fetched(MASTER), &Vec::new()).unwrap().is_empty());
}

#[test]
fn the_query_feeds_the_selection() {
    let packages = parse("androidx", &fetched(MASTER), &indexes()).unwrap();
    assert_eq!(
        search_results(&packages, Channel::Stable),
        vec![
            "androidx.activity:activity:1.0.0",
            "androidx.appcompat:appcompat:1.6.1",
            "androidx.appcompat:appcompat-resources:1.6.1",
        ]
    );
    assert_eq!(
        search_results(&packages, Channel::Alpha),
        vec![
            "androidx.activity:activity:1.1.0-rc01",
            "androidx.appcompat:appcompat:1.7.0-alpha03",
            "androidx.appcompat:appcompat-resources:1.6.1",
        ]
    );
}
