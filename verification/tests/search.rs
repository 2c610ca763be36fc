use rua::search::contains_keyword;
use rua::search::search_filter;
use rua::search::search_plan;
use rua::search::sort_keywords;
use rua::search::AurPackage;
use rua::search::SearchError;
use rua::search::SearchOutcome;
use rua::text::text_contains;

fn strings(v: &[&str]) -> Vec<String> {
    v.iter().map(|s| s.to_string()).collect()
}

fn package(name: &str, description: Option<&str>) -> AurPackage {
    AurPackage { name: name.to_string(), description: description.map(|d| d.to_string()) }
}

#[test]
fn keywords_longest_first_stable() {
    assert_eq!(sort_keywords(&strings(&["ab", "abcd", "x", "cd", "efgh"])), strings(&["abcd", "efgh", "ab", "cd", "x"]));
    assert_eq!(sort_keywords(&strings(&[])), strings(&[]));
}

#[test]
fn keywords_sorted_by_bytes() {
    // "éé" is four bytes, "abc" three
    assert_eq!(sort_keywords(&strings(&["abc", "éé"])), strings(&["éé", "abc"]));
}

#[test]
fn keywords_length_wraps_as_i16() {
    let long = "a".repeat(40000);
    // 40000 as i16 is -25536, negated 25536: sorts after short keywords
    assert_eq!(sort_keywords(&[long.clone(), "b".to_string()]), vec!["b".to_string(), long]);
}

#[test]
fn plan_query_is_longest() {
    match search_plan(&strings(&["git", "rust-nightly", "bin"])) {
        Ok(plan) => {
            assert_eq!(plan.query, "rust-nightly");
            assert_eq!(plan.refinements, strings(&["git", "bin"]));
        }
        Err(_) => panic!("expected a plan"),
    }
}

#[test]
fn plan_without_keywords() {
    assert!(matches!(search_plan(&[]), Err(SearchError::NoKeywords)));
}

#[test]
fn keyword_matches_ignoring_case() {
    let pkg = package("Pinta", Some("Drawing/editing PROGRAM"));
    assert!(contains_keyword(&pkg, "pin"));
    assert!(contains_keyword(&pkg, "PINTA"));
    assert!(contains_keyword(&pkg, "program"));
    assert!(contains_keyword(&pkg, "editing"));
    assert!(!contains_keyword(&pkg, "paint"));
    assert!(contains_keyword(&pkg, ""));
}

#[test]
fn keyword_without_description() {
    let pkg = package("wesnoth", None);
    assert!(contains_keyword(&pkg, "NOTH"));
    assert!(!contains_keyword(&pkg, "game"));
}

#[test]
fn filter_nothing_found() {
    assert!(matches!(search_filter(&[], &strings(&["x"])), SearchOutcome::NothingFound));
}

#[test]
fn filter_by_refinements() {
    let results = vec![
        package("rust-nightly-bin", Some("Rust toolchain")),
        package("rust-git", Some("Rust from git")),
        package("rusty", None),
    ];
    match search_filter(&results, &strings(&["GIT"])) {
        SearchOutcome::Found(keep) => assert_eq!(keep, vec![false, true, false]),
        SearchOutcome::NothingFound => panic!("results were given"),
    }
    match search_filter(&results, &strings(&[])) {
        SearchOutcome::Found(keep) => assert_eq!(keep, vec![true, true, true]),
        SearchOutcome::NothingFound => panic!("results were given"),
    }
    match search_filter(&results, &strings(&["toolchain", "bin"])) {
        SearchOutcome::Found(keep) => assert_eq!(keep, vec![true, false, false]),
        SearchOutcome::NothingFound => panic!("results were given"),
    }
}

#[test]
fn text_contains_pieces() {
    assert!(text_contains("hello world", "o w"));
    assert!(text_contains("abc", ""));
    assert!(text_contains("abc", "abc"));
    assert!(!text_contains("abc", "abcd"));
    assert!(!text_contains("", "a"));
}
