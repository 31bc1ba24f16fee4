use std::collections::HashMap;

use projector::config::{Config, Operation};
use projector::projector::Projector;
use projector::scope::{Scope, ScopeMap};

fn get_data() -> ScopeMap {
    let mut data = ScopeMap::new();
    data.set("/".into(), "foo".into(), "bar".into());
    data.set("/".into(), "fem".into(), "is_great".into());
    data.set("/foo".into(), "foo".into(), "bar2".into());
    data.set("/foo/bar".into(), "foo".into(), "bar3".into());
    data
}

fn config_at(pwd: &str) -> Config {
    Config {
        pwd: String::from(pwd),
        config: String::from(""),
        operation: Operation::Print(None),
    }
}

fn get_projector(pwd: &str) -> Projector {
    Projector::new(config_at(pwd), get_data())
}

fn projector_over(pwd: &str, data: ScopeMap) -> Projector {
    Projector::new(config_at(pwd), data)
}

fn all_at(proj: &Projector) -> HashMap<String, String> {
    proj.get_value_all()
        .entries()
        .iter()
        .map(|(k, v)| (k.clone(), v.clone()))
        .collect()
}

fn to_json(data: &ScopeMap) -> String {
    let scopes: HashMap<String, HashMap<String, String>> = data
        .to_pairs()
        .into_iter()
        .map(|(dir, entries)| (dir, entries.into_iter().collect()))
        .collect();
    let mut file = HashMap::new();
    file.insert(String::from("projector"), scopes);
    serde_json::to_string(&file).unwrap()
}

fn from_json(text: &str) -> ScopeMap {
    let mut file: HashMap<String, HashMap<String, HashMap<String, String>>> =
        serde_json::from_str(text).unwrap();
    let pairs: Vec<(String, Vec<(String, String)>)> = file
        .remove("projector")
        .unwrap()
        .into_iter()
        .map(|(dir, entries)| (dir, entries.into_iter().collect()))
        .collect();
    ScopeMap::from_pairs(&pairs)
}

fn model(data: &ScopeMap) -> HashMap<String, HashMap<String, String>> {
    data.scopes()
        .iter()
        .map(|(dir, scope)| (dir.clone(), scope.entries().iter().cloned().collect()))
        .collect()
}

#[test]
fn get_value() {
    let proj = get_projector("/foo/bar");
    assert_eq!(proj.get_value("foo"), Some(String::from("bar3")).as_ref());
    assert_eq!(proj.get_value("fem"), Some(String::from("is_great")).as_ref());
}

#[test]
fn set_value() {
    let mut proj = get_projector("/foo/bar");
    proj.set_value(String::from("foo"), String::from("bar4"));
    proj.set_value(String::from("fem"), String::from("is_better_than_great"));

    assert_eq!(proj.get_value("foo"), Some(String::from("bar4")).as_ref());
    assert_eq!(
        proj.get_value("fem"),
        Some(String::from("is_better_than_great")).as_ref()
    );
}

#[test]
fn remove_value() {
    let mut proj = get_projector("/foo/bar");
    proj.remove_value(String::from("foo"));
    proj.remove_value(String::from("fem"));

    assert_eq!(proj.get_value("foo"), Some(String::from("bar2")).as_ref());
    assert_eq!(proj.get_value("fem"), Some(String::from("is_great")).as_ref());
}

#[test]
fn each_level_sees_its_own_value() {
    assert_eq!(get_projector("/foo/bar").get_value("foo").unwrap(), "bar3");
    assert_eq!(get_projector("/foo").get_value("foo").unwrap(), "bar2");
    assert_eq!(get_projector("/").get_value("foo").unwrap(), "bar");
}

#[test]
fn root_value_reaches_deep_directories() {
    let proj = get_projector("/foo/bar/baz/qux/deep");
    assert_eq!(proj.get_value("fem").unwrap(), "is_great");
    assert_eq!(proj.get_value("foo").unwrap(), "bar3");
    let other = get_projector("/elsewhere/x/y");
    assert_eq!(other.get_value("foo").unwrap(), "bar");
}

#[test]
fn missing_key_is_not_found() {
    let proj = get_projector("/foo/bar");
    assert_eq!(proj.get_value("nothing"), None);
    let empty = projector_over("/a/b", ScopeMap::new());
    assert_eq!(empty.get_value("foo"), None);
}

#[test]
fn removal_uncovers_the_root_value() {
    let mut data = ScopeMap::new();
    data.set("/".into(), "k".into(), "v1".into());
    data.set("/a/b".into(), "k".into(), "v2".into());
    let mut proj = projector_over("/a/b", data);
    assert_eq!(proj.get_value("k").unwrap(), "v2");
    proj.remove_value(String::from("k"));
    assert_eq!(proj.get_value("k").unwrap(), "v1");
}

#[test]
fn removal_of_an_absent_key_changes_nothing() {
    let mut proj = get_projector("/foo/bar");
    proj.remove_value(String::from("foo"));
    assert_eq!(proj.get_value("foo").unwrap(), "bar2");
    proj.remove_value(String::from("fem"));
    assert_eq!(proj.get_value("fem").unwrap(), "is_great");
    let mut fresh = projector_over("/no/scope", get_data());
    fresh.remove_value(String::from("foo"));
    assert_eq!(model(fresh.scope_map()), model(&get_data()));
}

#[test]
fn set_does_not_reach_siblings_or_ancestors() {
    let mut proj = get_projector("/foo/bar");
    proj.set_value(String::from("fem"), String::from("changed"));
    let data = model(proj.scope_map());
    assert_eq!(data.get("/foo/bar").unwrap().get("fem").unwrap(), "changed");

    let mut rebuilt = ScopeMap::new();
    for (dir, entries) in &data {
        for (k, v) in entries {
            rebuilt.set(dir.clone(), k.clone(), v.clone());
        }
    }
    let sibling = projector_over("/foo/baz", rebuilt);
    assert_eq!(sibling.get_value("fem").unwrap(), "is_great");
    assert_eq!(sibling.get_value("foo").unwrap(), "bar2");
}

#[test]
fn set_creates_the_scope() {
    let mut proj = projector_over("/new/dir", ScopeMap::new());
    proj.set_value(String::from("a"), String::from("1"));
    let data = model(proj.scope_map());
    assert_eq!(data.len(), 1);
    assert_eq!(data.get("/new/dir").unwrap().get("a").unwrap(), "1");
    assert_eq!(proj.get_value("a").unwrap(), "1");
}

#[test]
fn merged_view_matches_lookups() {
    let proj = get_projector("/foo/bar");
    let all = all_at(&proj);
    let mut expected = HashMap::new();
    expected.insert(String::from("foo"), String::from("bar3"));
    expected.insert(String::from("fem"), String::from("is_great"));
    assert_eq!(all, expected);
    for (k, v) in &all {
        assert_eq!(proj.get_value(k), Some(v));
    }

    let root = get_projector("/");
    let mut expected_root = HashMap::new();
    expected_root.insert(String::from("foo"), String::from("bar"));
    expected_root.insert(String::from("fem"), String::from("is_great"));
    assert_eq!(all_at(&root), expected_root);
}

#[test]
fn merged_view_of_an_empty_store_is_empty() {
    let proj = projector_over("/a", ScopeMap::new());
    assert!(all_at(&proj).is_empty());
}

#[test]
fn failed_load_starts_empty() {
    let proj = Projector::from_loaded(config_at("/foo/bar"), None);
    assert!(proj.scope_map().scopes().is_empty());
    assert_eq!(proj.get_value("foo"), None);

    let loaded = Projector::from_loaded(config_at("/foo/bar"), Some(get_data()));
    assert_eq!(loaded.get_value("foo").unwrap(), "bar3");
}

#[test]
fn store_survives_a_json_round_trip() {
    let mut data = get_data();
    data.insert_scope(String::from("/empty"), Scope::new());
    let text = to_json(&data);
    let back = from_json(&text);
    assert_eq!(model(&back), model(&data));
}

#[test]
fn example_store_file_is_read() {
    let data = from_json(r#"{"projector": {"/": {"foo":"bar"}, "/foo/bar": {"foo":"bar3"}}}"#);
    let proj = projector_over("/foo/bar/x", data);
    assert_eq!(proj.get_value("foo").unwrap(), "bar3");
    let up = projector_over("/foo", from_json(r#"{"projector": {"/": {"foo":"bar"}}}"#));
    assert_eq!(up.get_value("foo").unwrap(), "bar");
}

#[test]
fn scope_insert_overwrites_and_remove_deletes() {
    let mut s = Scope::new();
    s.insert(String::from("a"), String::from("1"));
    s.insert(String::from("b"), String::from("2"));
    s.insert(String::from("a"), String::from("3"));
    assert_eq!(s.entries().len(), 2);
    assert_eq!(s.get(&String::from("a")).unwrap(), "3");
    s.remove(&String::from("a"));
    assert_eq!(s.get(&String::from("a")), None);
    assert_eq!(s.get(&String::from("b")).unwrap(), "2");
    s.remove(&String::from("zzz"));
    assert_eq!(s.entries().len(), 1);
}

#[test]
fn config_is_kept() {
    let proj = get_projector("/foo/bar");
    assert_eq!(proj.config().pwd, "/foo/bar");
    assert_eq!(proj.config().operation, Operation::Print(None));
}

#[test]
fn trailing_slash_names_the_same_directory() {
    let proj = get_projector("/foo/bar/");
    assert_eq!(proj.get_value("foo").unwrap(), "bar3");
    let doubled = get_projector("/foo//bar");
    assert_eq!(doubled.get_value("foo").unwrap(), "bar3");
}

#[test]
fn set_through_another_spelling_keeps_one_scope() {
    let mut proj = get_projector("/foo/bar/");
    proj.set_value(String::from("foo"), String::from("bar5"));
    let data = model(proj.scope_map());
    assert_eq!(data.len(), 3);
    assert_eq!(data.get("/foo/bar").unwrap().get("foo").unwrap(), "bar5");
    proj.remove_value(String::from("foo"));
    assert_eq!(proj.get_value("foo").unwrap(), "bar2");
}

#[test]
fn scope_copy_is_equal() {
    let mut s = Scope::new();
    s.insert(String::from("a"), String::from("1"));
    let c = s.copy();
    assert_eq!(c.get(&String::from("a")).unwrap(), "1");
    assert_eq!(c.entries().len(), 1);
}

#[test]
fn listing_builds_the_same_store() {
    let mut data = get_data();
    data.insert_scope(String::from("/empty"), Scope::new());
    let back = ScopeMap::from_pairs(&data.to_pairs());
    assert_eq!(model(&back), model(&data));
    assert_eq!(data.to_pairs().len(), 4);
}

#[test]
fn later_pairs_replace_earlier_ones() {
    let pairs = vec![
        (
            String::from("/a"),
            vec![
                (String::from("k"), String::from("1")),
                (String::from("k"), String::from("2")),
            ],
        ),
        (String::from("/b"), vec![(String::from("x"), String::from("y"))]),
        (String::from("/b/"), vec![(String::from("z"), String::from("w"))]),
    ];
    let data = model(&ScopeMap::from_pairs(&pairs));
    assert_eq!(data.len(), 2);
    assert_eq!(data.get("/a").unwrap().get("k").unwrap(), "2");
    let b = data.get("/b").unwrap();
    assert_eq!(b.len(), 1);
    assert_eq!(b.get("z").unwrap(), "w");
}
