use new_cli::replacer::Replacer;
use new_cli::resolver::{find_missing_placeholders, record_answer, with_project_name, ReplacementMap};
use new_cli::scanner::extract_placeholders;

fn value_of(map: &ReplacementMap, key: &str) -> Option<String> {
    map.keys().iter().position(|k| k == key).map(|i| map.values()[i].clone())
}

#[test]
fn missing_placeholders_of_an_empty_map() {
    let mut found: Vec<String> = Vec::new();
    extract_placeholders("{{UNSET}}", &mut found);
    let map = ReplacementMap::new();
    assert_eq!(find_missing_placeholders(&found, &map), vec!["UNSET".to_string()]);
}

#[test]
fn missing_placeholders_are_sorted_and_exclude_known_keys() {
    let found: Vec<String> = ["b", "NAME", "a", "B", "é", "ab"].iter().map(|s| s.to_string()).collect();
    let mut map = ReplacementMap::new();
    map.insert("NAME".to_string(), "x".to_string());
    assert_eq!(
        find_missing_placeholders(&found, &map),
        vec!["B", "a", "ab", "b", "é"].into_iter().map(String::from).collect::<Vec<_>>()
    );
}

#[test]
fn ascii_answer_is_dropped_and_placeholder_stays() {
    let mut map = ReplacementMap::new();
    record_answer(&mut map, "UNSET".to_string(), "  plain ascii ".to_string());
    assert_eq!(value_of(&map, "UNSET"), None);
    let r = Replacer::new(map.keys(), map.values()).unwrap();
    assert_eq!(r.replace_bytes(b"v={{UNSET}}"), None);
}

#[test]
fn non_ascii_answer_is_recorded_and_substituted() {
    let mut map = ReplacementMap::new();
    record_answer(&mut map, "UNSET".to_string(), "Zoë".to_string());
    assert_eq!(value_of(&map, "UNSET"), Some("Zoë".to_string()));
    let r = Replacer::new(map.keys(), map.values()).unwrap();
    assert_eq!(r.replace_bytes("v={{UNSET}}".as_bytes()).unwrap(), "v=Zoë".as_bytes().to_vec());
}

#[test]
fn answer_with_non_ascii_white_space_is_kept_untrimmed() {
    let mut map = ReplacementMap::new();
    record_answer(&mut map, "K".to_string(), "abc\u{3000}".to_string());
    assert_eq!(value_of(&map, "K"), Some("abc\u{3000}".to_string()));
}

#[test]
fn project_name_fills_name_unless_set() {
    let mut map = ReplacementMap::new();
    with_project_name(&mut map, "MyProject");
    assert_eq!(value_of(&map, "NAME"), Some("MyProject".to_string()));
    let mut set = ReplacementMap::new();
    set.insert("NAME".to_string(), "Given".to_string());
    with_project_name(&mut set, "MyProject");
    assert_eq!(value_of(&set, "NAME"), Some("Given".to_string()));
}

#[test]
fn insert_replaces_an_existing_value() {
    let mut map = ReplacementMap::new();
    map.insert("K".to_string(), "1".to_string());
    map.insert("K".to_string(), "2".to_string());
    assert_eq!(map.keys().len(), 1);
    assert_eq!(value_of(&map, "K"), Some("2".to_string()));
}
