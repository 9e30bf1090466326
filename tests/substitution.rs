use new_cli::replacer::{NamedEntry, Replacer};
use new_cli::resolver::ReplacementMap;

fn replacer(pairs: &[(&str, &str)]) -> Replacer {
    let mut map = ReplacementMap::new();
    for (k, v) in pairs {
        map.insert(k.to_string(), v.to_string());
    }
    Replacer::new(map.keys(), map.values()).expect("matcher builds")
}

fn entry(depth: usize, name: &str) -> NamedEntry {
    NamedEntry { depth, name: name.to_string() }
}

#[test]
fn substitution_replaces_every_placeholder_once() {
    let r = replacer(&[("NAME", "MyProject"), ("APP_ID", "com.example.app")]);
    let out = r.replace_bytes(b"Hello {{NAME}} ({{APP_ID}})").unwrap();
    assert_eq!(out, b"Hello MyProject (com.example.app)".to_vec());
}

#[test]
fn substitution_leaves_text_without_placeholders() {
    let r = replacer(&[("NAME", "MyProject")]);
    assert_eq!(r.replace_bytes(b"no tokens {{ NAME }} here"), None);
    assert_eq!(r.replace_text("plain").unwrap(), "plain");
}

#[test]
fn substitution_does_not_substitute_its_own_output() {
    let r = replacer(&[("A", "{{B}}"), ("B", "b")]);
    let out = r.replace_bytes(b"{{A}}-{{B}}").unwrap();
    assert_eq!(out, b"{{B}}-b".to_vec());
}

#[test]
fn second_pass_is_a_no_op() {
    let r = replacer(&[("NAME", "MyProject"), ("APP_ID", "com.example.app")]);
    let once = r.replace_bytes(b"id={{APP_ID}} {{NAME}}").unwrap();
    assert_eq!(r.replace_bytes(&once), None);
    assert_eq!(r.rewrite_contents(&once), None);
}

#[test]
fn content_pass_skips_binary_files() {
    let r = replacer(&[("NAME", "MyProject")]);
    assert_eq!(r.rewrite_contents(b"{{NAME}}\0"), None);
    assert_eq!(r.rewrite_contents(&[b'{', b'{', b'N', b'A', b'M', b'E', b'}', b'}', 0xc3]), None);
    assert_eq!(r.rewrite_contents(b"x {{NAME}}"), Some(b"x MyProject".to_vec()));
}

#[test]
fn content_pass_leaves_text_without_placeholders() {
    let r = replacer(&[("NAME", "MyProject")]);
    assert_eq!(r.rewrite_contents(b"nothing to do"), None);
}

#[test]
fn directory_renames_go_deepest_first_and_skip_the_root() {
    let r = replacer(&[("A", "x"), ("B", "y")]);
    let dirs = vec![
        entry(0, "{{A}}"),
        entry(1, "{{A}}"),
        entry(3, "c-{{B}}"),
        entry(2, "plain"),
        entry(2, "{{B}}"),
    ];
    let plan = r.plan_directory_renames(&dirs).unwrap();
    let got: Vec<(usize, String)> = plan.into_iter().map(|p| (p.index, p.name)).collect();
    assert_eq!(got, vec![(2, "c-y".to_string()), (4, "y".to_string()), (1, "x".to_string())]);
}

#[test]
fn file_renames_follow_the_list() {
    let r = replacer(&[("APP_ID", "com.example.app")]);
    let files = vec![entry(1, "README.md"), entry(2, "config-{{APP_ID}}.txt")];
    let plan = r.plan_file_renames(&files).unwrap();
    assert_eq!(plan.len(), 1);
    assert_eq!(plan[0].index, 1);
    assert_eq!(plan[0].name, "config-com.example.app.txt");
}

#[test]
fn rename_to_the_same_name_is_skipped() {
    let r = replacer(&[("A", "{{A}}")]);
    let plan = r.plan_file_renames(&vec![entry(1, "{{A}}")]).unwrap();
    assert!(plan.is_empty());
}

#[test]
fn first_listed_literal_wins_at_one_position() {
    let r = replacer(&[("A", "1"), ("A}}{{B", "2")]);
    assert_eq!(r.replace_bytes(b"{{A}}{{B}}").unwrap(), b"1{{B}}".to_vec());
}

#[test]
fn end_to_end_scenario_rewrites_names_and_contents() {
    let r = replacer(&[("APP_ID", "com.example.app"), ("NAME", "MyProject")]);
    let dirs = vec![entry(0, "MyProject"), entry(1, "{{NAME}}")];
    let dplan = r.plan_directory_renames(&dirs).unwrap();
    assert_eq!(dplan.len(), 1);
    assert_eq!(dplan[0].name, "MyProject");
    let files = vec![entry(1, "README.md"), entry(2, "config-{{APP_ID}}.txt")];
    let fplan = r.plan_file_renames(&files).unwrap();
    assert_eq!(fplan[0].name, "config-com.example.app.txt");
    assert_eq!(r.rewrite_contents(b"id={{APP_ID}}").unwrap(), b"id=com.example.app".to_vec());
    assert_eq!(
        r.rewrite_contents(b"Hello {{NAME}} ({{APP_ID}})").unwrap(),
        b"Hello MyProject (com.example.app)".to_vec()
    );
}

#[test]
fn second_pass_is_a_no_op_with_stray_closing_braces() {
    let r = replacer(&[("NAME", "MyProject")]);
    let once = r.replace_bytes(b"}} {{NAME}} }").unwrap();
    assert_eq!(once, b"}} MyProject }".to_vec());
    assert_eq!(r.replace_bytes(&once), None);
}
