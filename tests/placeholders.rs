use new_cli::scanner::{extract_from_contents, extract_placeholders};

fn has(keys: &[String], k: &str) -> bool {
    keys.iter().any(|x| x == k)
}

#[test]
fn extract_placeholders_trims_and_collects() {
    let mut keys: Vec<String> = Vec::new();
    extract_placeholders("Hello {{NAME}} and {{ APP_ID }}!", &mut keys);

    assert!(has(&keys, "NAME"));
    assert!(has(&keys, "APP_ID"));
    assert_eq!(keys.len(), 2);
}

#[test]
fn extract_placeholders_ignores_empty() {
    let mut keys: Vec<String> = Vec::new();
    extract_placeholders("{{}} {{   }}", &mut keys);
    assert!(keys.is_empty());
}

#[test]
fn extract_placeholders_ignores_nested_braces() {
    let mut keys: Vec<String> = Vec::new();
    extract_placeholders("{{OUTER {{INNER}} OUTER}}", &mut keys);

    assert!(has(&keys, "INNER"));
    assert_eq!(keys.len(), 1);
}

#[test]
fn scanner_collects_distinct_keys_from_names_and_contents() {
    let mut keys: Vec<String> = Vec::new();
    extract_placeholders("{{NAME}}", &mut keys);
    extract_placeholders("config-{{APP_ID}}.txt", &mut keys);
    extract_from_contents(b"id={{APP_ID}} by {{\tNAME\t}} {{ AUTHOR }}", &mut keys);
    assert_eq!(keys, vec!["NAME".to_string(), "APP_ID".to_string(), "AUTHOR".to_string()]);
}

#[test]
fn scanner_skips_binary_contents() {
    let mut keys: Vec<String> = Vec::new();
    extract_from_contents(b"{{NUL}}\0", &mut keys);
    extract_from_contents(&[b'{', b'{', b'X', b'}', b'}', 0xff], &mut keys);
    assert!(keys.is_empty());
}

#[test]
fn scanner_takes_innermost_token_after_extra_brace() {
    let mut keys: Vec<String> = Vec::new();
    extract_placeholders("{{{A}} {{B}", &mut keys);
    assert_eq!(keys, vec!["A".to_string()]);
}

#[test]
fn scanner_trims_unicode_white_space() {
    let mut keys: Vec<String> = Vec::new();
    extract_placeholders("{{\u{3000}Ключ\u{a0}}}", &mut keys);
    assert_eq!(keys, vec!["Ключ".to_string()]);
}

#[test]
fn scanner_skips_the_root_name() {
    let mut keys: Vec<String> = Vec::new();
    new_cli::scanner::extract_from_name(0, "{{ROOT}}", &mut keys);
    assert!(keys.is_empty());
    new_cli::scanner::extract_from_name(1, "{{CHILD}}", &mut keys);
    assert_eq!(keys, vec!["CHILD".to_string()]);
}

#[test]
fn tree_scan_collects_names_below_root_and_text_contents() {
    let entries = vec![
        new_cli::scanner::ScannedEntry { depth: 0, name: Some("{{ROOT}}".to_string()), contents: None },
        new_cli::scanner::ScannedEntry {
            depth: 1,
            name: Some("README.md".to_string()),
            contents: Some(b"Hello {{NAME}} ({{APP_ID}})".to_vec()),
        },
        new_cli::scanner::ScannedEntry { depth: 1, name: Some("{{NAME}}".to_string()), contents: None },
        new_cli::scanner::ScannedEntry {
            depth: 2,
            name: Some("bin-{{BIN}}".to_string()),
            contents: Some(b"{{SKIPPED}}\0".to_vec()),
        },
        new_cli::scanner::ScannedEntry { depth: 2, name: None, contents: Some(b"{{ OTHER }}".to_vec()) },
    ];
    let keys = new_cli::scanner::collect_placeholders(&entries);
    assert_eq!(
        keys,
        vec!["NAME", "APP_ID", "BIN", "OTHER"].into_iter().map(String::from).collect::<Vec<_>>()
    );
}
