use theseus::hmcl_libraries::{hmcl_library_is_native, hmcl_unique_libraries, HmclLibraryKey};

fn key(name: &str, rules: Option<&str>, declaration: &str, is_native: bool) -> HmclLibraryKey {
    HmclLibraryKey {
        name: name.to_string(),
        rules: Some(rules.unwrap_or("null").as_bytes().to_vec()),
        declaration: Some(declaration.as_bytes().to_vec()),
        is_native,
    }
}

fn names(libs: &[HmclLibraryKey], kept: &[usize]) -> Vec<String> {
    kept.iter().map(|&i| libs[i].name.clone()).collect()
}

#[test]
fn hmcl_library_dedup_keeps_rule_distinct_entries() {
    let libs = vec![
        key("x:library:1", Some(r#"[{"action":"allow","os":{"name":"linux"}}]"#), r#"{"name":"x:library:1"}"#, false),
        key("x:library:2", Some(r#"[{"action":"allow","os":{"name":"windows"}}]"#), r#"{"name":"x:library:2"}"#, false),
        key("x:plain:1", None, r#"{"name":"x:plain:1"}"#, false),
        key("x:plain:2", None, r#"{"name":"x:plain:2"}"#, false),
    ];
    assert_eq!(names(&libs, &hmcl_unique_libraries(&libs)), vec!["x:library:1", "x:library:2", "x:plain:2"]);
}

#[test]
fn older_versions_and_exact_duplicates_are_dropped() {
    let libs = vec![
        key("g:a:2.0", None, r#"{"name":"g:a:2.0"}"#, false),
        key("g:a:1.9", None, r#"{"name":"g:a:1.9"}"#, false),
        key("g:a:2.0", None, r#"{"name":"g:a:2.0"}"#, false),
        key("plain-name", None, r#"{"name":"plain-name"}"#, false),
        key("plain-name", None, r#"{"name":"plain-name"}"#, false),
    ];
    assert_eq!(hmcl_unique_libraries(&libs), vec![0, 3, 4]);
}

#[test]
fn same_version_natives_stay_apart_and_richer_declarations_win() {
    let libs = vec![
        key("org.lwjgl:lwjgl:3.3.1", None, r#"{"name":"org.lwjgl:lwjgl:3.3.1"}"#, false),
        key("org.lwjgl:lwjgl:3.3.1:natives-linux", None, r#"{"name":"org.lwjgl:lwjgl:3.3.1:natives-linux"}"#, true),
        key("org.lwjgl:lwjgl:3.3.1", None, r#"{"name":"org.lwjgl:lwjgl:3.3.1","url":"https://libraries.example"}"#, false),
        key("org.lwjgl:lwjgl:3.3.1", None, r#"{"name":"org.lwjgl:lwjgl:3.3.1","x":1}"#, false),
    ];
    assert_eq!(hmcl_unique_libraries(&libs), vec![2, 1]);
}

#[test]
fn native_payloads_are_detected_from_classifiers() {
    assert!(hmcl_library_is_native(true, &vec![]));
    assert!(hmcl_library_is_native(false, &vec!["javadoc".to_string(), "natives-linux".to_string()]));
    assert!(!hmcl_library_is_native(false, &vec!["sources".to_string()]));
}
