use theseus::error::ErrorKind;
use theseus::json_tree::{parse_json_text, pcl_merge, JsonTree};
use theseus::launcher::LinkedLauncherDialect;
use theseus::version_documents::{is_known_version_type, sorted_by_priority, VersionChain, VersionStep};

/// Runs the chain of `version_id` over in-memory documents (`docs` maps a version id to
/// the text of its version JSON); `explicit` is the requested document's text, if given.
fn load(
    dialect: LinkedLauncherDialect,
    version_id: &str,
    explicit: Option<&str>,
    docs: &[(&str, &str)],
) -> Result<JsonTree, ErrorKind> {
    let mut chain = VersionChain::new(dialect, version_id);
    let mut explicit = explicit;
    loop {
        chain.check_before_read()?;
        let text = match explicit.take() {
            Some(text) => text,
            None => docs
                .iter()
                .find(|(id, _)| *id == chain.pending)
                .map(|(_, text)| *text)
                .expect("test document"),
        };
        match chain.next_version_step(text)? {
            VersionStep::ReadParent(_) => continue,
            VersionStep::Merged(merged) => return Ok(merged),
        }
    }
}

fn member<'a>(tree: &'a JsonTree, key: &str) -> Option<&'a JsonTree> {
    match tree {
        JsonTree::Object(members) => members.iter().find(|(k, _)| k == key).map(|(_, v)| v),
        _ => None,
    }
}

fn text(tree: &JsonTree, key: &str) -> Option<String> {
    match member(tree, key) {
        Some(JsonTree::Str(s)) => Some(s.clone()),
        _ => None,
    }
}

fn library_names(tree: &JsonTree) -> Vec<String> {
    match member(tree, "libraries") {
        Some(JsonTree::Array(items)) => items.iter().filter_map(|item| text(item, "name")).collect(),
        _ => Vec::new(),
    }
}

fn array_texts(tree: &JsonTree) -> Vec<String> {
    match tree {
        JsonTree::Array(items) => items
            .iter()
            .filter_map(|item| match item {
                JsonTree::Str(s) => Some(s.clone()),
                _ => None,
            })
            .collect(),
        _ => Vec::new(),
    }
}

#[test]
fn generic_inherits_but_does_not_apply_hmcl_patches() {
    let docs = [
        ("base", r#"{"id":"base", "mainClass":"base.Main"}"#),
        (
            "generic",
            r#"{"id":"generic", "inheritsFrom":"base", "mainClass":"child.Main",
                "patches":[{"id":"hmcl-only", "priority":10, "mainClass":"patched.Main"}]}"#,
        ),
    ];
    let merged = load(LinkedLauncherDialect::Generic, "generic", None, &docs).unwrap();
    assert_eq!(text(&merged, "mainClass").as_deref(), Some("child.Main"));
}

#[test]
fn hmcl_root_and_patches_follow_priority() {
    let docs = [(
        "hmcl",
        r#"{"id":"hmcl", "root":true, "mainClass":"ignored.Root",
            "patches":[
                {"id":"loader", "priority":30000, "mainClass":"loader.Main", "libraries":[{"name":"x:loader:1"}]},
                {"id":"game", "priority":0, "mainClass":"game.Main", "libraries":[{"name":"x:game:1"}]}
            ]}"#,
    )];
    let merged = load(LinkedLauncherDialect::Hmcl, "hmcl", None, &docs).unwrap();
    assert_eq!(text(&merged, "mainClass").as_deref(), Some("loader.Main"));
    assert_eq!(library_names(&merged), ["x:loader:1", "x:game:1"]);
}

#[test]
fn hmcl_inheritance_then_patches_preserve_merge_order_and_parent_jar() {
    let docs = [
        (
            "base",
            r#"{"id":"base", "jar":"vanilla", "mainClass":"base.Main",
                "arguments":{"game":["--base"]}, "libraries":[{"name":"x:base:1"}]}"#,
        ),
        (
            "child",
            r#"{"id":"child", "inheritsFrom":"base", "mainClass":"child.Main",
                "arguments":{"game":["--child"]}, "libraries":[{"name":"x:child:1"}],
                "patches":[{"id":"loader", "priority":10, "jar":"ignored-loader",
                    "mainClass":"loader.Main", "arguments":{"game":["--loader"]},
                    "libraries":[{"name":"x:loader:1"}]}]}"#,
        ),
    ];
    let merged = load(LinkedLauncherDialect::Hmcl, "child", None, &docs).unwrap();
    assert_eq!(text(&merged, "mainClass").as_deref(), Some("loader.Main"));
    assert_eq!(text(&merged, "jar").as_deref(), Some("vanilla"));
    assert_eq!(library_names(&merged), ["x:loader:1", "x:child:1", "x:base:1"]);
    let arguments = member(&merged, "arguments").unwrap();
    assert_eq!(array_texts(member(arguments, "game").unwrap()), ["--base", "--child", "--loader"]);
}

#[test]
fn pcl_hmcl_format_sorts_patches_and_ignores_null_ids() {
    let docs = [(
        "pcl",
        r#"{"id":"pcl", "patches":[
            {"id":"loader", "priority":20, "mainClass":"loader.Main", "libraries":[{"name":"x:loader:1"}]},
            {"id":null, "priority":30, "mainClass":"ignored.Main", "libraries":[{"name":"x:ignored:1"}]},
            {"id":"game", "priority":0, "mainClass":"game.Main", "libraries":[{"name":"x:game:1"}]}
        ]}"#,
    )];
    let merged = load(LinkedLauncherDialect::Pcl, "pcl", None, &docs).unwrap();
    assert_eq!(text(&merged, "id").as_deref(), Some("pcl"));
    assert_eq!(text(&merged, "mainClass").as_deref(), Some("loader.Main"));
    assert_eq!(library_names(&merged), ["x:game:1", "x:loader:1"]);
}

#[test]
fn explicit_json_path_sets_requested_identity_and_keeps_parent_discovery() {
    let docs = [
        ("base", r#"{"id":"base", "mainClass":"base.Main"}"#),
        ("folder", r#"{"id":"unrelated"}"#),
    ];
    let explicit = r#"{"id":"internal", "inheritsFrom":"base", "mainClass":"child.Main"}"#;
    let merged = load(LinkedLauncherDialect::Hmcl, "logical-id", Some(explicit), &docs).unwrap();
    assert_eq!(text(&merged, "id").as_deref(), Some("logical-id"));
    assert_eq!(text(&merged, "mainClass").as_deref(), Some("child.Main"));
}

#[test]
fn pcl_recursively_merges_objects_and_appends_arrays() {
    let docs = [
        (
            "base",
            r#"{"id":"base", "mainClass":"base.Main",
                "arguments":{"game":["--base"], "jvm":["-Dbase=1"]},
                "libraries":[{"name":"x:base:1"}], "assetIndex":{"id":"base", "url":"base"}}"#,
        ),
        (
            "child",
            r#"{"id":"child", "inheritsFrom":"base", "mainClass":"child.Main",
                "arguments":{"game":["--child"]}, "libraries":[{"name":"x:child:1"}],
                "assetIndex":{"id":"child"}}"#,
        ),
    ];
    let pcl = load(LinkedLauncherDialect::Pcl, "child", None, &docs).unwrap();
    assert_eq!(text(&pcl, "mainClass").as_deref(), Some("child.Main"));
    assert_eq!(text(&pcl, "jar").as_deref(), Some("base"));
    let asset_index = member(&pcl, "assetIndex").unwrap();
    assert_eq!(text(asset_index, "id").as_deref(), Some("child"));
    assert_eq!(text(asset_index, "url").as_deref(), Some("base"));
    assert_eq!(library_names(&pcl), ["x:child:1", "x:base:1"]);
    let game = member(member(&pcl, "arguments").unwrap(), "game").unwrap();
    assert_eq!(array_texts(game).len(), 2);

    let pcl_ce = load(LinkedLauncherDialect::PclCe, "child", None, &docs).unwrap();
    assert_eq!(text(&pcl_ce, "jar").as_deref(), Some("base"));
    assert_eq!(library_names(&pcl_ce), ["x:base:1", "x:child:1"]);
}

#[test]
fn circular_chains_are_refused() {
    let docs = [
        ("a", r#"{"id":"a", "inheritsFrom":"b"}"#),
        ("b", r#"{"id":"b", "inheritsFrom":"a"}"#),
    ];
    for dialect in [LinkedLauncherDialect::Hmcl, LinkedLauncherDialect::Generic, LinkedLauncherDialect::Pcl] {
        match load(dialect, "a", None, &docs) {
            Err(ErrorKind::InputError(message)) => {
                assert_eq!(message, "Circular inheritsFrom chain detected at \"a\"")
            }
            other => panic!("unexpected {other:?}"),
        }
    }
}

#[test]
fn pcl_ignores_a_document_that_inherits_from_itself() {
    let docs = [("self", r#"{"id":"self", "inheritsFrom":"self", "mainClass":"a.Main"}"#)];
    let merged = load(LinkedLauncherDialect::Pcl, "self", None, &docs).unwrap();
    assert_eq!(text(&merged, "mainClass").as_deref(), Some("a.Main"));
    assert_eq!(text(&merged, "jar").as_deref(), Some("self"));
}

#[test]
fn unreadable_documents_and_missing_ids_are_refused() {
    let mut chain = VersionChain::new(LinkedLauncherDialect::Hmcl, "x");
    assert!(matches!(chain.next_version_step("{not json"), Err(ErrorKind::JSONError(_))));
    match chain.next_version_step(r#"{"mainClass":"a"}"#) {
        Err(ErrorKind::JSONError(message)) => assert_eq!(message, "Version JSON has no string id"),
        other => panic!("unexpected {other:?}"),
    }
    assert!(chain.visited.is_empty());
}

#[test]
fn unknown_version_types_do_not_override() {
    assert!(is_known_version_type("Release"));
    assert!(is_known_version_type("OLD-ALPHA"));
    assert!(!is_known_version_type("weird"));
    let docs = [
        ("base", r#"{"id":"base", "type":"release"}"#),
        ("child", r#"{"id":"child", "inheritsFrom":"base", "type":"weird"}"#),
    ];
    let merged = load(LinkedLauncherDialect::Hmcl, "child", None, &docs).unwrap();
    assert_eq!(text(&merged, "type").as_deref(), Some("release"));
}

#[test]
fn patches_sort_stably_by_priority() {
    let patches = match parse_json_text(
        r#"[{"id":"a","priority":5},{"id":"b"},{"id":"c","priority":5},{"id":"d","priority":-1}]"#,
    )
    .unwrap()
    {
        JsonTree::Array(items) => items,
        _ => unreachable!(),
    };
    let sorted = sorted_by_priority(&patches, 0);
    let ids: Vec<String> = sorted.iter().filter_map(|p| text(p, "id")).collect();
    assert_eq!(ids, ["d", "b", "a", "c"]);
}

#[test]
fn json_merge_recurses_into_objects() {
    let target = parse_json_text(r#"{"a":{"x":1,"y":[1]},"b":true}"#).unwrap();
    let source = parse_json_text(r#"{"a":{"y":[2],"z":"s"},"b":null,"c":3}"#).unwrap();
    let merged = pcl_merge(&target, &source);
    let a = member(&merged, "a").unwrap();
    assert!(matches!(member(a, "x"), Some(JsonTree::Number(n, Some(1))) if n == "1"));
    assert!(matches!(member(a, "y"), Some(JsonTree::Array(items)) if items.len() == 2));
    assert_eq!(text(a, "z").as_deref(), Some("s"));
    assert!(matches!(member(&merged, "b"), Some(JsonTree::Null)));
    assert!(member(&merged, "c").is_some());
}
