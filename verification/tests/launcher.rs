use std::cmp::Ordering;
use theseus::error::ErrorKind;
use theseus::launcher::{
    compare_versions, coordinate_parts, discover_version_json, is_minecraft_version_document, VersionJsonCandidate, parse_u64_digits, to_ascii_lowercase, uses_isolated_game_dir,
    version_parts_of, version_type_from, ExternalGameDirMode, HmclVersionSettings, LinkedLauncherDialect,
    VersionType,
};

#[test]
fn explicit_game_dir_mode_overrides_the_dialect() {
    assert!(uses_isolated_game_dir(Some(ExternalGameDirMode::Isolated), LinkedLauncherDialect::Hmcl));
    assert!(!uses_isolated_game_dir(Some(ExternalGameDirMode::Shared), LinkedLauncherDialect::Pcl));
    assert!(!uses_isolated_game_dir(None, LinkedLauncherDialect::Hmcl));
    assert!(uses_isolated_game_dir(Some(ExternalGameDirMode::Automatic), LinkedLauncherDialect::Generic));
    assert!(uses_isolated_game_dir(None, LinkedLauncherDialect::PclCe));
}

#[test]
fn library_coordinates_split_on_colons() {
    assert_eq!(
        coordinate_parts("org.lwjgl:lwjgl:3.3.1:natives-linux"),
        Some(("org.lwjgl".to_string(), "lwjgl".to_string(), "3.3.1".to_string()))
    );
    assert_eq!(
        coordinate_parts("com.google:gson:2.10"),
        Some(("com.google".to_string(), "gson".to_string(), "2.10".to_string()))
    );
    assert_eq!(coordinate_parts("no-version:here"), None);
    assert_eq!(coordinate_parts("plain"), None);
}

#[test]
fn versions_compare_numerically_by_parts() {
    assert_eq!(version_parts_of("1.20-RC1"), vec!["1", "20", "rc1"]);
    assert_eq!(compare_versions("1.10", "1.9"), Ordering::Greater);
    assert_eq!(compare_versions("1.9", "1.10"), Ordering::Less);
    assert_eq!(compare_versions("1.2", "1.2.0"), Ordering::Less);
    assert_eq!(compare_versions("3.3.1", "3.3.1"), Ordering::Equal);
    assert_eq!(compare_versions("A", "a"), Ordering::Equal);
    assert_eq!(compare_versions("10", "9"), Ordering::Greater);
    assert_eq!(compare_versions("9", "10a"), Ordering::Greater);
    assert_eq!(compare_versions("10", "10a"), Ordering::Less);
}

#[test]
fn digit_strings_parse_until_overflow() {
    assert_eq!(parse_u64_digits("0042"), Some(42));
    assert_eq!(parse_u64_digits("18446744073709551615"), Some(u64::MAX));
    assert_eq!(parse_u64_digits("18446744073709551616"), None);
    assert_eq!(parse_u64_digits("12a"), None);
    assert_eq!(parse_u64_digits(""), None);
}

#[test]
fn version_types_are_read_in_any_case() {
    assert_eq!(to_ascii_lowercase("Old_Beta"), "old_beta");
    assert_eq!(version_type_from(Some("RELEASE")), Some(VersionType::Release));
    assert_eq!(version_type_from(Some("fool")), Some(VersionType::Snapshot));
    assert_eq!(version_type_from(Some("old-alpha")), Some(VersionType::OldAlpha));
    assert_eq!(version_type_from(Some("Old_Beta")), Some(VersionType::OldBeta));
    assert_eq!(version_type_from(Some("pending")), None);
    assert_eq!(version_type_from(None), None);
}

#[test]
fn child_settings_win_over_inherited_ones() {
    let mut settings = HmclVersionSettings {
        java_args: Some("-Xss1M".to_string()),
        max_memory: Some(2048),
        width: Some(854),
        ..HmclVersionSettings::default()
    };
    let child = HmclVersionSettings {
        max_memory: Some(4096),
        fullscreen: Some(true),
        ..HmclVersionSettings::default()
    };
    settings.overlay(&child);
    assert_eq!(settings.java_args.as_deref(), Some("-Xss1M"));
    assert_eq!(settings.max_memory, Some(4096));
    assert_eq!(settings.width, Some(854));
    assert_eq!(settings.fullscreen, Some(true));
    assert_eq!(settings.min_memory, None);
}

#[test]
fn version_documents_name_their_version() {
    assert!(is_minecraft_version_document(r#"{"id":"1.20.1","type":"release"}"#));
    assert!(!is_minecraft_version_document(r#"{"id":"   "}"#));
    assert!(!is_minecraft_version_document(r#"{"id":12}"#));
    assert!(!is_minecraft_version_document(r#"[{"id":"x"}]"#));
    assert!(!is_minecraft_version_document("not json"));
}

fn candidate(path: &str, text: &str) -> VersionJsonCandidate {
    VersionJsonCandidate { path: path.to_string(), text: Some(text.to_string()) }
}

#[test]
fn discovers_same_name_then_unique_json() {
    let same = vec![
        candidate("versions/same/same.json", r#"{"id":"same"}"#),
        candidate("versions/same/other.json", r#"{"id":"other"}"#),
    ];
    assert!(discover_version_json("versions/same", "versions/same/same.json", Some(r#"{"id":"same"}"#), &same)
        .unwrap()
        .ends_with("same.json"));
    let fallback = vec![candidate("versions/fallback/actual.json", r#"{"id":"actual"}"#)];
    assert!(discover_version_json("versions/fallback", "versions/fallback/fallback.json", None, &fallback)
        .unwrap()
        .ends_with("actual.json"));
}

#[test]
fn ignores_non_version_json_alongside_a_manifest() {
    let files = vec![
        candidate("versions/copied-version/actual-version.json", r#"{"id":"actual-version"}"#),
        candidate("versions/copied-version/usercache.json", r#"[{"name":"Player","uuid":"example"}]"#),
    ];
    assert!(discover_version_json(
        "versions/copied-version",
        "versions/copied-version/copied-version.json",
        None,
        &files
    )
    .unwrap()
    .ends_with("actual-version.json"));
}

#[test]
fn missing_or_ambiguous_version_json_is_an_input_error() {
    assert_eq!(
        discover_version_json("versions/x", "versions/x/x.json", Some("{}"), &vec![]),
        Err(ErrorKind::InputError("No version JSON found in versions/x".to_string()))
    );
    let two = vec![candidate("versions/x/a.json", r#"{"id":"a"}"#), candidate("versions/x/b.json", r#"{"id":"b"}"#)];
    assert_eq!(
        discover_version_json("versions/x", "versions/x/x.json", None, &two),
        Err(ErrorKind::InputError(
            "Multiple version JSON files found in versions/x; expected versions/x/x.json or one unique fallback".to_string()
        ))
    );
}
