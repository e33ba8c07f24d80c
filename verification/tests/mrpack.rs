use theseus::install::InstallPauseReason;
use theseus::mrpack::{
    bounded_text, estimated_file_max_attempts, locate_mrpack_manifest,
    missing_required_content_pause, modpack_source_kind, mrpack_override_staging_path, order_required_file_failures,
    mrpack_staged_download_path, override_extraction_groups, pack_source_path, ContentSourceKind,
    CreatePackFile, OverrideExtractionSpec, PackFile, RequiredFileFailure, RequiredFileFailures,
};

fn override_spec(index: usize, target: &str) -> OverrideExtractionSpec {
    OverrideExtractionSpec {
        index,
        entry_name: format!("overrides/{target}"),
        crc32: 0,
        uncompressed_size: 0,
        relative_path: target.to_string(),
        target_path: target.to_string(),
    }
}

#[test]
fn override_batches_bound_concurrency_and_order_duplicate_targets() {
    let groups = override_extraction_groups(vec![
        override_spec(0, "config/a.toml"),
        override_spec(1, "config/b.toml"),
        override_spec(2, "config/c.toml"),
        override_spec(3, "config/d.toml"),
        override_spec(4, "config/a.toml"),
    ]);

    assert!(groups.iter().all(|group| {
        group
            .windows(2)
            .all(|pair| pair[0].target_path == pair[1].target_path)
    }));
    assert_eq!(groups.len(), 4);
    assert_eq!(groups[0][0].index, 0);
    assert_eq!(groups[0][1].index, 4);
}

#[test]
fn override_groups_keep_every_file_once_in_order() {
    let groups = override_extraction_groups(vec![
        override_spec(0, "b"),
        override_spec(1, "a"),
        override_spec(2, "b"),
        override_spec(3, "b"),
        override_spec(4, "a"),
    ]);
    let indices: Vec<Vec<usize>> = groups
        .iter()
        .map(|group| group.iter().map(|spec| spec.index).collect())
        .collect();
    assert_eq!(indices, vec![vec![0, 2, 3], vec![1, 4]]);
    assert!(override_extraction_groups(Vec::new()).is_empty());
}

#[test]
fn aggregate_required_file_error_has_bounded_path_details() {
    let failures = (0..10)
        .map(|index| {
            RequiredFileFailure::new(
                index,
                &format!("mods/{index}-{}.jar", "x".repeat(500)),
                "failed",
            )
        })
        .collect::<Vec<_>>();

    let message = RequiredFileFailures(&failures).to_string();
    assert!(message.contains("10 required modpack files failed"));
    assert!(message.contains("(+7 more)"));
    assert!(message.len() < 600);
}

#[test]
fn aggregate_message_for_few_failures() {
    let one = vec![RequiredFileFailure::new(3, "mods/a.jar", "boom")];
    assert_eq!(
        RequiredFileFailures(&one).to_string(),
        "1 required modpack file failed: mods/a.jar"
    );
    let three = vec![
        RequiredFileFailure::new(0, "a", "r"),
        RequiredFileFailure::new(1, "b", "r"),
        RequiredFileFailure::new(2, "c", "r"),
    ];
    assert_eq!(
        RequiredFileFailures(&three).to_string(),
        "3 required modpack files failed: a, b, c"
    );
    assert_eq!(RequiredFileFailures(&[]).to_string(), "0 required modpack files failed");
}

#[test]
fn bounded_text_marks_cut_text() {
    assert_eq!(bounded_text("abcdef", 3), "abc...");
    assert_eq!(bounded_text("abc", 3), "abc");
    assert_eq!(bounded_text("h\u{e9}llo", 2), "h\u{e9}...");
    let failure = RequiredFileFailure::new(1, &"p".repeat(200), &"r".repeat(2000));
    assert_eq!(failure.path.chars().count(), 163);
    assert_eq!(failure.reason.chars().count(), 1027);
}

#[test]
fn missing_content_pause_shows_first_three_paths() {
    assert_eq!(missing_required_content_pause(&[]), None);
    let failures = (0..5)
        .map(|index| RequiredFileFailure::new(index, &format!("mods/{index}.jar"), "failed"))
        .collect::<Vec<_>>();
    assert_eq!(
        missing_required_content_pause(&failures),
        Some(InstallPauseReason::MissingRequiredContent {
            failed_files: 5,
            paths: vec![
                "mods/0.jar".to_string(),
                "mods/1.jar".to_string(),
                "mods/2.jar".to_string()
            ],
        })
    );
}

#[test]
fn staging_paths_append_their_suffix() {
    assert_eq!(mrpack_staged_download_path("mods/example.jar"), "mods/example.jar.installing.download");
    assert_eq!(mrpack_override_staging_path("config/a.toml"), "config/a.toml.installing");
}

#[test]
fn attempts_are_two_per_source_and_at_least_one() {
    let file = |n: usize| PackFile {
        path: "mods/a.jar".to_string(),
        downloads: (0..n).map(|i| format!("https://example.invalid/{i}")).collect(),
    };
    assert_eq!(estimated_file_max_attempts(&file(0)), 1);
    assert_eq!(estimated_file_max_attempts(&file(1)), 2);
    assert_eq!(estimated_file_max_attempts(&file(3)), 6);
}

#[test]
fn manifest_is_found_at_root_or_one_folder_deep() {
    let names = |list: &[&str]| list.iter().map(|n| Some(n.to_string())).collect::<Vec<_>>();
    assert_eq!(
        locate_mrpack_manifest(&names(&["pack/modrinth.index.json", "modrinth.index.json"])),
        Some((1, String::new()))
    );
    assert_eq!(
        locate_mrpack_manifest(&names(&["overrides/a", "pack/modrinth.index.json"])),
        Some((1, "pack/".to_string()))
    );
    assert_eq!(
        locate_mrpack_manifest(&names(&["a/b/modrinth.index.json", "README"])),
        None
    );
    assert_eq!(locate_mrpack_manifest(&[None, Some("modrinth.index.json".to_string())]), Some((1, String::new())));
}

#[test]
fn pack_sources_are_named_and_classified() {
    assert_eq!(pack_source_path(&CreatePackFile::Bytes(vec![1, 2])), "downloaded mrpack bytes");
    assert_eq!(pack_source_path(&CreatePackFile::Path("/tmp/p.mrpack".to_string())), "/tmp/p.mrpack");
    assert_eq!(modpack_source_kind(Some("v1")), ContentSourceKind::ModrinthModpack);
    assert_eq!(modpack_source_kind(None), ContentSourceKind::ImportedModpack);
}

#[test]
fn collected_failures_come_back_in_manifest_order() {
    let failures = vec![
        RequiredFileFailure::new(3, "mods/3.jar", "timeout"),
        RequiredFileFailure::new(0, "mods/0.jar", "hash mismatch"),
        RequiredFileFailure::new(2, "mods/2.jar", "not found"),
    ];
    let ordered = order_required_file_failures(failures);
    assert_eq!(
        ordered.iter().map(|f| f.path.as_str()).collect::<Vec<_>>(),
        vec!["mods/0.jar", "mods/2.jar", "mods/3.jar"]
    );
    assert_eq!(ordered[1].reason, "not found");
    let summary = RequiredFileFailures(&ordered).to_string();
    assert!(summary.contains("3 required modpack files failed"));
    assert!(summary.contains("mods/0.jar"));
    assert_eq!(
        missing_required_content_pause(&ordered),
        Some(InstallPauseReason::MissingRequiredContent {
            failed_files: 3,
            paths: vec!["mods/0.jar".to_string(), "mods/2.jar".to_string(), "mods/3.jar".to_string()],
        })
    );
}
