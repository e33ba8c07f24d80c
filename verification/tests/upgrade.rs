use theseus::install::ModLoader;
use theseus::upgrade::{
    classify_upgrade_external_change, debug_mutation_count, default_upgrade_instance_name,
    diff_upgrade_source_files, final_upgrade_external_changes, merge_upgrade_external_changes,
    record_launcher_expected_file, should_create_upgrade_backup, unsafe_upgrade_paths, upgrade_source_file, upgrade_mutation_conflicts, InstanceUpgradeEnvironment,
    InstanceUpgradeExternalChange, InstanceUpgradeExternalChangeKind, InstanceUpgradeSourceFile,
    SharedUpgradeMode, StagedUpgradeMutation,
};

fn env(game: &str, loader: ModLoader, version: Option<&str>) -> InstanceUpgradeEnvironment {
    InstanceUpgradeEnvironment {
        game_version: game.to_string(),
        mod_loader: loader,
        mod_loader_version: version.map(|v| v.to_string()),
    }
}

fn file(path: &str, sha1: &str, size: u64, enabled: bool) -> InstanceUpgradeSourceFile {
    InstanceUpgradeSourceFile { relative_path: path.to_string(), sha1: sha1.to_string(), size, enabled }
}

fn change(path: &str, kind: InstanceUpgradeExternalChangeKind) -> InstanceUpgradeExternalChange {
    InstanceUpgradeExternalChange { relative_path: path.to_string(), kind }
}

#[test]
fn upgraded_copies_are_named_after_version_and_loader() {
    assert_eq!(default_upgrade_instance_name(&env("1.21.1", ModLoader::Fabric, Some("0.16.5"))), "1.21.1-Fabric 0.16.5");
    assert_eq!(default_upgrade_instance_name(&env("1.20.1", ModLoader::LegacyFabric, Some("latest"))), "1.20.1-Legacy Fabric");
    assert_eq!(default_upgrade_instance_name(&env("1.12.2", ModLoader::Forge, Some("stable"))), "1.12.2-Forge");
    assert_eq!(default_upgrade_instance_name(&env("1.8.9", ModLoader::Vanilla, None)), "1.8.9-Vanilla");
}

#[test]
fn backups_only_for_direct_upgrades_that_ask_for_one() {
    assert!(should_create_upgrade_backup(true, SharedUpgradeMode::Direct));
    assert!(!should_create_upgrade_backup(true, SharedUpgradeMode::CopyAndUpgrade));
    assert!(!should_create_upgrade_backup(false, SharedUpgradeMode::Direct));
}

#[test]
fn external_changes_are_classified_by_presence() {
    assert_eq!(classify_upgrade_external_change(false, true), InstanceUpgradeExternalChangeKind::Added);
    assert_eq!(classify_upgrade_external_change(true, false), InstanceUpgradeExternalChangeKind::Removed);
    assert_eq!(classify_upgrade_external_change(true, true), InstanceUpgradeExternalChangeKind::Modified);
}

#[test]
fn staged_changes_conflict_with_changed_targets_or_sources() {
    let external = vec!["mods/a.jar".to_string(), "mods/b.jar".to_string()];
    let target_hit = StagedUpgradeMutation {
        existing_path: None,
        target_path: "mods/a.jar".to_string(),
        auto_dependency: false,
        enabled: true,
    };
    let source_hit = StagedUpgradeMutation {
        existing_path: Some("mods/b.jar".to_string()),
        target_path: "mods/c.jar".to_string(),
        auto_dependency: true,
        enabled: true,
    };
    let clear = StagedUpgradeMutation {
        existing_path: Some("mods/d.jar".to_string()),
        target_path: "mods/c.jar".to_string(),
        auto_dependency: false,
        enabled: false,
    };
    assert!(upgrade_mutation_conflicts(&target_hit, &external));
    assert!(upgrade_mutation_conflicts(&source_hit, &external));
    assert!(!upgrade_mutation_conflicts(&clear, &external));
}

#[test]
fn debug_mutation_counts_are_positive_numbers() {
    assert_eq!(debug_mutation_count(" 3 "), Some(3));
    assert_eq!(debug_mutation_count("+7"), Some(7));
    assert_eq!(debug_mutation_count("0"), None);
    assert_eq!(debug_mutation_count("-1"), None);
    assert_eq!(debug_mutation_count("many"), None);
    assert_eq!(debug_mutation_count(""), None);
}

#[test]
fn source_file_diff_is_sorted_by_path() {
    let source = vec![
        file("mods/z.jar", "aa", 10, true),
        file("mods/kept.jar", "bb", 5, true),
        file("mods/disabled.jar", "cc", 7, true),
        file("mods/gone.jar", "dd", 1, true),
    ];
    let current = vec![
        file("mods/kept.jar", "bb", 5, true),
        file("mods/z.jar", "ee", 10, true),
        file("mods/disabled.jar", "cc", 7, false),
        file("mods/new.jar", "ff", 3, true),
    ];
    assert_eq!(
        diff_upgrade_source_files(&source, &current),
        vec![
            change("mods/disabled.jar", InstanceUpgradeExternalChangeKind::Modified),
            change("mods/gone.jar", InstanceUpgradeExternalChangeKind::Removed),
            change("mods/new.jar", InstanceUpgradeExternalChangeKind::Added),
            change("mods/z.jar", InstanceUpgradeExternalChangeKind::Modified),
        ]
    );
    assert_eq!(diff_upgrade_source_files(&source, &source), vec![]);
}

#[test]
fn launcher_made_changes_are_not_external() {
    let source = vec![file("mods/a.jar", "1", 1, true), file("mods/b.jar", "2", 2, true)];
    let current = vec![file("mods/a2.jar", "3", 3, true), file("mods/b.jar", "9", 2, true)];
    let expected = vec![
        ("mods/a.jar".to_string(), None),
        ("mods/a2.jar".to_string(), Some(file("mods/a2.jar", "3", 3, true))),
    ];
    assert_eq!(
        final_upgrade_external_changes(&source, &current, &expected),
        vec![change("mods/b.jar", InstanceUpgradeExternalChangeKind::Modified)]
    );
    let unexpected_content = vec![("mods/a2.jar".to_string(), Some(file("mods/a2.jar", "4", 3, true)))];
    assert_eq!(
        final_upgrade_external_changes(&source, &current, &unexpected_content),
        vec![
            change("mods/a.jar", InstanceUpgradeExternalChangeKind::Removed),
            change("mods/a2.jar", InstanceUpgradeExternalChangeKind::Added),
            change("mods/b.jar", InstanceUpgradeExternalChangeKind::Modified),
        ]
    );
}

#[test]
fn merged_changes_replace_kinds_and_stay_sorted() {
    let mut changes = vec![
        change("mods/b.jar", InstanceUpgradeExternalChangeKind::Added),
        change("mods/d.jar", InstanceUpgradeExternalChangeKind::Modified),
    ];
    merge_upgrade_external_changes(
        &mut changes,
        vec![
            change("mods/c.jar", InstanceUpgradeExternalChangeKind::Removed),
            change("mods/b.jar", InstanceUpgradeExternalChangeKind::Modified),
            change("mods/a.jar", InstanceUpgradeExternalChangeKind::Added),
        ],
    );
    assert_eq!(
        changes,
        vec![
            change("mods/a.jar", InstanceUpgradeExternalChangeKind::Added),
            change("mods/b.jar", InstanceUpgradeExternalChangeKind::Modified),
            change("mods/c.jar", InstanceUpgradeExternalChangeKind::Removed),
            change("mods/d.jar", InstanceUpgradeExternalChangeKind::Modified),
        ]
    );
}

#[test]
fn linked_entries_in_content_folders_are_unsafe() {
    let linked = vec![
        "mods\\linked.jar".to_string(),
        "config/linked.toml".to_string(),
        "shaderpacks/pack".to_string(),
        "mods/linked.jar".to_string(),
        "datapacks".to_string(),
        "modsextra/x.jar".to_string(),
    ];
    assert_eq!(
        unsafe_upgrade_paths(&linked),
        vec!["datapacks".to_string(), "mods/linked.jar".to_string(), "shaderpacks/pack".to_string()]
    );
}

#[test]
fn disabled_files_are_recorded_as_disabled() {
    let on = upgrade_source_file("mods/a.jar", "ab".to_string(), 12);
    assert!(on.enabled);
    assert_eq!((on.relative_path.as_str(), on.sha1.as_str(), on.size), ("mods/a.jar", "ab", 12));
    assert!(!upgrade_source_file("mods/a.jar.disabled", "ab".to_string(), 12).enabled);
}

#[test]
fn moved_files_leave_nothing_expected_at_their_old_path() {
    let source = vec![file("mods/a.jar", "1", 1, true)];
    let current = vec![file("mods/a.jar.disabled", "1", 1, false)];
    let mut expected = Vec::new();
    record_launcher_expected_file(
        &mut expected,
        "mods/a.jar",
        "mods/a.jar.disabled",
        Some(file("mods/a.jar.disabled", "1", 1, false)),
    );
    assert_eq!(final_upgrade_external_changes(&source, &current, &expected), vec![]);
    record_launcher_expected_file(&mut expected, "mods/a.jar.disabled", "mods/a.jar.disabled", None);
    assert_eq!(
        final_upgrade_external_changes(&source, &current, &expected),
        vec![change("mods/a.jar.disabled", InstanceUpgradeExternalChangeKind::Added)]
    );
}

#[test]
fn later_changes_at_one_path_keep_the_last_kind() {
    let mut changes = vec![change("mods/x.jar", InstanceUpgradeExternalChangeKind::Added)];
    merge_upgrade_external_changes(
        &mut changes,
        vec![
            change("mods/y.jar", InstanceUpgradeExternalChangeKind::Added),
            change("mods/y.jar", InstanceUpgradeExternalChangeKind::Removed),
            change("mods/x.jar", InstanceUpgradeExternalChangeKind::Modified),
        ],
    );
    assert_eq!(
        changes,
        vec![
            change("mods/x.jar", InstanceUpgradeExternalChangeKind::Modified),
            change("mods/y.jar", InstanceUpgradeExternalChangeKind::Removed),
        ]
    );
}

#[test]
fn merging_the_same_changes_again_changes_nothing() {
    let additional = vec![
        change("mods/c.jar", InstanceUpgradeExternalChangeKind::Removed),
        change("mods/b.jar", InstanceUpgradeExternalChangeKind::Modified),
        change("mods/c.jar", InstanceUpgradeExternalChangeKind::Added),
    ];
    let mut changes = vec![change("mods/b.jar", InstanceUpgradeExternalChangeKind::Added)];
    merge_upgrade_external_changes(&mut changes, additional.clone());
    let once = changes.clone();
    assert_eq!(
        once,
        vec![
            change("mods/b.jar", InstanceUpgradeExternalChangeKind::Modified),
            change("mods/c.jar", InstanceUpgradeExternalChangeKind::Added),
        ]
    );
    merge_upgrade_external_changes(&mut changes, additional);
    assert_eq!(changes, once);
}
