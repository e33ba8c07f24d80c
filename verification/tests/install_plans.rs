use theseus::pack_scan::{nested_pack_entries, scanning_title, scans_deeper, unrecognized_pack_error};
use theseus::cache::CacheValueType;
use theseus::cache_fetch::{match_fetched, CacheRowUpdate, FetchedRow};
use theseus::error::ErrorKind;
use theseus::install::{
    finish_job, InstallJobEventKind, InstallJobState, InstallPhaseDetails, InstallPhaseId, InstallRequest,
    InstanceLink, JobOutcome, ModLoader,
};
use theseus::mrpack_plan::{plan_mrpack_install, resolve_install_path, PackFileView, PackManifestView};
use theseus::server_logs::jna_crash_hint_lines;
use theseus::upgrade::StagedUpgradeMutation;
use theseus::upgrade_apply::{dependency_change_path, plan_upgrade_apply, DependencyAction};
use theseus::upgrade_backup::{remap_backup_edges, remap_backup_files, BackupEntryView};
use theseus::upgrade_warnings::{
    ContentProvider, InstanceUpgradeAction, InstanceUpgradeDependencyChange, InstanceUpgradeDependencyChangeKind,
    InstanceUpgradeItem, InstanceUpgradeItemStatus, InstanceUpgradeResolution,
};

fn names(list: &[&str]) -> Vec<Option<String>> {
    list.iter().map(|n| Some(n.to_string())).collect()
}

fn file(path: &str, client_unsupported: bool, localized: Option<&str>) -> PackFileView {
    PackFileView {
        path: path.to_string(),
        client_unsupported,
        localized_path: localized.map(|l| l.to_string()),
    }
}

fn manifest(game: &str, files: Vec<PackFileView>) -> PackManifestView {
    PackManifestView { game: game.to_string(), files }
}

#[test]
fn mrpack_without_manifest_is_refused() {
    let entries = names(&["overrides/config/a.toml", "icon.png"]);
    match plan_mrpack_install(&manifest("minecraft", Vec::new()), &entries, &[]) {
        Err(ErrorKind::InputError(m)) => assert_eq!(m, "No pack manifest found in mrpack"),
        other => panic!("unexpected {other:?}"),
    }
}

#[test]
fn mrpack_for_another_game_is_refused() {
    let entries = names(&["modrinth.index.json"]);
    match plan_mrpack_install(&manifest("terraria", Vec::new()), &entries, &[]) {
        Err(ErrorKind::InputError(m)) => assert_eq!(m, "Pack does not support Minecraft"),
        other => panic!("unexpected {other:?}"),
    }
}

#[test]
fn mrpack_plan_finds_overrides_icon_and_paths() {
    let mut entries = names(&[
        "Pack/overrides/",
        "Pack/modrinth.index.json",
        "Pack/overrides/config/a.toml",
        "Pack/client-overrides/options.txt",
        "Pack/server-overrides/server.properties",
        "Pack/overrides/icon.png",
        "Other/overrides/b.toml",
    ]);
    entries.push(None);
    let files = vec![
        file("mods/a.jar", false, None),
        file("mods/server-only.jar", true, None),
        file("resourcepacks/pack.zip", false, Some("resourcepacks/Localized.zip")),
        file("shaderpacks/moved.zip", false, Some("shaderpacks/Other.zip")),
    ];
    let existing = vec![
        ("shaderpacks/moved.zip".to_string(), "shaderpacks/first.zip.disabled".to_string()),
        ("shaderpacks/moved.zip".to_string(), "shaderpacks/moved.zip.disabled".to_string()),
    ];
    let plan = plan_mrpack_install(&manifest("minecraft", files), &entries, &existing).unwrap();
    assert_eq!(plan.manifest_index, 1);
    assert_eq!(plan.archive_base, "Pack/");
    assert_eq!(
        plan.install_paths,
        vec![
            "mods/a.jar".to_string(),
            "mods/server-only.jar".to_string(),
            "resourcepacks/Localized.zip".to_string(),
            "shaderpacks/moved.zip.disabled".to_string(),
        ]
    );
    assert_eq!(plan.skipped_on_client, vec![false, true, false, false]);
    assert_eq!(plan.override_entries, vec![2, 3, 5]);
    assert_eq!(plan.icon_entry, Some(5));
}

#[test]
fn install_path_prefers_the_existing_file() {
    let existing = vec![("mods/a.jar".to_string(), "mods/a.jar.disabled".to_string())];
    assert_eq!(resolve_install_path(&existing, &file("mods/a.jar", false, None)), "mods/a.jar.disabled");
    assert_eq!(resolve_install_path(&existing, &file("mods/b.jar", false, None)), "mods/b.jar");
}

fn row(key: &str, alias: Option<&str>) -> FetchedRow {
    FetchedRow { key: key.to_string(), alias: alias.map(|a| a.to_string()) }
}

fn describe(updates: &[CacheRowUpdate]) -> Vec<String> {
    updates
        .iter()
        .map(|u| match u {
            CacheRowUpdate::Fetched(i) => format!("fetched {i}"),
            CacheRowUpdate::Empty(k) => format!("empty {k}"),
        })
        .collect()
}

#[test]
fn fetched_values_are_matched_by_id_or_case_folded_slug() {
    let keys = vec!["AAA".to_string(), "Sodium".to_string(), "missing".to_string(), "sodium".to_string()];
    let fetched = vec![row("AAA", Some("first")), row("P2", Some("sodium"))];
    let updates = match_fetched(CacheValueType::Project, &keys, &fetched);
    assert_eq!(describe(&updates), vec!["fetched 0", "fetched 1", "empty missing"]);
}

#[test]
fn file_hash_aliases_are_case_sensitive() {
    let keys = vec!["ABC".to_string(), "abc".to_string()];
    let fetched = vec![row("id-1", Some("abc"))];
    let updates = match_fetched(CacheValueType::FileHash, &keys, &fetched);
    assert_eq!(describe(&updates), vec!["empty ABC", "fetched 0"]);
}

fn job(request: InstallRequest) -> InstallJobState {
    InstallJobState::new(request)
}

fn create_request() -> InstallRequest {
    InstallRequest::CreateInstance {
        name: "Test".to_string(),
        game_version: "1.21.1".to_string(),
        loader: ModLoader::Vanilla,
        loader_version: None,
        adjuncts: Vec::new(),
        icon_path: None,
        link: InstanceLink::Unmanaged,
        game_dir_override: None,
    }
}

#[test]
fn succeeded_job_is_finalizing_and_clear() {
    let mut state = job(create_request());
    state.set_progress(InstallPhaseId::DownloadingContent, None, InstallPhaseDetails::Empty);
    finish_job(&mut state, JobOutcome::Succeeded { instance_id: Some("inst".to_string()) });
    assert_eq!(state.progress.phase, InstallPhaseId::Finalizing);
    assert!(state.error.is_none() && state.pause_reason.is_none() && state.context.is_none());
    match &state.events.last().unwrap().kind {
        InstallJobEventKind::JobSucceeded { instance_id } => assert_eq!(instance_id.as_deref(), Some("inst")),
        other => panic!("unexpected {other:?}"),
    }
}

#[test]
fn succeeded_upgrade_is_completed() {
    let mut state = job(InstallRequest::UpgradeUnmanagedInstance { instance_id: "inst".to_string() });
    finish_job(&mut state, JobOutcome::Succeeded { instance_id: None });
    assert_eq!(state.progress.phase, InstallPhaseId::Completed);
}

#[test]
fn canceled_job_rolls_back() {
    let mut state = job(create_request());
    state.cleanup.push("instances/test".to_string());
    state.set_progress(InstallPhaseId::DownloadingMinecraft, None, InstallPhaseDetails::Empty);
    let before = state.events.len();
    finish_job(&mut state, JobOutcome::Canceled);
    assert_eq!(state.progress.phase, InstallPhaseId::RollingBack);
    let error = state.error.as_ref().unwrap();
    assert_eq!(error.code, "canceled");
    assert_eq!(error.message, "Install was canceled");
    assert_eq!(error.phase, InstallPhaseId::DownloadingMinecraft);
    assert_eq!(state.events.len(), before + 2);
    assert!(matches!(
        state.events[before].kind,
        InstallJobEventKind::JobCanceled { phase: InstallPhaseId::DownloadingMinecraft }
    ));
    match &state.events[before + 1].kind {
        InstallJobEventKind::RollbackStarted { cleanup } => assert_eq!(cleanup, &vec!["instances/test".to_string()]),
        other => panic!("unexpected {other:?}"),
    }
}

fn mutation(existing: Option<&str>, target: &str) -> StagedUpgradeMutation {
    StagedUpgradeMutation {
        existing_path: existing.map(|e| e.to_string()),
        target_path: target.to_string(),
        auto_dependency: false,
        enabled: true,
    }
}

fn upgrade_item(id: &str, path: &str) -> InstanceUpgradeItem {
    InstanceUpgradeItem {
        content_id: id.to_string(),
        relative_path: path.to_string(),
        provider: ContentProvider::Modrinth,
        project_id: None,
        status: InstanceUpgradeItemStatus::Compatible,
        resolution: InstanceUpgradeResolution { action: InstanceUpgradeAction::Keep },
    }
}

fn dependency(kind: InstanceUpgradeDependencyChangeKind, id: Option<&str>, enabled: bool) -> InstanceUpgradeDependencyChange {
    InstanceUpgradeDependencyChange {
        kind,
        existing_content_id: id.map(|i| i.to_string()),
        provider: ContentProvider::Modrinth,
        project_id: "p".to_string(),
        target_release_id: None,
        enabled,
    }
}

#[test]
fn upgrade_apply_skips_conflicts_and_guards_dependencies() {
    let mutations = vec![
        mutation(Some("mods/a.jar"), "mods/a2.jar"),
        mutation(None, "mods/ext.jar"),
        mutation(Some("mods/c.jar"), "mods/c2.jar"),
    ];
    let external = vec!["mods/ext.jar".to_string(), "mods/lib.jar".to_string()];
    let items = vec![upgrade_item("lib", "mods/lib.jar"), upgrade_item("old", "mods/old.jar"), upgrade_item("kept", "mods/kept.jar")];
    let changes = vec![
        dependency(InstanceUpgradeDependencyChangeKind::Remove, Some("lib"), false),
        dependency(InstanceUpgradeDependencyChangeKind::Remove, Some("old"), false),
        dependency(InstanceUpgradeDependencyChangeKind::Keep, Some("kept"), false),
        dependency(InstanceUpgradeDependencyChangeKind::Add, None, true),
        dependency(InstanceUpgradeDependencyChangeKind::Remove, Some("lib"), false),
    ];
    let plan = plan_upgrade_apply(&mutations, &vec![false, false, true], &external, &items, &changes, &vec![false; 5]);
    assert_eq!(plan.applied, vec![0]);
    assert_eq!(plan.skipped, vec!["mods/ext.jar".to_string(), "mods/c2.jar".to_string(), "mods/lib.jar".to_string()]);
    assert!(matches!(plan.dependency_actions[0], DependencyAction::Nothing));
    assert!(matches!(&plan.dependency_actions[1], DependencyAction::Remove(p) if p == "mods/old.jar"));
    assert!(matches!(&plan.dependency_actions[2], DependencyAction::SetEnabled(p, false) if p == "mods/kept.jar"));
    assert!(matches!(plan.dependency_actions[3], DependencyAction::Nothing));
    assert!(matches!(plan.dependency_actions[4], DependencyAction::Nothing));
    assert_eq!(dependency_change_path(&items, &changes[1]).as_deref(), Some("mods/old.jar"));
}

fn pair(a: &str, b: &str) -> (String, String) {
    (a.to_string(), b.to_string())
}

#[test]
fn backup_entries_find_their_files_by_path() {
    let source = vec![pair("f1", "mods/a.jar"), pair("f2", "config/b.toml")];
    let target = vec![pair("t2", "config/b.toml"), pair("t1", "mods/a.jar")];
    let entries = vec![
        BackupEntryView { id: "e1".to_string(), file_id: Some("f1".to_string()) },
        BackupEntryView { id: "e2".to_string(), file_id: None },
        BackupEntryView { id: "e3".to_string(), file_id: Some("f2".to_string()) },
    ];
    let files = remap_backup_files(&source, &target, &entries).unwrap();
    assert_eq!(files, vec![Some("t1".to_string()), None, Some("t2".to_string())]);
}

#[test]
fn backup_entry_without_source_file_is_an_error() {
    let entries = vec![BackupEntryView { id: "e9".to_string(), file_id: Some("nope".to_string()) }];
    match remap_backup_files(&vec![], &vec![], &entries) {
        Err(ErrorKind::FSError(m)) => assert_eq!(m, "Upgrade backup source content entry e9 has no file"),
        other => panic!("unexpected {other:?}"),
    }
    let entries = vec![BackupEntryView { id: "e1".to_string(), file_id: Some("f1".to_string()) }];
    match remap_backup_files(&vec![pair("f1", "mods/a.jar")], &vec![], &entries) {
        Err(ErrorKind::FSError(m)) => assert_eq!(m, "Upgrade backup is missing copied content file mods/a.jar"),
        other => panic!("unexpected {other:?}"),
    }
}

#[test]
fn backup_edges_are_carried_over_or_refused() {
    let ids = vec![pair("e1", "n1"), pair("e2", "n2")];
    assert_eq!(remap_backup_edges(&ids, &vec![pair("e1", "e2")]).unwrap(), vec![pair("n1", "n2")]);
    match remap_backup_edges(&ids, &vec![pair("e1", "e2"), pair("x", "e2")]) {
        Err(ErrorKind::FSError(m)) => assert_eq!(m, "Upgrade backup cannot map dependency parent x"),
        other => panic!("unexpected {other:?}"),
    }
    match remap_backup_edges(&ids, &vec![pair("e1", "y")]) {
        Err(ErrorKind::FSError(m)) => assert_eq!(m, "Upgrade backup cannot map dependency child y"),
        other => panic!("unexpected {other:?}"),
    }
}

#[test]
fn jna_hint_lines_are_exact() {
    assert_eq!(
        jna_crash_hint_lines(),
        vec![
            "[Axolotl] This crash matches a known JNA bug on macOS (java-native-access#1452):".to_string(),
            "[Axolotl] mods bundling JNA below 5.13.0 abort when a native library fails to load.".to_string(),
            "[Axolotl] Update or remove the affected mod, or ask the modpack author to bump JNA to 5.13.0+.".to_string(),
        ]
    );
}

#[test]
fn failed_runs_blame_the_latest_phase_and_roll_back() {
    let mut reporter_state = job(create_request());
    reporter_state.set_progress(InstallPhaseId::DownloadingContent, None, InstallPhaseDetails::Empty);
    let execution_state = job(create_request());
    let before = reporter_state.events.len();
    theseus::install::begin_job_failure(&mut reporter_state, &execution_state, "network", "timed out");
    assert_eq!(reporter_state.progress.phase, InstallPhaseId::RollingBack);
    assert!(matches!(
        reporter_state.events[before].kind,
        InstallJobEventKind::Failed { phase: InstallPhaseId::DownloadingContent, .. }
    ));
    assert!(matches!(reporter_state.events[before + 1].kind, InstallJobEventKind::RollbackStarted { .. }));
    assert_eq!(reporter_state.error.as_ref().unwrap().message, "timed out");
}

#[test]
fn nested_packs_are_found_by_extension() {
    let names = vec!["a/Pack.ZIP".to_string(), "readme.txt".to_string(), "inner.mrpack".to_string()];
    assert_eq!(nested_pack_entries(&names), vec![0, 2]);
    assert!(scans_deeper(2));
    assert!(!scans_deeper(3));
    assert_eq!(scanning_title("pack.zip", 1), "Scanning pack.zip (level 1/3)");
    match unrecognized_pack_error() {
        ErrorKind::InputError(m) => {
            assert_eq!(m, "Unrecognized modpack format: no known pack manifest was found in the archive")
        }
        other => panic!("unexpected {other:?}"),
    }
}

#[test]
fn cache_reads_of_no_keys_answer_at_once() {
    assert!(!theseus::cache::cache_read_needed(&[]));
    assert!(theseus::cache::cache_read_needed(&["a".to_string()]));
}
