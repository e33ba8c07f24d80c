use theseus::error::ErrorKind;
use theseus::upgrade_staging::{upgrade_staging_requests, UpgradeStagingRequest};
use theseus::upgrade_warnings::{
    ContentProvider, InstanceUpgradeAction, InstanceUpgradeDependencyChange, InstanceUpgradeDependencyChangeKind,
    InstanceUpgradeExecution, InstanceUpgradeSelection, InstanceUpgradeSolution,
};

fn selection(id: &str, action: InstanceUpgradeAction, provider: Option<ContentProvider>, project: Option<&str>, release: Option<&str>) -> InstanceUpgradeSelection {
    InstanceUpgradeSelection {
        content_id: id.to_string(),
        action,
        provider,
        project_id: project.map(|p| p.to_string()),
        target_release_id: release.map(|r| r.to_string()),
        enabled: true,
    }
}

fn change(kind: InstanceUpgradeDependencyChangeKind, existing: Option<&str>, project: &str, release: Option<&str>) -> InstanceUpgradeDependencyChange {
    InstanceUpgradeDependencyChange {
        kind,
        existing_content_id: existing.map(|e| e.to_string()),
        provider: ContentProvider::Modrinth,
        project_id: project.to_string(),
        target_release_id: release.map(|r| r.to_string()),
        enabled: false,
    }
}

fn execution(selections: Vec<InstanceUpgradeSelection>, dependency_changes: Vec<InstanceUpgradeDependencyChange>) -> InstanceUpgradeExecution {
    InstanceUpgradeExecution { items: vec![], warnings: vec![], solution: InstanceUpgradeSolution { selections, dependency_changes } }
}

fn request(content: Option<&str>, project: &str, release: &str, auto_dependency: bool, enabled: bool) -> UpgradeStagingRequest {
    UpgradeStagingRequest {
        content_id: content.map(|c| c.to_string()),
        provider: ContentProvider::Modrinth,
        project_id: project.to_string(),
        release_id: release.to_string(),
        auto_dependency,
        enabled,
    }
}

#[test]
fn upgrades_and_new_dependencies_are_staged_once() {
    let exec = execution(
        vec![
            selection("c1", InstanceUpgradeAction::Upgrade, Some(ContentProvider::Modrinth), Some("p1"), Some("r1")),
            selection("c2", InstanceUpgradeAction::Keep, Some(ContentProvider::Modrinth), Some("p2"), Some("r2")),
            selection("c3", InstanceUpgradeAction::Upgrade, None, None, None),
            selection("c1", InstanceUpgradeAction::Upgrade, Some(ContentProvider::Modrinth), Some("p1"), Some("r1")),
        ],
        vec![
            change(InstanceUpgradeDependencyChangeKind::Add, None, "dep", Some("d1")),
            change(InstanceUpgradeDependencyChangeKind::Remove, Some("c9"), "gone", None),
            change(InstanceUpgradeDependencyChangeKind::Upgrade, None, "dep", Some("d1")),
            change(InstanceUpgradeDependencyChangeKind::Upgrade, Some("c1"), "p1", Some("r1")),
        ],
    );
    assert_eq!(
        upgrade_staging_requests(&exec),
        Ok(vec![request(Some("c1"), "p1", "r1", false, true), request(None, "dep", "d1", true, false)])
    );
}

#[test]
fn missing_projects_and_releases_are_input_errors() {
    let no_project = execution(
        vec![selection("c1", InstanceUpgradeAction::Upgrade, Some(ContentProvider::CurseForge), None, Some("r"))],
        vec![change(InstanceUpgradeDependencyChangeKind::Add, None, "dep", None)],
    );
    assert_eq!(
        upgrade_staging_requests(&no_project),
        Err(ErrorKind::InputError("Upgrade selection c1 has no project id".to_string()))
    );
    let no_release = execution(
        vec![selection("c1", InstanceUpgradeAction::Upgrade, Some(ContentProvider::CurseForge), Some("p"), None)],
        vec![],
    );
    assert_eq!(
        upgrade_staging_requests(&no_release),
        Err(ErrorKind::InputError("Upgrade selection c1 has no target release".to_string()))
    );
    let no_dependency_release = execution(vec![], vec![change(InstanceUpgradeDependencyChangeKind::Add, None, "dep", None)]);
    assert_eq!(
        upgrade_staging_requests(&no_dependency_release),
        Err(ErrorKind::InputError("Dependency dep has no target release".to_string()))
    );
}
