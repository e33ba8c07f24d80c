use theseus::upgrade_warnings::{
    physical_upgrade_warning_code, upgrade_compatibility_warning_details, ContentProvider,
    InstanceUpgradeAction, InstanceUpgradeCompatibilityWarning, InstanceUpgradeExecution,
    InstanceUpgradeIssueCode, InstanceUpgradeItem, InstanceUpgradeItemStatus, InstanceUpgradeResolution,
    InstanceUpgradeSelection, InstanceUpgradeSolution, InstanceUpgradeWarning,
};

fn item(
    id: &str,
    path: &str,
    provider: ContentProvider,
    project: Option<&str>,
    status: InstanceUpgradeItemStatus,
    action: InstanceUpgradeAction,
) -> InstanceUpgradeItem {
    InstanceUpgradeItem {
        content_id: id.to_string(),
        relative_path: path.to_string(),
        provider,
        project_id: project.map(|p| p.to_string()),
        status,
        resolution: InstanceUpgradeResolution { action },
    }
}

fn warning(
    code: InstanceUpgradeIssueCode,
    content_id: Option<&str>,
    provider: ContentProvider,
    project: Option<&str>,
    conflicting: Option<&str>,
) -> InstanceUpgradeWarning {
    InstanceUpgradeWarning {
        code,
        content_id: content_id.map(|c| c.to_string()),
        provider,
        project_id: project.map(|p| p.to_string()),
        conflicting_project_id: conflicting.map(|c| c.to_string()),
    }
}

fn detail(
    code: InstanceUpgradeIssueCode,
    path: Option<&str>,
    content_id: Option<&str>,
    provider: ContentProvider,
    project: Option<&str>,
    conflicting: Option<&str>,
) -> InstanceUpgradeCompatibilityWarning {
    InstanceUpgradeCompatibilityWarning {
        code,
        relative_path: path.map(|p| p.to_string()),
        content_id: content_id.map(|c| c.to_string()),
        provider,
        project_id: project.map(|p| p.to_string()),
        conflicting_project_id: conflicting.map(|c| c.to_string()),
    }
}

#[test]
fn kept_incompatible_content_is_warned_unless_upgraded() {
    let kept = item(
        "c1",
        "mods/old.jar",
        ContentProvider::Modrinth,
        Some("p1"),
        InstanceUpgradeItemStatus::NoCompatibleRelease,
        InstanceUpgradeAction::Keep,
    );
    let mut execution = InstanceUpgradeExecution {
        items: vec![kept.clone()],
        warnings: vec![],
        solution: InstanceUpgradeSolution { selections: vec![], dependency_changes: vec![] },
    };
    assert_eq!(
        physical_upgrade_warning_code(&execution, &kept),
        Some(InstanceUpgradeIssueCode::KeepIncompatible)
    );
    execution.solution.selections.push(InstanceUpgradeSelection {
        content_id: "c1".to_string(),
        action: InstanceUpgradeAction::Upgrade,
        provider: Some(ContentProvider::Modrinth),
        project_id: Some("p1".to_string()),
        target_release_id: Some("r2".to_string()),
        enabled: true,
    });
    assert_eq!(physical_upgrade_warning_code(&execution, &kept), None);
    let unknown = item(
        "c2",
        "mods/x.jar",
        ContentProvider::Local,
        None,
        InstanceUpgradeItemStatus::Unidentified,
        InstanceUpgradeAction::Upgrade,
    );
    assert_eq!(
        physical_upgrade_warning_code(&execution, &unknown),
        Some(InstanceUpgradeIssueCode::Unidentified)
    );
}

#[test]
fn warnings_are_tied_to_their_items_and_physical_ones_are_added() {
    let items = vec![
        item(
            "c1",
            "mods/a.jar",
            ContentProvider::Modrinth,
            Some("p1"),
            InstanceUpgradeItemStatus::NoCompatibleRelease,
            InstanceUpgradeAction::Keep,
        ),
        item(
            "c2",
            "mods/b.jar",
            ContentProvider::Modrinth,
            Some("p1"),
            InstanceUpgradeItemStatus::NoCompatibleRelease,
            InstanceUpgradeAction::Keep,
        ),
        item(
            "c3",
            "shaderpacks/s.zip",
            ContentProvider::CurseForge,
            Some("p3"),
            InstanceUpgradeItemStatus::ShaderRuntimeMissing,
            InstanceUpgradeAction::Keep,
        ),
    ];
    let execution = InstanceUpgradeExecution {
        items,
        warnings: vec![
            warning(InstanceUpgradeIssueCode::KeepIncompatible, Some("c1"), ContentProvider::Modrinth, Some("p1"), None),
            warning(InstanceUpgradeIssueCode::DependencyConflict, None, ContentProvider::CurseForge, Some("p3"), Some("p9")),
            warning(InstanceUpgradeIssueCode::KeepIncompatible, None, ContentProvider::Modrinth, Some("p1"), None),
        ],
        solution: InstanceUpgradeSolution { selections: vec![], dependency_changes: vec![] },
    };
    assert_eq!(
        upgrade_compatibility_warning_details(&execution),
        vec![
            detail(
                InstanceUpgradeIssueCode::KeepIncompatible,
                Some("mods/a.jar"),
                Some("c1"),
                ContentProvider::Modrinth,
                Some("p1"),
                None,
            ),
            detail(
                InstanceUpgradeIssueCode::DependencyConflict,
                Some("shaderpacks/s.zip"),
                Some("c3"),
                ContentProvider::CurseForge,
                Some("p3"),
                Some("p9"),
            ),
            detail(
                InstanceUpgradeIssueCode::KeepIncompatible,
                Some("mods/b.jar"),
                Some("c2"),
                ContentProvider::Modrinth,
                Some("p1"),
                None,
            ),
        ]
    );
}

#[test]
fn unmatched_warnings_stay_unless_an_item_stands_for_their_code() {
    let execution = InstanceUpgradeExecution {
        items: vec![item(
            "c1",
            "mods/a.jar",
            ContentProvider::Local,
            None,
            InstanceUpgradeItemStatus::Unidentified,
            InstanceUpgradeAction::Keep,
        )],
        warnings: vec![
            warning(InstanceUpgradeIssueCode::Unidentified, Some("gone"), ContentProvider::Modrinth, Some("px"), None),
            warning(InstanceUpgradeIssueCode::ShaderRuntimeUnknown, Some("gone"), ContentProvider::Modrinth, Some("px"), None),
        ],
        solution: InstanceUpgradeSolution { selections: vec![], dependency_changes: vec![] },
    };
    assert_eq!(
        upgrade_compatibility_warning_details(&execution),
        vec![
            detail(
                InstanceUpgradeIssueCode::ShaderRuntimeUnknown,
                None,
                Some("gone"),
                ContentProvider::Modrinth,
                Some("px"),
                None,
            ),
            detail(
                InstanceUpgradeIssueCode::Unidentified,
                Some("mods/a.jar"),
                Some("c1"),
                ContentProvider::Local,
                None,
                None,
            ),
        ]
    );
}

#[test]
fn without_plan_warnings_no_details_are_shown() {
    let kept = item(
        "c1",
        "mods/old.jar",
        ContentProvider::Modrinth,
        Some("p1"),
        InstanceUpgradeItemStatus::NoCompatibleRelease,
        InstanceUpgradeAction::Keep,
    );
    let execution = InstanceUpgradeExecution {
        items: vec![kept],
        warnings: vec![],
        solution: InstanceUpgradeSolution { selections: vec![], dependency_changes: vec![] },
    };
    assert!(upgrade_compatibility_warning_details(&execution).is_empty());
}
