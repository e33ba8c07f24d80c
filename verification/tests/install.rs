use theseus::install::{
    begin_failed_job_rollback, begin_waiting_for_user, curseforge_manual_download_pause,
    curseforge_world_was_imported_manually, is_content_settlement_event, latest_failure_phase,
    refresh_missing_pause_reason, CurseForgeManualDownload, DownloadItemStatus, InstallJobEvent, InstallJobEventKind,
    InstallJobState, InstallPauseReason, InstallPhaseDetails, InstallPhaseId, InstallRequest,
    InstanceLink, MissingModpackContentState, MissingModpackFile, ModLoader,
};

fn create_request(name: &str, game_version: &str, loader: ModLoader, link: InstanceLink) -> InstallRequest {
    InstallRequest::CreateInstance {
        name: name.to_string(),
        game_version: game_version.to_string(),
        loader,
        loader_version: None,
        adjuncts: Vec::new(),
        icon_path: None,
        link,
        game_dir_override: None,
    }
}

#[test]
fn recovered_curseforge_manual_item_clears_pause_count() {
    let path = "manual.jar".to_string();
    let mut job = InstallJobState::new(InstallRequest::CreateInstance {
        name: "CurseForge pack".to_string(),
        game_version: "1.12.2".to_string(),
        loader: ModLoader::Forge,
        loader_version: None,
        adjuncts: Vec::new(),
        icon_path: None,
        link: InstanceLink::CurseForgeModpack {
            project_id: "123".to_string(),
            version_id: "456".to_string(),
        },
        game_dir_override: None,
    });
    job.record_event(InstallJobEventKind::ContentFileSkipped {
        path: path.clone(),
        reason: "CurseForge requires manual download".to_string(),
        project_id: Some("10".to_string()),
        version_id: Some("20".to_string()),
        manual_url: Some(
            "https://www.curseforge.com/minecraft/mc-mods/example/download/20"
                .to_string(),
        ),
    });
    job.pause_reason = Some(InstallPauseReason::MissingRequiredContent {
        failed_files: 1,
        paths: vec![path.clone()],
    });
    job.record_event(InstallJobEventKind::ContentFileRecovered {
        path,
        bytes: 12,
    });

    refresh_missing_pause_reason(&mut job);

    assert_eq!(
        job.pause_reason,
        Some(InstallPauseReason::MissingRequiredContent {
            failed_files: 0,
            paths: Vec::new(),
        })
    );
}

#[test]
fn skipped_manual_items_stay_in_the_pause() {
    let mut job = InstallJobState::new(create_request("Pack", "1.20.1", ModLoader::Fabric, InstanceLink::Unmanaged));
    job.record_event(InstallJobEventKind::ContentFileSkipped {
        path: "mods/a.jar".to_string(),
        reason: "manual".to_string(),
        project_id: Some("1".to_string()),
        version_id: Some("2".to_string()),
        manual_url: Some("https://example.invalid/a".to_string()),
    });
    job.record_event(InstallJobEventKind::ContentFileSkipped {
        path: "mods/b.jar".to_string(),
        reason: "no url".to_string(),
        project_id: Some("1".to_string()),
        version_id: Some("3".to_string()),
        manual_url: None,
    });
    job.record_event(InstallJobEventKind::ContentFileCompleted {
        path: "mods/c.jar".to_string(),
        bytes: 5,
    });
    job.pause_reason = Some(InstallPauseReason::MissingRequiredContent {
        failed_files: 9,
        paths: vec!["stale".to_string()],
    });
    refresh_missing_pause_reason(&mut job);
    assert_eq!(
        job.pause_reason,
        Some(InstallPauseReason::MissingRequiredContent {
            failed_files: 1,
            paths: vec!["mods/a.jar".to_string()],
        })
    );
    // Refreshing again changes nothing.
    refresh_missing_pause_reason(&mut job);
    assert_eq!(
        job.pause_reason,
        Some(InstallPauseReason::MissingRequiredContent {
            failed_files: 1,
            paths: vec!["mods/a.jar".to_string()],
        })
    );
}

#[test]
fn missing_content_pause_lists_only_failed_files() {
    let mut job = InstallJobState::new(create_request("Pack", "1.20.1", ModLoader::Fabric, InstanceLink::Unmanaged));
    job.missing_content = Some(MissingModpackContentState {
        files: vec![
            MissingModpackFile { item_id: "mods/a.jar".to_string() },
            MissingModpackFile { item_id: "mods/b.jar".to_string() },
            MissingModpackFile { item_id: "mods/c.jar".to_string() },
        ],
    });
    job.record_event(InstallJobEventKind::ContentFileFailed {
        path: "mods/a.jar".to_string(),
        reason: "404".to_string(),
    });
    job.record_event(InstallJobEventKind::ContentFileFailed {
        path: "mods/b.jar".to_string(),
        reason: "404".to_string(),
    });
    job.record_event(InstallJobEventKind::ContentFileRecovered {
        path: "mods/b.jar".to_string(),
        bytes: 3,
    });
    job.pause_reason = Some(InstallPauseReason::MissingRequiredContent {
        failed_files: 3,
        paths: Vec::new(),
    });
    refresh_missing_pause_reason(&mut job);
    assert_eq!(
        job.pause_reason,
        Some(InstallPauseReason::MissingRequiredContent {
            failed_files: 1,
            paths: vec!["mods/a.jar".to_string()],
        })
    );
}

#[test]
fn refresh_leaves_jobs_without_a_missing_content_pause() {
    let mut job = InstallJobState::new(create_request("Pack", "1.20.1", ModLoader::Vanilla, InstanceLink::Unmanaged));
    job.record_event(InstallJobEventKind::ContentFileFailed {
        path: "mods/a.jar".to_string(),
        reason: "404".to_string(),
    });
    refresh_missing_pause_reason(&mut job);
    assert_eq!(job.pause_reason, None);
}

#[test]
fn download_items_follow_the_latest_event_per_path() {
    let mut job = InstallJobState::new(create_request("Pack", "1.20.1", ModLoader::Vanilla, InstanceLink::Unmanaged));
    job.record_event(InstallJobEventKind::ContentFileSkipped {
        path: "world.zip".to_string(),
        reason: "manual".to_string(),
        project_id: Some("42".to_string()),
        version_id: Some("7".to_string()),
        manual_url: Some("https://example.invalid".to_string()),
    });
    job.record_event(InstallJobEventKind::JobStarted);
    job.record_event(InstallJobEventKind::ContentFileCompleted {
        path: "other.jar".to_string(),
        bytes: 1,
    });
    job.record_event(InstallJobEventKind::ContentFileRecovered {
        path: "world.zip".to_string(),
        bytes: 100,
    });
    let items = job.download_items();
    assert_eq!(items.len(), 2);
    assert_eq!(items[0].id, "world.zip");
    assert_eq!(items[0].status, DownloadItemStatus::Completed);
    assert_eq!(items[0].project_id.as_deref(), Some("42"));
    assert_eq!(items[1].id, "other.jar");
    assert!(curseforge_world_was_imported_manually(&job, 42, 7));
    assert!(!curseforge_world_was_imported_manually(&job, 42, 8));
    assert!(!curseforge_world_was_imported_manually(&job, 4, 7));
}

#[test]
fn failure_phase_prefers_the_later_phase_start() {
    let mut execution = InstallJobState::new(create_request("Pack", "1.20.1", ModLoader::Vanilla, InstanceLink::Unmanaged));
    let mut reporter = InstallJobState::new(create_request("Pack", "1.20.1", ModLoader::Vanilla, InstanceLink::Unmanaged));
    assert_eq!(latest_failure_phase(&execution, &reporter), InstallPhaseId::Queued);
    reporter.set_progress(InstallPhaseId::Finalizing, None, InstallPhaseDetails::Empty);
    assert_eq!(latest_failure_phase(&execution, &reporter), InstallPhaseId::Finalizing);
    execution.set_progress(InstallPhaseId::DownloadingContent, None, InstallPhaseDetails::Empty);
    assert_eq!(latest_failure_phase(&execution, &InstallJobState::new(create_request("Pack", "1.20.1", ModLoader::Vanilla, InstanceLink::Unmanaged))), InstallPhaseId::DownloadingContent);
    execution.events = vec![InstallJobEvent {
        at: 100,
        kind: InstallJobEventKind::PhaseStarted { phase: InstallPhaseId::DownloadingContent },
    }];
    reporter.events = vec![InstallJobEvent {
        at: 200,
        kind: InstallJobEventKind::PhaseStarted { phase: InstallPhaseId::DownloadingMinecraft },
    }];
    assert_eq!(latest_failure_phase(&execution, &reporter), InstallPhaseId::DownloadingMinecraft);
    reporter.events[0].at = 100;
    assert_eq!(latest_failure_phase(&execution, &reporter), InstallPhaseId::DownloadingContent);
}

#[test]
fn failed_job_rolls_back_with_its_failure_recorded() {
    let mut job = InstallJobState::new(create_request("Pack", "1.20.1", ModLoader::Vanilla, InstanceLink::Unmanaged));
    job.cleanup = vec!["instances/pack".to_string()];
    job.set_progress(InstallPhaseId::DownloadingContent, None, InstallPhaseDetails::Empty);
    let before = job.events.len();
    begin_failed_job_rollback(&mut job, "network", "connection reset");
    assert_eq!(job.progress.phase, InstallPhaseId::RollingBack);
    assert!(job.progress.progress.is_none());
    assert_eq!(job.events.len(), before + 2);
    match &job.events[before].kind {
        InstallJobEventKind::Failed { phase, code, message } => {
            assert_eq!(*phase, InstallPhaseId::DownloadingContent);
            assert_eq!(code, "network");
            assert_eq!(message, "connection reset");
        }
        other => panic!("unexpected event {other:?}"),
    }
    match &job.events[before + 1].kind {
        InstallJobEventKind::RollbackStarted { cleanup } => {
            assert_eq!(cleanup, &vec!["instances/pack".to_string()]);
        }
        other => panic!("unexpected event {other:?}"),
    }
    let error = job.error.unwrap();
    assert_eq!(error.phase, InstallPhaseId::DownloadingContent);
    assert_eq!(error.code, "network");
}

#[test]
fn waiting_for_user_clears_errors_and_records_the_pause() {
    let mut job = InstallJobState::new(create_request("Pack", "1.20.1", ModLoader::Vanilla, InstanceLink::Unmanaged));
    begin_failed_job_rollback(&mut job, "x", "y");
    let reason = InstallPauseReason::MissingRequiredContent {
        failed_files: 2,
        paths: vec!["a".to_string(), "b".to_string()],
    };
    begin_waiting_for_user(&mut job, reason.clone());
    assert!(job.error.is_none());
    assert!(job.context.is_none());
    assert_eq!(job.pause_reason, Some(reason.clone()));
    match &job.events.last().unwrap().kind {
        InstallJobEventKind::WaitingForUser { reason: recorded } => assert_eq!(recorded, &reason),
        other => panic!("unexpected event {other:?}"),
    }
}

#[test]
fn manual_download_pause_skips_what_the_user_skipped() {
    let downloads = vec![
        CurseForgeManualDownload { file_name: "a.jar".to_string() },
        CurseForgeManualDownload { file_name: "b.jar".to_string() },
        CurseForgeManualDownload { file_name: "c.jar".to_string() },
    ];
    assert_eq!(
        curseforge_manual_download_pause(&downloads, &["b.jar".to_string()]),
        Some(InstallPauseReason::MissingRequiredContent {
            failed_files: 2,
            paths: vec!["a.jar".to_string(), "c.jar".to_string()],
        })
    );
    assert_eq!(
        curseforge_manual_download_pause(
            &downloads,
            &["a.jar".to_string(), "b.jar".to_string(), "c.jar".to_string()]
        ),
        None
    );
    assert_eq!(curseforge_manual_download_pause(&[], &[]), None);
}

#[test]
fn settlement_events_are_the_content_file_outcomes() {
    assert!(is_content_settlement_event(&InstallJobEventKind::ContentFileCompleted {
        path: "a".to_string(),
        bytes: 1
    }));
    assert!(is_content_settlement_event(&InstallJobEventKind::ContentFileFailed {
        path: "a".to_string(),
        reason: "r".to_string()
    }));
    assert!(!is_content_settlement_event(&InstallJobEventKind::JobStarted));
    assert!(!is_content_settlement_event(&InstallJobEventKind::DownloadMetrics {
        source: "s".to_string(),
        fallback_count: 0
    }));
}
