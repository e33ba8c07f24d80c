use theseus::install::{
    DownloadItemStatus, InstallJobEventKind, InstallJobState, InstallPhaseDetails, InstallPhaseId,
    InstallProgress, InstallRequest, InstanceLink, ModLoader,
};
use theseus::progress::{
    apply_download_progress, checkpoint_delay, ActiveDownloadState, CheckpointPlan,
    InstallProgressReporterState, CONTENT_CHECKPOINT_INTERVAL_MS,
};

fn job() -> InstallJobState {
    InstallJobState::new(InstallRequest::CreateInstance {
        name: "Test".to_string(),
        game_version: "1.21.1".to_string(),
        loader: ModLoader::Vanilla,
        loader_version: None,
        adjuncts: Vec::new(),
        icon_path: None,
        link: InstanceLink::Unmanaged,
        game_dir_override: None,
    })
}

fn completed(start: usize, count: usize) -> Vec<InstallJobEventKind> {
    (start..start + count)
        .map(|index| InstallJobEventKind::ContentFileCompleted { path: format!("mods/{index}.jar"), bytes: 1 })
        .collect()
}

fn progress(current: u64) -> Option<InstallProgress> {
    Some(InstallProgress { current, total: 100, secondary: None })
}

#[test]
fn content_settlements_checkpoint_by_count_and_time() {
    let mut state = InstallProgressReporterState::new(job(), 1_000);
    let plan = state.apply_update(InstallPhaseId::DownloadingContent, progress(24), InstallPhaseDetails::Empty, completed(0, 24), 1_000);
    assert_eq!(plan, CheckpointPlan { persist_settled: None, schedule_delay: Some(2_000) });
    assert_eq!(state.settled_files_since_checkpoint, 24);
    let plan = state.apply_update(InstallPhaseId::DownloadingContent, progress(25), InstallPhaseDetails::Empty, completed(24, 1), 1_100);
    assert_eq!(plan, CheckpointPlan { persist_settled: Some(25), schedule_delay: None });
    assert!(state.checkpoint_in_flight);
    state.checkpoint_in_flight = false;
    state.mark_checkpoint_persisted(25);
    assert_eq!(state.settled_files_since_checkpoint, 0);
    assert_eq!(state.last_persisted_progress, Some((InstallPhaseId::DownloadingContent, 25)));
    state.checkpoint_scheduled = false;
    let now = state.last_persisted_at_ms + CONTENT_CHECKPOINT_INTERVAL_MS;
    let plan = state.apply_update(InstallPhaseId::DownloadingContent, progress(26), InstallPhaseDetails::Empty, completed(25, 1), now);
    assert_eq!(plan.persist_settled, Some(1));
}

#[test]
fn checkpoints_are_scheduled_once() {
    let mut state = InstallProgressReporterState::new(job(), 0);
    assert_eq!(state.schedule_checkpoint_at(10), None);
    state.settled_files_since_checkpoint = 3;
    assert_eq!(state.schedule_checkpoint_at(500), Some(1_500));
    assert_eq!(state.schedule_checkpoint_at(600), None);
    assert!(state.checkpoint_scheduled);
    assert_eq!(checkpoint_delay(1_000, 500), 2_000);
    assert_eq!(checkpoint_delay(1_000, 5_000), 0);
    state.mark_persisted();
    assert_eq!(state.settled_files_since_checkpoint, 0);
}

#[test]
fn phase_changes_are_recorded_once() {
    let mut state = InstallProgressReporterState::new(job(), 0);
    state.apply_update(InstallPhaseId::DownloadingMinecraft, None, InstallPhaseDetails::Empty, Vec::new(), 0);
    state.apply_update(InstallPhaseId::DownloadingMinecraft, progress(1), InstallPhaseDetails::Empty, Vec::new(), 0);
    let started = state
        .job
        .events
        .iter()
        .filter(|e| matches!(e.kind, InstallJobEventKind::PhaseStarted { .. }))
        .count();
    assert_eq!(started, 1);
    assert_eq!(state.job.progress.phase, InstallPhaseId::DownloadingMinecraft);
}

fn active(bytes: u64, speed: Option<u64>, sample_at: i64, sample_bytes: u64, last_reported: u64) -> ActiveDownloadState {
    ActiveDownloadState {
        name: "file".to_string(),
        url: String::new(),
        source: String::new(),
        bytes_downloaded: bytes,
        bytes_total: Some(100),
        attempt: 1,
        max_attempts: 1,
        status: DownloadItemStatus::Verifying,
        last_reported_bytes: last_reported,
        last_progress_at_ms: 0,
        speed_bytes_per_second: speed,
        speed_sample_started_at_ms: sample_at,
        speed_sample_started_bytes: sample_bytes,
    }
}

#[test]
fn download_progress_speed_drops_without_retaining_the_peak() {
    let mib = 1024 * 1024;
    let mut download = active(40 * mib, Some(40 * mib), 0, 40 * mib, u64::MAX);
    let emit = apply_download_progress(&mut download, 42 * mib, 100 * mib, 1_000, false);
    assert!(!emit);
    let speed = download.speed_bytes_per_second.unwrap();
    assert!(speed > 0 && speed <= 2 * mib);
    assert_eq!(speed, 2 * mib);
    assert_eq!(download.status, DownloadItemStatus::Downloading);
}

#[test]
fn download_progress_restarts_and_throttles() {
    let mut download = active(500, Some(9), 0, 0, 0);
    assert!(!apply_download_progress(&mut download, 100, 1_000, 50, false));
    assert_eq!(download.speed_bytes_per_second, None);
    assert_eq!(download.speed_sample_started_at_ms, 50);
    let mut download = active(0, None, 0, 0, 0);
    assert!(apply_download_progress(&mut download, 70_000, 1_000_000, 100, false));
    assert_eq!(download.last_reported_bytes, 70_000);
    assert_eq!(download.speed_bytes_per_second, None);
    assert!(!apply_download_progress(&mut download, 140_000, 1_000_000, 400, true));
    assert_eq!(download.speed_bytes_per_second, Some(350_000));
    assert!(!apply_download_progress(&mut download, 141_000, 100_000_000, 500, false));
}

#[test]
fn updates_record_a_phase_start_then_their_events() {
    let mut state = InstallProgressReporterState::new(job(), 0);
    let before = state.job.events.len();
    let details = InstallPhaseDetails::Minecraft { game_version: "1.21.1".to_string(), loader: ModLoader::Vanilla };
    state.apply_update(InstallPhaseId::DownloadingContent, progress(1), details, completed(0, 2), 10);
    let kinds: Vec<String> = state.job.events[before..].iter().map(|e| format!("{:?}", e.kind)).collect();
    assert_eq!(kinds.len(), 3);
    assert!(kinds[0].starts_with("PhaseStarted"));
    assert!(kinds[1].contains("mods/0.jar") && kinds[2].contains("mods/1.jar"));
    assert!(matches!(state.job.progress.details, InstallPhaseDetails::Minecraft { .. }));
    state.apply_update(InstallPhaseId::DownloadingContent, progress(2), InstallPhaseDetails::Empty, completed(2, 1), 20);
    assert_eq!(state.job.events.len(), before + 4);
    assert!(matches!(state.job.progress.details, InstallPhaseDetails::Empty));
}

#[test]
fn parallel_updates_keep_counters_when_none_are_given() {
    let mut state = InstallProgressReporterState::new(job(), 0);
    state.apply_parallel_update(InstallPhaseId::DownloadingMinecraft, Some(InstallProgress { current: 5, total: 9, secondary: None }), InstallPhaseDetails::Empty);
    state.apply_parallel_update(InstallPhaseId::Finalizing, None, InstallPhaseDetails::Empty);
    let parallel = state.job.progress.parallel.as_ref().unwrap();
    assert_eq!(parallel.phase, InstallPhaseId::Finalizing);
    assert_eq!((parallel.current, parallel.total), (5, 9));
    let mut fresh = InstallProgressReporterState::new(job(), 0);
    fresh.apply_parallel_update(InstallPhaseId::DownloadingMinecraft, None, InstallPhaseDetails::Empty);
    let parallel = fresh.job.progress.parallel.as_ref().unwrap();
    assert_eq!((parallel.current, parallel.total), (0, 0));
}
