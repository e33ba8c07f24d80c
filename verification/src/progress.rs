//! The progress reporter of an install job: when it writes checkpoints of the job's
//! state, and how it measures the downloads it shows.
use vstd::prelude::*;

use crate::install::{
    is_content_settlement_event, is_content_settlement_spec, now_millis, DownloadItemStatus,
    InstallJobEvent, InstallJobEventKind, InstallJobState, InstallParallelProgress, InstallPhaseDetails, InstallPhaseId, InstallProgress,
};

verus! {

/// Settled content files that force a checkpoint.
pub const CONTENT_CHECKPOINT_FILE_COUNT: usize = 25;

/// Milliseconds after the last write at which settled files are checkpointed anyway.
pub const CONTENT_CHECKPOINT_INTERVAL_MS: u64 = 2000;

/// Bytes a download must advance before its progress is shown again (at least).
pub const LIVE_PROGRESS_MIN_BYTES: u64 = 65536;

/// The reporter's bookkeeping around a job.
#[derive(Debug)]
pub struct InstallProgressReporterState {
    pub job: InstallJobState,
    /// When the job was last written (milliseconds).
    pub last_persisted_at_ms: u64,
    /// Phase and counter of the last written progress.
    pub last_persisted_progress: Option<(InstallPhaseId, u64)>,
    pub settled_files_since_checkpoint: usize,
    pub checkpoint_scheduled: bool,
    pub checkpoint_in_flight: bool,
}

/// The phase and counter that a write of `job` records.
pub open spec fn persisted_progress(job: InstallJobState) -> Option<(InstallPhaseId, u64)> {
    match job.progress.progress {
        Some(p) => Some((job.progress.phase, p.current)),
        None => None,
    }
}

/// How long to wait before a checkpoint: what is left of the interval since the last write.
pub open spec fn checkpoint_delay_spec(last_persisted_at_ms: u64, now_ms: u64) -> u64 {
    let elapsed = if now_ms >= last_persisted_at_ms {
        now_ms - last_persisted_at_ms
    } else {
        0
    };
    if elapsed >= CONTENT_CHECKPOINT_INTERVAL_MS {
        0
    } else {
        (CONTENT_CHECKPOINT_INTERVAL_MS - elapsed) as u64
    }
}

/// What is left of the checkpoint interval at `now_ms`.
pub fn checkpoint_delay(last_persisted_at_ms: u64, now_ms: u64) -> (d: u64)
    ensures
        d == checkpoint_delay_spec(last_persisted_at_ms, now_ms),
        d <= CONTENT_CHECKPOINT_INTERVAL_MS,
{
    let elapsed = now_ms.saturating_sub(last_persisted_at_ms);
    CONTENT_CHECKPOINT_INTERVAL_MS.saturating_sub(elapsed)
}

/// A checkpoint is due when none is being written, some files have settled since the
/// last one, and either enough files have settled or the interval has passed.
pub open spec fn checkpoint_due_spec(state: InstallProgressReporterState, now_ms: u64) -> bool {
    &&& !state.checkpoint_in_flight
    &&& state.settled_files_since_checkpoint > 0
    &&& (state.settled_files_since_checkpoint >= CONTENT_CHECKPOINT_FILE_COUNT
        || now_ms >= state.last_persisted_at_ms + CONTENT_CHECKPOINT_INTERVAL_MS)
}

/// The kinds of the events in a job's log, in order.
pub open spec fn event_kinds(events: Seq<InstallJobEvent>) -> Seq<InstallJobEventKind> {
    events.map_values(|e: InstallJobEvent| e.kind)
}

/// The number of settlement events in `events`.
pub open spec fn settlement_count(events: Seq<InstallJobEventKind>) -> nat
    decreases events.len(),
{
    if events.len() == 0 {
        0
    } else {
        settlement_count(events.drop_last()) + if is_content_settlement_spec(events.last()) {
            1nat
        } else {
            0nat
        }
    }
}

/// What the reporter does after an update: write a checkpoint now (counting that many
/// settled files), and/or schedule a later one after a delay.
#[derive(Debug, PartialEq, Eq, Structural)]
pub struct CheckpointPlan {
    pub persist_settled: Option<usize>,
    pub schedule_delay: Option<u64>,
}

impl InstallProgressReporterState {
    /// State for a job that was just written at `now_ms`.
    pub fn new(job: InstallJobState, now_ms: u64) -> (s: Self)
        ensures
            s.job == job,
            s.last_persisted_at_ms == now_ms,
            s.last_persisted_progress is None,
            s.settled_files_since_checkpoint == 0,
            !s.checkpoint_scheduled,
            !s.checkpoint_in_flight,
    {
        InstallProgressReporterState {
            job,
            last_persisted_at_ms: now_ms,
            last_persisted_progress: None,
            settled_files_since_checkpoint: 0,
            checkpoint_scheduled: false,
            checkpoint_in_flight: false,
        }
    }

    /// Notes that the whole job was just written: nothing is pending any more.
    pub fn mark_persisted(&mut self)
        ensures
            final(self).settled_files_since_checkpoint == 0,
            final(self).last_persisted_progress == persisted_progress(old(self).job),
            final(self).job == old(self).job,
            final(self).checkpoint_scheduled == old(self).checkpoint_scheduled,
            final(self).checkpoint_in_flight == old(self).checkpoint_in_flight,
    {
        self.last_persisted_at_ms = now_millis();
        self.settled_files_since_checkpoint = 0;
        self.last_persisted_progress = match &self.job.progress.progress {
            Some(progress) => Some((self.job.progress.phase, progress.current)),
            None => None,
        };
    }

    /// Notes that a checkpoint holding `settled_files` settled files was written; files
    /// settled since then stay pending.
    pub fn mark_checkpoint_persisted(&mut self, settled_files: usize)
        ensures
            final(self).settled_files_since_checkpoint == if old(self).settled_files_since_checkpoint
                >= settled_files {
                (old(self).settled_files_since_checkpoint - settled_files) as usize
            } else {
                0
            },
            final(self).last_persisted_progress == persisted_progress(old(self).job),
            final(self).job == old(self).job,
            final(self).checkpoint_scheduled == old(self).checkpoint_scheduled,
            final(self).checkpoint_in_flight == old(self).checkpoint_in_flight,
    {
        self.last_persisted_at_ms = now_millis();
        self.settled_files_since_checkpoint = self.settled_files_since_checkpoint.saturating_sub(
            settled_files,
        );
        self.last_persisted_progress = match &self.job.progress.progress {
            Some(progress) => Some((self.job.progress.phase, progress.current)),
            None => None,
        };
    }

    /// Schedules a checkpoint at `now_ms` if files are pending and no checkpoint is
    /// scheduled or being written; returns the delay until it is due.
    pub fn schedule_checkpoint_at(&mut self, now_ms: u64) -> (r: Option<u64>)
        ensures
            (old(self).settled_files_since_checkpoint == 0 || old(self).checkpoint_scheduled
                || old(self).checkpoint_in_flight) ==> r is None && *final(self) == *old(self),
            !(old(self).settled_files_since_checkpoint == 0 || old(self).checkpoint_scheduled
                || old(self).checkpoint_in_flight) ==> r == Some(
                checkpoint_delay_spec(old(self).last_persisted_at_ms, now_ms),
            ) && *final(self) == (InstallProgressReporterState {
                checkpoint_scheduled: true,
                ..*old(self)
            }),
    {
        if self.settled_files_since_checkpoint == 0 || self.checkpoint_scheduled
            || self.checkpoint_in_flight {
            return None;
        }
        self.checkpoint_scheduled = true;
        Some(checkpoint_delay(self.last_persisted_at_ms, now_ms))
    }

    /// Schedules a checkpoint now if one is needed (see `schedule_checkpoint_at`).
    pub fn schedule_checkpoint_if_needed(&mut self) -> (r: Option<u64>)
        ensures
            (old(self).settled_files_since_checkpoint == 0 || old(self).checkpoint_scheduled
                || old(self).checkpoint_in_flight) ==> r is None && *final(self) == *old(self),
            !(old(self).settled_files_since_checkpoint == 0 || old(self).checkpoint_scheduled
                || old(self).checkpoint_in_flight) ==> (r matches Some(d) && d
                <= CONTENT_CHECKPOINT_INTERVAL_MS) && *final(self) == (InstallProgressReporterState {
                checkpoint_scheduled: true,
                ..*old(self)
            }),
    {
        let now = now_millis();
        self.schedule_checkpoint_at(now)
    }

    /// Whether a checkpoint is due at `now_ms`.
    pub fn checkpoint_due(&self, now_ms: u64) -> (r: bool)
        ensures
            r == checkpoint_due_spec(*self, now_ms),
    {
        !self.checkpoint_in_flight && self.settled_files_since_checkpoint > 0 && (
        self.settled_files_since_checkpoint >= CONTENT_CHECKPOINT_FILE_COUNT || (
        now_ms >= self.last_persisted_at_ms && now_ms - self.last_persisted_at_ms
            >= CONTENT_CHECKPOINT_INTERVAL_MS))
    }

    /// Applies a progress update with its events at `now_ms`: moves the job's phase,
    /// records the events, counts the settled files (saturating), starts a checkpoint if
    /// one is due, and schedules one if files are still pending.
    pub fn apply_update(
        &mut self,
        phase: InstallPhaseId,
        progress: Option<InstallProgress>,
        details: InstallPhaseDetails,
        events: Vec<InstallJobEventKind>,
        now_ms: u64,
    ) -> (plan: CheckpointPlan)
        ensures
            ({
                let settled = if old(self).settled_files_since_checkpoint + settlement_count(events@)
                    > usize::MAX {
                    usize::MAX as int
                } else {
                    old(self).settled_files_since_checkpoint + settlement_count(events@)
                };
                let counted = InstallProgressReporterState {
                    settled_files_since_checkpoint: settled as usize,
                    ..*old(self)
                };
                let due = checkpoint_due_spec(counted, now_ms);
                &&& final(self).settled_files_since_checkpoint == settled
                &&& final(self).checkpoint_in_flight == (old(self).checkpoint_in_flight || due)
                &&& due ==> plan.persist_settled == Some(settled as usize)
                &&& !due ==> plan.persist_settled is None
                &&& (plan.schedule_delay is Some) == (settled > 0 && !old(
                    self,
                ).checkpoint_scheduled && !old(self).checkpoint_in_flight && !due)
                &&& plan.schedule_delay is Some ==> plan.schedule_delay == Some(
                    checkpoint_delay_spec(old(self).last_persisted_at_ms, now_ms),
                )
                &&& final(self).checkpoint_scheduled == (old(self).checkpoint_scheduled
                    || plan.schedule_delay is Some)
            }),
            final(self).job.progress.phase == phase,
            final(self).job.progress.progress == progress,
            final(self).job.progress.details == details,
            final(self).job.progress.parallel == old(self).job.progress.parallel,
            event_kinds(final(self).job.events@) == event_kinds(old(self).job.events@) + (if phase
                == old(self).job.progress.phase {
                Seq::<InstallJobEventKind>::empty()
            } else {
                seq![InstallJobEventKind::PhaseStarted { phase }]
            }) + events@,
            final(self).job.request == old(self).job.request,
            final(self).job.error == old(self).job.error,
            final(self).job.rollback_error == old(self).job.rollback_error,
            final(self).job.pause_reason == old(self).job.pause_reason,
            final(self).job.context == old(self).job.context,
            final(self).job.cleanup == old(self).job.cleanup,
            final(self).job.missing_content == old(self).job.missing_content,
            final(self).last_persisted_at_ms == old(self).last_persisted_at_ms,
            final(self).last_persisted_progress == old(self).last_persisted_progress,
    {
        let mut settled_files: usize = 0;
        let mut i: usize = 0;
        while i < events.len()
            invariant
                i <= events.len(),
                settled_files == settlement_count(events@.take(i as int)),
                settled_files <= i,
            decreases events.len() - i,
        {
            assert(events@.take(i + 1).drop_last() =~= events@.take(i as int));
            if is_content_settlement_event(&events[i]) {
                settled_files = settled_files + 1;
            }
            i = i + 1;
        }
        assert(events@.take(events.len() as int) =~= events@);
        let ghost start = self.job;
        self.job.set_progress(phase, progress, details);
        let ghost before = *self;
        let ghost head = event_kinds(before.job.events@);
        let ghost evs = events@;
        assert(head == event_kinds(start.events@) + (if phase == start.progress.phase {
            Seq::<InstallJobEventKind>::empty()
        } else {
            seq![InstallJobEventKind::PhaseStarted { phase }]
        })) by {
            if phase != start.progress.phase {
                assert(before.job.events@ == start.events@.push(before.job.events@.last()));
            }
        }
        for event in it: events.into_iter()
            invariant
                self.job.progress == before.job.progress,
                it.seq() == evs,
                event_kinds(self.job.events@) == head + evs.take(it.index() as int),
                self.job.request == before.job.request,
                self.job.error == before.job.error,
                self.job.rollback_error == before.job.rollback_error,
                self.job.pause_reason == before.job.pause_reason,
                self.job.context == before.job.context,
                self.job.cleanup == before.job.cleanup,
                self.job.missing_content == before.job.missing_content,
                self.job.progress.phase == phase,
                self.job.progress.progress == progress,
                self.settled_files_since_checkpoint == before.settled_files_since_checkpoint,
                self.checkpoint_in_flight == before.checkpoint_in_flight,
                self.checkpoint_scheduled == before.checkpoint_scheduled,
                self.last_persisted_at_ms == before.last_persisted_at_ms,
                self.last_persisted_progress == before.last_persisted_progress,
        {
            let ghost prior = self.job.events@;
            self.job.record_event(event);
            proof {
                assert(self.job.events@ == prior.push(self.job.events@.last()));
                assert(evs.take(it.index() + 1) == evs.take(it.index() as int).push(event));
                assert(event_kinds(self.job.events@) == event_kinds(prior).push(event));
            }
        }
        self.settled_files_since_checkpoint = self.settled_files_since_checkpoint.saturating_add(
            settled_files,
        );
        let due = self.checkpoint_due(now_ms);
        let persist_settled = if due {
            self.checkpoint_in_flight = true;
            Some(self.settled_files_since_checkpoint)
        } else {
            None
        };
        let schedule_delay = self.schedule_checkpoint_at(now_ms);
        CheckpointPlan { persist_settled, schedule_delay }
    }

    /// Moves the parallel track (the one beside the main phase) to `phase` with
    /// `details`: its counters come from `progress`, else stay as they were (zero when
    /// there was no parallel track). The main phase and everything else are unchanged.
    pub fn apply_parallel_update(
        &mut self,
        phase: InstallPhaseId,
        progress: Option<InstallProgress>,
        details: InstallPhaseDetails,
    )
        ensures
            final(self).job.progress.parallel matches Some(p) && p.phase == phase && p.details == details
                && (p.current, p.total) == match progress {
                Some(q) => (q.current, q.total),
                None => match old(self).job.progress.parallel {
                    Some(prev) => (prev.current, prev.total),
                    None => (0u64, 0u64),
                },
            },
            final(self).job.progress.phase == old(self).job.progress.phase,
            final(self).job.progress.progress == old(self).job.progress.progress,
            final(self).job.progress.details == old(self).job.progress.details,
            final(self).job.events == old(self).job.events,
            final(self).job.request == old(self).job.request,
            final(self).job.error == old(self).job.error,
            final(self).job.rollback_error == old(self).job.rollback_error,
            final(self).job.pause_reason == old(self).job.pause_reason,
            final(self).job.context == old(self).job.context,
            final(self).job.cleanup == old(self).job.cleanup,
            final(self).job.missing_content == old(self).job.missing_content,
            final(self).last_persisted_at_ms == old(self).last_persisted_at_ms,
            final(self).last_persisted_progress == old(self).last_persisted_progress,
            final(self).settled_files_since_checkpoint == old(self).settled_files_since_checkpoint,
            final(self).checkpoint_scheduled == old(self).checkpoint_scheduled,
            final(self).checkpoint_in_flight == old(self).checkpoint_in_flight,
    {
        let (current, total) = match &progress {
            Some(p) => (p.current, p.total),
            None => match &self.job.progress.parallel {
                Some(prev) => (prev.current, prev.total),
                None => (0, 0),
            },
        };
        self.job.progress.parallel = Some(InstallParallelProgress { phase, current, total, details });
    }
}

/// A download in flight, as the reporter tracks it (times in milliseconds).
#[derive(Clone, Debug)]
pub struct ActiveDownloadState {
    pub name: String,
    pub url: String,
    pub source: String,
    pub bytes_downloaded: u64,
    pub bytes_total: Option<u64>,
    pub attempt: u32,
    pub max_attempts: u32,
    pub status: DownloadItemStatus,
    pub last_reported_bytes: u64,
    pub last_progress_at_ms: i64,
    pub speed_bytes_per_second: Option<u64>,
    pub speed_sample_started_at_ms: i64,
    pub speed_sample_started_bytes: u64,
}

/// Milliseconds from `start` to `now`, at least 1.
pub open spec fn sample_elapsed_ms(start: i64, now: i64) -> u64 {
    if now - start >= 1 {
        (now - start) as u64
    } else {
        1
    }
}

/// Bytes per second of a sample (saturating, as the counters do).
pub open spec fn sample_speed(bytes: u64, started_bytes: u64, elapsed_ms: u64) -> u64 {
    let advanced = if bytes >= started_bytes {
        bytes - started_bytes
    } else {
        0
    };
    let scaled = if advanced * 1000 > u64::MAX {
        u64::MAX as int
    } else {
        advanced * 1000
    };
    (scaled / (elapsed_ms as int)) as u64
}

/// The bytes a download must advance before it is shown again: 64 KiB, or half a
/// percent of the file when that is more.
pub open spec fn report_threshold(bytes_total: u64) -> u64 {
    if bytes_total / 200 > LIVE_PROGRESS_MIN_BYTES {
        bytes_total / 200
    } else {
        LIVE_PROGRESS_MIN_BYTES
    }
}

/// Updates a download with a new cumulative byte count at `now_ms`, and says whether the
/// new count is worth showing. A count that went back restarts the speed sample and
/// forgets the speed; one that advanced marks progress and, once a sample is 250 ms
/// old, measures the speed over it. A count is shown when it advanced by the threshold
/// since the last shown one and the file was not shown too recently.
pub fn apply_download_progress(
    active: &mut ActiveDownloadState,
    bytes: u64,
    bytes_total: u64,
    now_ms: i64,
    emit_too_soon: bool,
) -> (emit: bool)
    ensures
        final(active).bytes_downloaded == bytes,
        final(active).bytes_total == Some(bytes_total),
        final(active).status == DownloadItemStatus::Downloading,
        bytes < old(active).bytes_downloaded ==> final(active).speed_bytes_per_second is None
            && final(active).speed_sample_started_at_ms == now_ms
            && final(active).speed_sample_started_bytes == bytes
            && final(active).last_progress_at_ms == old(active).last_progress_at_ms,
        bytes == old(active).bytes_downloaded ==> final(active).speed_bytes_per_second == old(
            active,
        ).speed_bytes_per_second && final(active).speed_sample_started_at_ms == old(
            active,
        ).speed_sample_started_at_ms && final(active).speed_sample_started_bytes == old(
            active,
        ).speed_sample_started_bytes && final(active).last_progress_at_ms == old(
            active,
        ).last_progress_at_ms,
        bytes > old(active).bytes_downloaded ==> {
            let elapsed = sample_elapsed_ms(old(active).speed_sample_started_at_ms, now_ms);
            &&& final(active).last_progress_at_ms == now_ms
            &&& elapsed >= 250 ==> final(active).speed_bytes_per_second == Some(
                sample_speed(bytes, old(active).speed_sample_started_bytes, elapsed),
            ) && final(active).speed_sample_started_at_ms == now_ms
                && final(active).speed_sample_started_bytes == bytes
            &&& elapsed < 250 ==> final(active).speed_bytes_per_second == old(
                active,
            ).speed_bytes_per_second && final(active).speed_sample_started_at_ms == old(
                active,
            ).speed_sample_started_at_ms && final(active).speed_sample_started_bytes == old(
                active,
            ).speed_sample_started_bytes
        },
        emit == (!emit_too_soon && (if bytes >= old(active).last_reported_bytes {
            bytes - old(active).last_reported_bytes
        } else {
            0
        }) >= report_threshold(bytes_total)),
        emit ==> final(active).last_reported_bytes == bytes,
        !emit ==> final(active).last_reported_bytes == old(active).last_reported_bytes,
        final(active).name == old(active).name,
        final(active).url == old(active).url,
        final(active).source == old(active).source,
        final(active).attempt == old(active).attempt,
        final(active).max_attempts == old(active).max_attempts,
{
    let previous_bytes = active.bytes_downloaded;
    if bytes < previous_bytes {
        active.speed_bytes_per_second = None;
        active.speed_sample_started_at_ms = now_ms;
        active.speed_sample_started_bytes = bytes;
    } else if bytes > previous_bytes {
        active.last_progress_at_ms = now_ms;
        let start = active.speed_sample_started_at_ms;
        let elapsed: u64 = if now_ms > start && (now_ms as i128) - (start as i128) >= 1 {
            ((now_ms as i128) - (start as i128)) as u64
        } else {
            1
        };
        if elapsed >= 250 {
            let advanced = bytes.saturating_sub(active.speed_sample_started_bytes);
            let scaled: u64 = if advanced > u64::MAX / 1000 {
                proof {
                    assert(advanced * 1000 > u64::MAX) by (nonlinear_arith)
                        requires
                            advanced > u64::MAX / 1000,
                    ;
                }
                u64::MAX
            } else {
                proof {
                    assert(advanced * 1000 <= u64::MAX) by (nonlinear_arith)
                        requires
                            advanced <= u64::MAX / 1000,
                    ;
                }
                advanced * 1000
            };
            let sample = scaled / elapsed;
            active.speed_bytes_per_second = Some(sample);
            active.speed_sample_started_at_ms = now_ms;
            active.speed_sample_started_bytes = bytes;
        }
    }
    active.bytes_downloaded = bytes;
    active.bytes_total = Some(bytes_total);
    active.status = DownloadItemStatus::Downloading;
    let threshold = if bytes_total / 200 > LIVE_PROGRESS_MIN_BYTES {
        bytes_total / 200
    } else {
        LIVE_PROGRESS_MIN_BYTES
    };
    if bytes.saturating_sub(active.last_reported_bytes) < threshold || emit_too_soon {
        return false;
    }
    active.last_reported_bytes = bytes;
    true
}

} // verus!
