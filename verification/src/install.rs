//! Install jobs: their state, the event log that drives it, and the per-file download
//! items derived from that log.
use vstd::prelude::*;

use crate::text::str_eq;

verus! {

/// The mod loaders an instance can run.
#[derive(PartialEq, Eq, Structural, Clone, Copy, Debug)]
pub enum ModLoader {
    Vanilla,
    Forge,
    Fabric,
    Quilt,
    NeoForge,
    OptiFine,
    Cleanroom,
    LiteLoader,
    LegacyFabric,
    Babric,
}

/// The identifier of a mod loader.
pub open spec fn mod_loader_name(loader: ModLoader) -> Seq<char> {
    match loader {
        ModLoader::Vanilla => "vanilla"@,
        ModLoader::Forge => "forge"@,
        ModLoader::Fabric => "fabric"@,
        ModLoader::Quilt => "quilt"@,
        ModLoader::NeoForge => "neoforge"@,
        ModLoader::OptiFine => "optifine"@,
        ModLoader::Cleanroom => "cleanroom"@,
        ModLoader::LiteLoader => "liteloader"@,
        ModLoader::LegacyFabric => "legacy-fabric"@,
        ModLoader::Babric => "babric"@,
    }
}

impl ModLoader {
    /// The loader's identifier.
    pub fn as_str(&self) -> (r: &'static str)
        ensures
            r@ == mod_loader_name(*self),
    {
        match self {
            ModLoader::Vanilla => "vanilla",
            ModLoader::Forge => "forge",
            ModLoader::Fabric => "fabric",
            ModLoader::Quilt => "quilt",
            ModLoader::NeoForge => "neoforge",
            ModLoader::OptiFine => "optifine",
            ModLoader::Cleanroom => "cleanroom",
            ModLoader::LiteLoader => "liteloader",
            ModLoader::LegacyFabric => "legacy-fabric",
            ModLoader::Babric => "babric",
        }
    }
}

/// What an instance is linked to.
#[derive(Clone, Debug)]
pub enum InstanceLink {
    Unmanaged,
    ModrinthModpack { project_id: String, version_id: String },
    CurseForgeModpack { project_id: String, version_id: String },
}

/// The kinds of loader component an instance can carry.
#[derive(PartialEq, Eq, Structural, Clone, Copy, Debug)]
pub enum LoaderComponentKind {
    Vanilla,
    Forge,
    NeoForge,
    Fabric,
    LegacyFabric,
    Quilt,
    Cleanroom,
    Babric,
    OptiFine,
    LiteLoader,
    OptiFabric,
}

/// The identifier of a loader component kind.
pub open spec fn component_kind_name(kind: LoaderComponentKind) -> Seq<char> {
    match kind {
        LoaderComponentKind::Vanilla => "vanilla"@,
        LoaderComponentKind::Forge => "forge"@,
        LoaderComponentKind::NeoForge => "neoforge"@,
        LoaderComponentKind::Fabric => "fabric"@,
        LoaderComponentKind::LegacyFabric => "legacy-fabric"@,
        LoaderComponentKind::Quilt => "quilt"@,
        LoaderComponentKind::Cleanroom => "cleanroom"@,
        LoaderComponentKind::Babric => "babric"@,
        LoaderComponentKind::OptiFine => "optifine"@,
        LoaderComponentKind::LiteLoader => "liteloader"@,
        LoaderComponentKind::OptiFabric => "optifabric"@,
    }
}

impl LoaderComponentKind {
    /// The kind's identifier.
    pub fn as_str(&self) -> (r: &'static str)
        ensures
            r@ == component_kind_name(*self),
    {
        match self {
            LoaderComponentKind::Vanilla => "vanilla",
            LoaderComponentKind::Forge => "forge",
            LoaderComponentKind::NeoForge => "neoforge",
            LoaderComponentKind::Fabric => "fabric",
            LoaderComponentKind::LegacyFabric => "legacy-fabric",
            LoaderComponentKind::Quilt => "quilt",
            LoaderComponentKind::Cleanroom => "cleanroom",
            LoaderComponentKind::Babric => "babric",
            LoaderComponentKind::OptiFine => "optifine",
            LoaderComponentKind::LiteLoader => "liteloader",
            LoaderComponentKind::OptiFabric => "optifabric",
        }
    }
}

/// Whether a component is the instance's main loader or an add-on to it.
#[derive(PartialEq, Eq, Structural, Clone, Copy, Debug)]
pub enum LoaderComponentRole {
    Primary,
    Adjunct,
}

/// One loader component of an instance.
#[derive(Clone, Debug)]
pub struct LoaderComponent {
    pub instance_id: String,
    pub kind: LoaderComponentKind,
    pub version: Option<String>,
    pub role: LoaderComponentRole,
}

/// What an install job was asked to do.
#[derive(Clone, Debug)]
pub enum InstallRequest {
    CreateInstance {
        name: String,
        game_version: String,
        loader: ModLoader,
        loader_version: Option<String>,
        adjuncts: Vec<LoaderComponent>,
        icon_path: Option<String>,
        link: InstanceLink,
        game_dir_override: Option<String>,
    },
    /// Brings an instance that no pack manages up to a newer content set.
    UpgradeUnmanagedInstance { instance_id: String },
}

/// The phases an install job passes through.
#[derive(PartialEq, Eq, Structural, Clone, Copy, Debug)]
pub enum InstallPhaseId {
    Queued,
    DownloadingPackFile,
    DownloadingMinecraft,
    DownloadingContent,
    Finalizing,
    RollingBack,
    Completed,
}

/// Progress inside a phase, with an optional byte counter.
#[derive(PartialEq, Eq, Structural, Clone, Copy, Debug)]
pub struct InstallProgress {
    pub current: u64,
    pub total: u64,
    pub secondary: Option<InstallProgressSecondary>,
}

/// A secondary progress counter (bytes).
#[derive(PartialEq, Eq, Structural, Clone, Copy, Debug)]
pub struct InstallProgressSecondary {
    pub current: u64,
    pub total: u64,
}

/// What a phase is working on.
#[derive(Clone, Debug)]
pub enum InstallPhaseDetails {
    Empty,
    Minecraft { game_version: String, loader: ModLoader },
}

/// Progress of the track that runs beside the main phase.
#[derive(Clone, Debug)]
pub struct InstallParallelProgress {
    pub phase: InstallPhaseId,
    pub current: u64,
    pub total: u64,
    pub details: InstallPhaseDetails,
}

/// Where a job stands.
#[derive(Clone, Debug)]
pub struct InstallProgressState {
    pub phase: InstallPhaseId,
    pub progress: Option<InstallProgress>,
    pub details: InstallPhaseDetails,
    pub parallel: Option<InstallParallelProgress>,
}

/// Why a job waits for the user.
#[derive(Clone, Debug, PartialEq, Eq)]
pub enum InstallPauseReason {
    /// Required files could not be installed; the user must supply them.
    MissingRequiredContent { failed_files: u64, paths: Vec<String> },
}

/// The operation that was running when a job failed.
#[derive(Clone, Debug)]
pub struct InstallErrorContext {
    pub operation: String,
    pub project_id: Option<String>,
    pub version_id: Option<String>,
    pub source_path: Option<String>,
}

/// A failure as the user sees it.
#[derive(Clone, Debug)]
pub struct InstallErrorView {
    pub code: String,
    pub phase: InstallPhaseId,
    pub message: String,
    pub context: Option<InstallErrorContext>,
}

/// A required file the user has to supply.
#[derive(Clone, Debug)]
pub struct MissingModpackFile {
    pub item_id: String,
}

/// The required files of a modpack that are still missing.
#[derive(Clone, Debug)]
pub struct MissingModpackContentState {
    pub files: Vec<MissingModpackFile>,
}

/// Where a downloaded file stands.
#[derive(PartialEq, Eq, Structural, Clone, Copy, Debug)]
pub enum DownloadItemStatus {
    Downloading,
    Verifying,
    Completed,
    Skipped,
    Failed,
}

/// What happened in a job.
#[derive(Clone, Debug)]
pub enum InstallJobEventKind {
    JobStarted,
    PhaseStarted { phase: InstallPhaseId },
    Failed { phase: InstallPhaseId, code: String, message: String },
    RollbackStarted { cleanup: Vec<String> },
    WaitingForUser { reason: InstallPauseReason },
    ContentFileCompleted { path: String, bytes: u64 },
    ContentFileRecovered { path: String, bytes: u64 },
    ContentFileSkipped {
        path: String,
        reason: String,
        project_id: Option<String>,
        version_id: Option<String>,
        manual_url: Option<String>,
    },
    ContentFileFailed { path: String, reason: String },
    DownloadMetrics { source: String, fallback_count: u64 },
    JobSucceeded { instance_id: Option<String> },
    JobCanceled { phase: InstallPhaseId },
}

/// An event and when it happened (milliseconds since the Unix epoch).
#[derive(Clone, Debug)]
pub struct InstallJobEvent {
    pub at: u64,
    pub kind: InstallJobEventKind,
}

/// One file of a job as the user sees it.
#[derive(Clone, Debug)]
pub struct DownloadItem {
    pub id: String,
    pub status: DownloadItemStatus,
    pub project_id: Option<String>,
    pub version_id: Option<String>,
    pub manual_url: Option<String>,
}

/// The whole state of an install job.
#[derive(Clone, Debug)]
pub struct InstallJobState {
    pub request: InstallRequest,
    pub progress: InstallProgressState,
    pub events: Vec<InstallJobEvent>,
    pub error: Option<InstallErrorView>,
    pub rollback_error: Option<InstallErrorView>,
    pub pause_reason: Option<InstallPauseReason>,
    pub context: Option<InstallErrorContext>,
    pub cleanup: Vec<String>,
    pub missing_content: Option<MissingModpackContentState>,
}

/// The clock of the install state: milliseconds since the Unix epoch
/// (`SystemTime::elapsed` of `UNIX_EPOCH`; 0 for a clock set before the epoch).
/// Nothing is stated of the value: it is the machine's time.
#[verifier::external_body]
pub(crate) fn now_millis() -> u64 {
    match std::time::UNIX_EPOCH.elapsed() {
        Ok(elapsed) => elapsed.as_millis() as u64,
        Err(_) => 0,
    }
}

/// The path a content event is about, if it is one.
pub open spec fn content_event_path(kind: InstallJobEventKind) -> Option<String> {
    match kind {
        InstallJobEventKind::ContentFileCompleted { path, .. } => Some(path),
        InstallJobEventKind::ContentFileRecovered { path, .. } => Some(path),
        InstallJobEventKind::ContentFileSkipped { path, .. } => Some(path),
        InstallJobEventKind::ContentFileFailed { path, .. } => Some(path),
        _ => None,
    }
}

/// Index of the first item with identifier `id`, or `-1`.
pub open spec fn item_position(items: Seq<DownloadItem>, id: Seq<char>) -> int
    decreases items.len(),
{
    if items.len() == 0 {
        -1
    } else if item_position(items.drop_last(), id) >= 0 {
        item_position(items.drop_last(), id)
    } else if items.last().id@ == id {
        items.len() - 1
    } else {
        -1
    }
}

/// The item a content event leaves behind, given the item it updates, if any: the
/// status follows the event; a skip sets the project, version and manual address,
/// other events keep those of the earlier item.
pub open spec fn item_after(previous: Option<DownloadItem>, kind: InstallJobEventKind) -> DownloadItem {
    let (project_id, version_id, manual_url) = match previous {
        Some(p) => (p.project_id, p.version_id, p.manual_url),
        None => (None, None, None),
    };
    match kind {
        InstallJobEventKind::ContentFileSkipped { path, project_id: p, version_id: v, manual_url: m, .. } =>
            DownloadItem { id: path, status: DownloadItemStatus::Skipped, project_id: p, version_id: v, manual_url: m },
        InstallJobEventKind::ContentFileCompleted { path, .. } =>
            DownloadItem { id: path, status: DownloadItemStatus::Completed, project_id, version_id, manual_url },
        InstallJobEventKind::ContentFileRecovered { path, .. } =>
            DownloadItem { id: path, status: DownloadItemStatus::Completed, project_id, version_id, manual_url },
        InstallJobEventKind::ContentFileFailed { path, .. } =>
            DownloadItem { id: path, status: DownloadItemStatus::Failed, project_id, version_id, manual_url },
        _ => arbitrary(),
    }
}

/// The download items after one more event: a content event updates the item of its
/// path in place, or appends a new item; other events change nothing.
pub open spec fn items_after_event(items: Seq<DownloadItem>, kind: InstallJobEventKind) -> Seq<DownloadItem> {
    match content_event_path(kind) {
        Some(path) => {
            let k = item_position(items, path@);
            if k >= 0 {
                items.update(k, item_after(Some(items[k]), kind))
            } else {
                items.push(item_after(None, kind))
            }
        },
        None => items,
    }
}

/// The download items of an event log: one per path, in order of first mention.
pub open spec fn download_items_spec(events: Seq<InstallJobEvent>) -> Seq<DownloadItem>
    decreases events.len(),
{
    if events.len() == 0 {
        Seq::empty()
    } else {
        items_after_event(download_items_spec(events.drop_last()), events.last().kind)
    }
}

/// A copy of an optional string.
pub fn copy_opt_string(s: &Option<String>) -> (r: Option<String>)
    ensures
        r == *s,
{
    match s {
        Some(v) => Some(v.clone()),
        None => None,
    }
}

/// A copy of a list of strings.
pub fn copy_strings(v: &Vec<String>) -> (r: Vec<String>)
    ensures
        r@ == v@,
{
    let mut r: Vec<String> = Vec::new();
    let mut i: usize = 0;
    while i < v.len()
        invariant
            i <= v.len(),
            r@ == v@.take(i as int),
        decreases v.len() - i,
    {
        r.push(v[i].clone());
        i = i + 1;
        assert(r@ =~= v@.take(i as int));
    }
    assert(v@.take(v.len() as int) =~= v@);
    r
}

/// Two pause reasons say the same.
pub open spec fn same_pause_reason(a: InstallPauseReason, b: InstallPauseReason) -> bool {
    match (a, b) {
        (
            InstallPauseReason::MissingRequiredContent { failed_files: fa, paths: pa },
            InstallPauseReason::MissingRequiredContent { failed_files: fb, paths: pb },
        ) => fa == fb && pa@ == pb@,
    }
}

impl InstallPauseReason {
    /// A copy of the reason.
    pub fn duplicate(&self) -> (r: Self)
        ensures
            same_pause_reason(r, *self),
    {
        match self {
            InstallPauseReason::MissingRequiredContent { failed_files, paths } => {
                InstallPauseReason::MissingRequiredContent {
                    failed_files: *failed_files,
                    paths: copy_strings(paths),
                }
            },
        }
    }
}

impl InstallErrorContext {
    /// A copy of the context.
    pub fn duplicate(&self) -> (r: Self)
        ensures
            r == *self,
    {
        InstallErrorContext {
            operation: self.operation.clone(),
            project_id: copy_opt_string(&self.project_id),
            version_id: copy_opt_string(&self.version_id),
            source_path: copy_opt_string(&self.source_path),
        }
    }
}

/// A copy of an optional context.
pub fn copy_context(c: &Option<InstallErrorContext>) -> (r: Option<InstallErrorContext>)
    ensures
        r == *c,
{
    match c {
        Some(v) => Some(v.duplicate()),
        None => None,
    }
}

/// Position of the item with identifier `id` in `items`.
fn find_item(items: &Vec<DownloadItem>, id: &String) -> (r: Option<usize>)
    ensures
        r matches Some(k) ==> k as int == item_position(items@, id@),
        r is None ==> item_position(items@, id@) == -1,
{
    let mut i: usize = 0;
    while i < items.len()
        invariant
            i <= items.len(),
            item_position(items@.take(i as int), id@) == -1,
        decreases items.len() - i,
    {
        assert(items@.take(i + 1).drop_last() =~= items@.take(i as int));
        if str_eq(items[i].id.as_str(), id.as_str()) {
            proof {
                lemma_item_position_prefix(items@, id@, i + 1);
            }
            return Some(i);
        }
        i = i + 1;
    }
    assert(items@.take(items.len() as int) =~= items@);
    None
}

/// A found position in a prefix is the position in the whole list.
proof fn lemma_item_position_prefix(items: Seq<DownloadItem>, id: Seq<char>, n: int)
    requires
        0 <= n <= items.len(),
        item_position(items.take(n), id) >= 0,
    ensures
        item_position(items, id) == item_position(items.take(n), id),
    decreases items.len() - n,
{
    if n < items.len() {
        assert(items.take(n + 1).drop_last() =~= items.take(n));
        lemma_item_position_prefix(items, id, n + 1);
    } else {
        assert(items.take(n) =~= items);
    }
}

proof fn lemma_item_position_bounds(items: Seq<DownloadItem>, id: Seq<char>)
    ensures
        -1 <= item_position(items, id) < items.len(),
        item_position(items, id) >= 0 ==> items[item_position(items, id)].id@ == id,
    decreases items.len(),
{
    if items.len() > 0 {
        lemma_item_position_bounds(items.drop_last(), id);
    }
}

/// The item a content event leaves behind.
fn make_item(previous: Option<&DownloadItem>, kind: &InstallJobEventKind) -> (r: DownloadItem)
    requires
        content_event_path(*kind) is Some,
    ensures
        r == item_after(
            match previous {
                Some(p) => Some(*p),
                None => None,
            },
            *kind,
        ),
{
    let (project_id, version_id, manual_url) = match previous {
        Some(p) => (copy_opt_string(&p.project_id), copy_opt_string(&p.version_id), copy_opt_string(&p.manual_url)),
        None => (None, None, None),
    };
    match kind {
        InstallJobEventKind::ContentFileSkipped { path, project_id: p, version_id: v, manual_url: m, .. } =>
            DownloadItem {
                id: path.clone(),
                status: DownloadItemStatus::Skipped,
                project_id: copy_opt_string(p),
                version_id: copy_opt_string(v),
                manual_url: copy_opt_string(m),
            },
        InstallJobEventKind::ContentFileCompleted { path, .. } =>
            DownloadItem { id: path.clone(), status: DownloadItemStatus::Completed, project_id, version_id, manual_url },
        InstallJobEventKind::ContentFileRecovered { path, .. } =>
            DownloadItem { id: path.clone(), status: DownloadItemStatus::Completed, project_id, version_id, manual_url },
        InstallJobEventKind::ContentFileFailed { path, .. } =>
            DownloadItem { id: path.clone(), status: DownloadItemStatus::Failed, project_id, version_id, manual_url },
        _ => {
            assert(false);
            DownloadItem { id: String::new(), status: DownloadItemStatus::Failed, project_id, version_id, manual_url }
        },
    }
}

/// The path of a content event.
fn event_path(kind: &InstallJobEventKind) -> (r: Option<&String>)
    ensures
        match content_event_path(*kind) {
            Some(p) => r matches Some(q) && *q == p,
            None => r is None,
        },
{
    match kind {
        InstallJobEventKind::ContentFileCompleted { path, .. } => Some(path),
        InstallJobEventKind::ContentFileRecovered { path, .. } => Some(path),
        InstallJobEventKind::ContentFileSkipped { path, .. } => Some(path),
        InstallJobEventKind::ContentFileFailed { path, .. } => Some(path),
        _ => None,
    }
}

/// Applies one event to the download items.
fn apply_event_to_items(items: &mut Vec<DownloadItem>, kind: &InstallJobEventKind)
    ensures
        final(items)@ == items_after_event(old(items)@, *kind),
{
    match event_path(kind) {
        Some(path) => {
            match find_item(items, path) {
                Some(k) => {
                    proof {
                        lemma_item_position_bounds(items@, path@);
                    }
                    let previous = items.remove(k);
                    let item = make_item(Some(&previous), kind);
                    items.insert(k, item);
                    proof {
                        assert(items@ =~= old(items)@.update(k as int, item));
                    }
                },
                None => {
                    let item = make_item(None, kind);
                    items.push(item);
                },
            }
        },
        None => {},
    }
}

impl InstallJobState {
    /// A fresh job for `request`: queued, with nothing recorded.
    pub fn new(request: InstallRequest) -> (job: Self)
        ensures
            job.request == request,
            job.progress.phase == InstallPhaseId::Queued,
            job.progress.progress is None,
            job.progress.parallel is None,
            job.events@.len() == 0,
            job.error is None,
            job.rollback_error is None,
            job.pause_reason is None,
            job.context is None,
            job.cleanup@.len() == 0,
            job.missing_content is None,
    {
        InstallJobState {
            request,
            progress: InstallProgressState {
                phase: InstallPhaseId::Queued,
                progress: None,
                details: InstallPhaseDetails::Empty,
                parallel: None,
            },
            events: Vec::new(),
            error: None,
            rollback_error: None,
            pause_reason: None,
            context: None,
            cleanup: Vec::new(),
            missing_content: None,
        }
    }

    /// Appends an event to the log, stamped with the current time; nothing else changes.
    pub fn record_event(&mut self, kind: InstallJobEventKind)
        ensures
            final(self).events@.len() == old(self).events@.len() + 1,
            final(self).events@.drop_last() == old(self).events@,
            final(self).events@.last().kind == kind,
            final(self).request == old(self).request,
            final(self).progress == old(self).progress,
            final(self).error == old(self).error,
            final(self).rollback_error == old(self).rollback_error,
            final(self).pause_reason == old(self).pause_reason,
            final(self).context == old(self).context,
            final(self).cleanup == old(self).cleanup,
            final(self).missing_content == old(self).missing_content,
    {
        let at = now_millis();
        self.events.push(InstallJobEvent { at, kind });
    }

    /// The job's files as the user sees them, derived from the event log.
    pub fn download_items(&self) -> (r: Vec<DownloadItem>)
        ensures
            r@ == download_items_spec(self.events@),
    {
        let mut items: Vec<DownloadItem> = Vec::new();
        let mut i: usize = 0;
        while i < self.events.len()
            invariant
                i <= self.events.len(),
                items@ == download_items_spec(self.events@.take(i as int)),
            decreases self.events.len() - i,
        {
            assert(self.events@.take(i + 1).drop_last() =~= self.events@.take(i as int));
            apply_event_to_items(&mut items, &self.events[i].kind);
            i = i + 1;
        }
        assert(self.events@.take(self.events.len() as int) =~= self.events@);
        items
    }
}

/// Identifiers of the skipped items that name a manual download, a project and a version.
pub open spec fn manual_skipped_ids(items: Seq<DownloadItem>) -> Seq<String>
    decreases items.len(),
{
    if items.len() == 0 {
        Seq::empty()
    } else {
        let rest = manual_skipped_ids(items.drop_last());
        let item = items.last();
        if item.status == DownloadItemStatus::Skipped && item.manual_url is Some
            && item.project_id is Some && item.version_id is Some {
            rest.push(item.id)
        } else {
            rest
        }
    }
}

/// Some item with identifier `id` has failed.
pub open spec fn item_failed(items: Seq<DownloadItem>, id: Seq<char>) -> bool {
    exists|i: int| 0 <= i < items.len() && #[trigger] items[i].id@ == id && items[i].status
        == DownloadItemStatus::Failed
}

/// Identifiers of the missing files whose item has failed, in order.
pub open spec fn failed_missing_ids(files: Seq<MissingModpackFile>, items: Seq<DownloadItem>) -> Seq<String>
    decreases files.len(),
{
    if files.len() == 0 {
        Seq::empty()
    } else {
        let rest = failed_missing_ids(files.drop_last(), items);
        if item_failed(items, files.last().item_id@) {
            rest.push(files.last().item_id)
        } else {
            rest
        }
    }
}

/// The paths a missing-content pause lists after a refresh: without a list of missing
/// files, the skipped manual downloads; with one, those of its files that failed.
pub open spec fn refreshed_missing_paths(job: InstallJobState) -> Seq<String> {
    let items = download_items_spec(job.events@);
    match job.missing_content {
        None => manual_skipped_ids(items),
        Some(content) => failed_missing_ids(content.files@, items),
    }
}

/// Whether some item with identifier `id` has failed.
fn any_item_failed(items: &Vec<DownloadItem>, id: &String) -> (r: bool)
    ensures
        r == item_failed(items@, id@),
{
    let mut i: usize = 0;
    while i < items.len()
        invariant
            i <= items.len(),
            forall|j: int| 0 <= j < i ==> !(#[trigger] items@[j].id@ == id@ && items@[j].status
                == DownloadItemStatus::Failed),
        decreases items.len() - i,
    {
        if items[i].status == DownloadItemStatus::Failed && str_eq(items[i].id.as_str(), id.as_str()) {
            return true;
        }
        i = i + 1;
    }
    false
}

/// Recomputes the paths of a missing-content pause from the job's current items, so a
/// file that was recovered no longer counts. Other pauses, and a job that is not
/// paused, are left alone.
pub fn refresh_missing_pause_reason(job: &mut InstallJobState)
    ensures
        !(old(job).pause_reason matches Some(InstallPauseReason::MissingRequiredContent { .. }))
            ==> *final(job) == *old(job),
        old(job).pause_reason matches Some(InstallPauseReason::MissingRequiredContent { .. })
            ==> {
            &&& final(job).pause_reason matches Some(
                InstallPauseReason::MissingRequiredContent { failed_files, paths },
            ) && paths@ == refreshed_missing_paths(*old(job)) && failed_files == paths@.len()
            &&& final(job).events == old(job).events
            &&& final(job).request == old(job).request
            &&& final(job).progress == old(job).progress
            &&& final(job).error == old(job).error
            &&& final(job).rollback_error == old(job).rollback_error
            &&& final(job).context == old(job).context
            &&& final(job).cleanup == old(job).cleanup
            &&& final(job).missing_content == old(job).missing_content
        },
{
    match &job.pause_reason {
        Some(InstallPauseReason::MissingRequiredContent { .. }) => {},
        _ => return,
    }
    let items = job.download_items();
    let mut paths: Vec<String> = Vec::new();
    match &job.missing_content {
        None => {
            let mut i: usize = 0;
            while i < items.len()
                invariant
                    i <= items.len(),
                    paths@ == manual_skipped_ids(items@.take(i as int)),
                decreases items.len() - i,
            {
                assert(items@.take(i + 1).drop_last() =~= items@.take(i as int));
                let item = &items[i];
                if item.status == DownloadItemStatus::Skipped && item.manual_url.is_some()
                    && item.project_id.is_some() && item.version_id.is_some() {
                    paths.push(item.id.clone());
                }
                i = i + 1;
            }
            assert(items@.take(items.len() as int) =~= items@);
        },
        Some(content) => {
            let mut i: usize = 0;
            while i < content.files.len()
                invariant
                    i <= content.files.len(),
                    paths@ == failed_missing_ids(content.files@.take(i as int), items@),
                decreases content.files.len() - i,
            {
                assert(content.files@.take(i + 1).drop_last() =~= content.files@.take(i as int));
                if any_item_failed(&items, &content.files[i].item_id) {
                    paths.push(content.files[i].item_id.clone());
                }
                i = i + 1;
            }
            assert(content.files@.take(content.files.len() as int) =~= content.files@);
        },
    }
    let failed_files = paths.len() as u64;
    job.pause_reason = Some(InstallPauseReason::MissingRequiredContent { failed_files, paths });
}

/// The phase and time of the latest `PhaseStarted` event of a log.
pub open spec fn latest_phase_start(events: Seq<InstallJobEvent>) -> Option<(u64, InstallPhaseId)>
    decreases events.len(),
{
    if events.len() == 0 {
        None
    } else {
        match events.last().kind {
            InstallJobEventKind::PhaseStarted { phase } => Some((events.last().at, phase)),
            _ => latest_phase_start(events.drop_last()),
        }
    }
}

/// The phase a failed job is blamed on: the later of the two logs' latest phase starts
/// (the executing copy's on a tie), else the reporter's current phase.
pub open spec fn latest_failure_phase_spec(
    execution_state: InstallJobState,
    reporter_state: InstallJobState,
) -> InstallPhaseId {
    match (latest_phase_start(execution_state.events@), latest_phase_start(reporter_state.events@)) {
        (Some(execution), Some(reporter)) => if reporter.0 > execution.0 {
            reporter.1
        } else {
            execution.1
        },
        (Some(execution), None) => execution.1,
        (None, Some(reporter)) => reporter.1,
        (None, None) => reporter_state.progress.phase,
    }
}

/// The latest phase start of a log.
fn find_latest_phase_start(events: &Vec<InstallJobEvent>) -> (r: Option<(u64, InstallPhaseId)>)
    ensures
        r == latest_phase_start(events@),
{
    let mut i = events.len();
    assert(events@.take(i as int) =~= events@);
    while i > 0
        invariant
            i <= events.len(),
            latest_phase_start(events@) == latest_phase_start(events@.take(i as int)),
        decreases i,
    {
        assert(events@.take(i as int).drop_last() =~= events@.take(i - 1));
        match events[i - 1].kind {
            InstallJobEventKind::PhaseStarted { phase } => {
                return Some((events[i - 1].at, phase));
            },
            _ => {},
        }
        i = i - 1;
    }
    None
}

/// The phase a failed job is blamed on, from the state the job ran with and the state
/// its progress reporter saw.
pub fn latest_failure_phase(
    execution_state: &InstallJobState,
    reporter_state: &InstallJobState,
) -> (r: InstallPhaseId)
    ensures
        r == latest_failure_phase_spec(*execution_state, *reporter_state),
{
    match (find_latest_phase_start(&execution_state.events), find_latest_phase_start(&reporter_state.events)) {
        (Some(execution), Some(reporter)) => if reporter.0 > execution.0 {
            reporter.1
        } else {
            execution.1
        },
        (Some(execution), None) => execution.1,
        (None, Some(reporter)) => reporter.1,
        (None, None) => reporter_state.progress.phase,
    }
}

/// Turns a failing job into one that rolls back: records the failure (with the phase it
/// happened in), keeps it as the job's error, clears the progress and records the start
/// of the rollback with the job's cleanup list.
pub fn begin_failed_job_rollback(job_state: &mut InstallJobState, code: &str, message: &str)
    ensures
        ({
            let n = old(job_state).events@.len();
            let failed_phase = old(job_state).progress.phase;
            &&& final(job_state).events@.len() == n + 2
            &&& final(job_state).events@.take(n as int) == old(job_state).events@
            &&& final(job_state).events@[n as int].kind matches InstallJobEventKind::Failed {
                phase,
                code: c,
                message: m,
            } && phase == failed_phase && c@ == code@ && m@ == message@
            &&& final(job_state).events@[n as int + 1].kind matches InstallJobEventKind::RollbackStarted {
                cleanup,
            } && cleanup@ == old(job_state).cleanup@
            &&& final(job_state).error matches Some(view) && view.code@ == code@ && view.phase
                == failed_phase && view.message@ == message@ && view.context == old(
                job_state,
            ).context
        }),
        final(job_state).progress.phase == InstallPhaseId::RollingBack,
        final(job_state).progress.progress is None,
        final(job_state).progress.details is Empty,
        final(job_state).progress.parallel is None,
        final(job_state).request == old(job_state).request,
        final(job_state).rollback_error == old(job_state).rollback_error,
        final(job_state).pause_reason == old(job_state).pause_reason,
        final(job_state).context == old(job_state).context,
        final(job_state).cleanup == old(job_state).cleanup,
        final(job_state).missing_content == old(job_state).missing_content,
{
    let ghost old_events = job_state.events@;
    let failed_phase = job_state.progress.phase;
    let view = InstallErrorView {
        code: crate::text::to_owned_string(code),
        phase: failed_phase,
        message: crate::text::to_owned_string(message),
        context: copy_context(&job_state.context),
    };
    job_state.record_event(
        InstallJobEventKind::Failed {
            phase: failed_phase,
            code: crate::text::to_owned_string(code),
            message: crate::text::to_owned_string(message),
        },
    );
    let ghost mid_events = job_state.events@;
    job_state.error = Some(view);
    job_state.progress.phase = InstallPhaseId::RollingBack;
    job_state.progress.progress = None;
    job_state.progress.details = InstallPhaseDetails::Empty;
    job_state.progress.parallel = None;
    let cleanup = copy_strings(&job_state.cleanup);
    job_state.record_event(InstallJobEventKind::RollbackStarted { cleanup });
    proof {
        let n = old_events.len();
        assert(mid_events.drop_last() == old_events);
        assert(job_state.events@.drop_last() == mid_events);
        assert(job_state.events@[n as int] == mid_events[n as int]);
        assert(job_state.events@.take(n as int) =~= old_events);
    }
}

/// Pauses a job for the user: keeps the reason, clears error, rollback error, context
/// and the parallel track, and records the pause.
pub fn begin_waiting_for_user(job_state: &mut InstallJobState, reason: InstallPauseReason)
    ensures
        final(job_state).pause_reason matches Some(r) && same_pause_reason(r, reason),
        final(job_state).error is None,
        final(job_state).rollback_error is None,
        final(job_state).context is None,
        final(job_state).progress.parallel is None,
        final(job_state).progress.phase == old(job_state).progress.phase,
        final(job_state).progress.progress == old(job_state).progress.progress,
        final(job_state).progress.details == old(job_state).progress.details,
        final(job_state).events@.drop_last() == old(job_state).events@,
        final(job_state).events@.len() == old(job_state).events@.len() + 1,
        final(job_state).events@.last().kind matches InstallJobEventKind::WaitingForUser { reason: r }
            && same_pause_reason(r, reason),
        final(job_state).request == old(job_state).request,
        final(job_state).cleanup == old(job_state).cleanup,
        final(job_state).missing_content == old(job_state).missing_content,
{
    job_state.pause_reason = Some(reason.duplicate());
    job_state.error = None;
    job_state.rollback_error = None;
    job_state.context = None;
    job_state.progress.parallel = None;
    job_state.record_event(InstallJobEventKind::WaitingForUser { reason });
}

impl InstallJobState {
    /// Moves the main track to `phase` with the given progress and details; entering a
    /// different phase is recorded as a `PhaseStarted` event.
    pub fn set_progress(
        &mut self,
        phase: InstallPhaseId,
        progress: Option<InstallProgress>,
        details: InstallPhaseDetails,
    )
        ensures
            final(self).progress.phase == phase,
            final(self).progress.progress == progress,
            final(self).progress.details == details,
            final(self).progress.parallel == old(self).progress.parallel,
            phase == old(self).progress.phase ==> final(self).events == old(self).events,
            phase != old(self).progress.phase ==> {
                &&& final(self).events@.len() == old(self).events@.len() + 1
                &&& final(self).events@.drop_last() == old(self).events@
                &&& final(self).events@.last().kind == InstallJobEventKind::PhaseStarted { phase }
            },
            final(self).request == old(self).request,
            final(self).error == old(self).error,
            final(self).rollback_error == old(self).rollback_error,
            final(self).pause_reason == old(self).pause_reason,
            final(self).context == old(self).context,
            final(self).cleanup == old(self).cleanup,
            final(self).missing_content == old(self).missing_content,
    {
        if phase != self.progress.phase {
            self.record_event(InstallJobEventKind::PhaseStarted { phase });
        }
        self.progress.phase = phase;
        self.progress.progress = progress;
        self.progress.details = details;
    }
}

/// Whether an event settles one content file (completed, recovered, skipped or failed).
pub open spec fn is_content_settlement_spec(event: InstallJobEventKind) -> bool {
    match event {
        InstallJobEventKind::ContentFileCompleted { .. } => true,
        InstallJobEventKind::ContentFileRecovered { .. } => true,
        InstallJobEventKind::ContentFileSkipped { .. } => true,
        InstallJobEventKind::ContentFileFailed { .. } => true,
        _ => false,
    }
}

/// Whether an event settles one content file.
pub fn is_content_settlement_event(event: &InstallJobEventKind) -> (r: bool)
    ensures
        r == is_content_settlement_spec(*event),
{
    match event {
        InstallJobEventKind::ContentFileCompleted { .. } => true,
        InstallJobEventKind::ContentFileRecovered { .. } => true,
        InstallJobEventKind::ContentFileSkipped { .. } => true,
        InstallJobEventKind::ContentFileFailed { .. } => true,
        _ => false,
    }
}

/// A file CurseForge only lets the user download by hand.
#[derive(Clone, Debug)]
pub struct CurseForgeManualDownload {
    pub file_name: String,
}

/// `names` holds `name`.
pub open spec fn names_contain(names: Seq<String>, name: Seq<char>) -> bool {
    exists|i: int| 0 <= i < names.len() && #[trigger] names[i]@ == name
}

/// The names of the manual downloads the user has not chosen to skip, in order.
pub open spec fn unskipped_manual_names(downloads: Seq<CurseForgeManualDownload>, skipped: Seq<String>) -> Seq<String>
    decreases downloads.len(),
{
    if downloads.len() == 0 {
        Seq::empty()
    } else {
        let rest = unskipped_manual_names(downloads.drop_last(), skipped);
        if names_contain(skipped, downloads.last().file_name@) {
            rest
        } else {
            rest.push(downloads.last().file_name)
        }
    }
}

/// Whether `names` holds `name`.
pub fn contains_name(names: &[String], name: &String) -> (r: bool)
    ensures
        r == names_contain(names@, name@),
{
    let mut i: usize = 0;
    while i < names.len()
        invariant
            i <= names.len(),
            forall|j: int| 0 <= j < i ==> #[trigger] names@[j]@ != name@,
        decreases names.len() - i,
    {
        if str_eq(names[i].as_str(), name.as_str()) {
            return true;
        }
        i = i + 1;
    }
    false
}

/// The pause a CurseForge modpack install needs for the manual downloads the user has
/// not skipped: none when there are none, else a missing-content pause listing them.
pub fn curseforge_manual_download_pause(
    manual_downloads: &[CurseForgeManualDownload],
    skipped_missing_content_paths: &[String],
) -> (r: Option<InstallPauseReason>)
    ensures
        ({
            let names = unskipped_manual_names(manual_downloads@, skipped_missing_content_paths@);
            &&& names.len() == 0 ==> r is None
            &&& names.len() > 0 ==> (r matches Some(InstallPauseReason::MissingRequiredContent {
                failed_files,
                paths,
            }) && paths@ == names && failed_files == names.len())
        }),
{
    let mut paths: Vec<String> = Vec::new();
    let mut i: usize = 0;
    while i < manual_downloads.len()
        invariant
            i <= manual_downloads.len(),
            paths@ == unskipped_manual_names(manual_downloads@.take(i as int), skipped_missing_content_paths@),
        decreases manual_downloads.len() - i,
    {
        assert(manual_downloads@.take(i + 1).drop_last() =~= manual_downloads@.take(i as int));
        if !contains_name(skipped_missing_content_paths, &manual_downloads[i].file_name) {
            paths.push(manual_downloads[i].file_name.clone());
        }
        i = i + 1;
    }
    assert(manual_downloads@.take(manual_downloads.len() as int) =~= manual_downloads@);
    if paths.len() == 0 {
        return None;
    }
    let failed_files = paths.len() as u64;
    Some(InstallPauseReason::MissingRequiredContent { failed_files, paths })
}

/// `o` holds the text `t`.
pub open spec fn opt_text_is(o: Option<String>, t: Seq<char>) -> bool {
    o matches Some(v) && v@ == t
}

/// A completed item that names this CurseForge project and file (as decimal text).
pub open spec fn is_manual_world_item(item: DownloadItem, project_id: u32, file_id: u32) -> bool {
    &&& item.status == DownloadItemStatus::Completed
    &&& opt_text_is(item.project_id, crate::text::decimal_spec(project_id as nat))
    &&& opt_text_is(item.version_id, crate::text::decimal_spec(file_id as nat))
}

/// Some item of the job is a completed download of this CurseForge world.
pub open spec fn world_imported_manually_spec(job: InstallJobState, project_id: u32, file_id: u32) -> bool {
    let items = download_items_spec(job.events@);
    exists|i: int| 0 <= i < items.len() && #[trigger] is_manual_world_item(items[i], project_id, file_id)
}

/// Whether `s` holds text equal to `t`.
fn opt_str_eq(s: &Option<String>, t: &String) -> (r: bool)
    ensures
        r == opt_text_is(*s, t@),
{
    match s {
        Some(v) => str_eq(v.as_str(), t.as_str()),
        None => false,
    }
}

/// Whether the user already imported this CurseForge world by hand.
pub fn curseforge_world_was_imported_manually(job_state: &InstallJobState, project_id: u32, file_id: u32) -> (r: bool)
    ensures
        r == world_imported_manually_spec(*job_state, project_id, file_id),
{
    let project = crate::text::decimal_string(project_id as u64);
    let file = crate::text::decimal_string(file_id as u64);
    let items = job_state.download_items();
    let mut i: usize = 0;
    while i < items.len()
        invariant
            i <= items.len(),
            project@ == crate::text::decimal_spec(project_id as nat),
            file@ == crate::text::decimal_spec(file_id as nat),
            items@ == download_items_spec(job_state.events@),
            forall|j: int| 0 <= j < i ==> !#[trigger] is_manual_world_item(items@[j], project_id, file_id),
        decreases items.len() - i,
    {
        if items[i].status == DownloadItemStatus::Completed && opt_str_eq(&items[i].project_id, &project)
            && opt_str_eq(&items[i].version_id, &file) {
            assert(is_manual_world_item(items@[i as int], project_id, file_id));
            return true;
        }
        i = i + 1;
    }
    false
}

/// How a job's run ended, when it did not fail or pause.
#[derive(Clone, Debug)]
pub enum JobOutcome {
    /// The run finished; the instance it made or changed, if any.
    Succeeded { instance_id: Option<String> },
    /// The job was canceled.
    Canceled,
}

/// Ends a job's run. A success records `JobSucceeded` and leaves the job in
/// `Finalizing` (`Completed` for an upgrade of an unmanaged instance) with progress,
/// details and the parallel track cleared and no error, rollback error, pause, missing
/// content or context left. A cancellation keeps a `canceled` error for the phase it
/// stopped in, clears the pause, records `JobCanceled` and then the start of the
/// rollback with the job's cleanup list, and leaves the job rolling back with its
/// progress and details cleared.
pub fn finish_job(job: &mut InstallJobState, outcome: JobOutcome)
    ensures
        final(job).request == old(job).request,
        final(job).cleanup == old(job).cleanup,
        match outcome {
            JobOutcome::Succeeded { instance_id } => {
                &&& final(job).events@.len() == old(job).events@.len() + 1
                &&& final(job).events@.drop_last() == old(job).events@
                &&& final(job).events@.last().kind matches InstallJobEventKind::JobSucceeded {
                    instance_id: id,
                } && id == instance_id
                &&& final(job).progress.phase == if old(job).request is UpgradeUnmanagedInstance {
                    InstallPhaseId::Completed
                } else {
                    InstallPhaseId::Finalizing
                }
                &&& final(job).progress.progress is None
                &&& final(job).progress.details is Empty
                &&& final(job).progress.parallel is None
                &&& final(job).error is None
                &&& final(job).rollback_error is None
                &&& final(job).pause_reason is None
                &&& final(job).missing_content is None
                &&& final(job).context is None
            },
            JobOutcome::Canceled => {
                let n = old(job).events@.len();
                let phase = old(job).progress.phase;
                &&& final(job).events@.len() == n + 2
                &&& final(job).events@.take(n as int) == old(job).events@
                &&& final(job).events@[n as int].kind matches InstallJobEventKind::JobCanceled {
                    phase: p,
                } && p == phase
                &&& final(job).events@[n as int + 1].kind matches InstallJobEventKind::RollbackStarted {
                    cleanup,
                } && cleanup@ == old(job).cleanup@
                &&& final(job).error matches Some(view) && view.code@ == "canceled"@ && view.phase
                    == phase && view.message@ == "Install was canceled"@ && view.context is None
                &&& final(job).pause_reason is None
                &&& final(job).progress.phase == InstallPhaseId::RollingBack
                &&& final(job).progress.progress is None
                &&& final(job).progress.details is Empty
                &&& final(job).progress.parallel == old(job).progress.parallel
                &&& final(job).rollback_error == old(job).rollback_error
                &&& final(job).missing_content == old(job).missing_content
                &&& final(job).context == old(job).context
            },
        },
{
    match outcome {
        JobOutcome::Succeeded { instance_id } => {
            job.record_event(InstallJobEventKind::JobSucceeded { instance_id });
            let upgrade = match &job.request {
                InstallRequest::UpgradeUnmanagedInstance { .. } => true,
                _ => false,
            };
            job.progress.phase = if upgrade {
                InstallPhaseId::Completed
            } else {
                InstallPhaseId::Finalizing
            };
            job.progress.progress = None;
            job.progress.details = InstallPhaseDetails::Empty;
            job.progress.parallel = None;
            job.error = None;
            job.rollback_error = None;
            job.pause_reason = None;
            job.missing_content = None;
            job.context = None;
        },
        JobOutcome::Canceled => {
            let ghost old_events = job.events@;
            let phase = job.progress.phase;
            job.error = Some(
                InstallErrorView {
                    code: crate::text::to_owned_string("canceled"),
                    phase,
                    message: crate::text::to_owned_string("Install was canceled"),
                    context: None,
                },
            );
            job.pause_reason = None;
            job.record_event(InstallJobEventKind::JobCanceled { phase });
            let ghost mid_events = job.events@;
            job.progress.phase = InstallPhaseId::RollingBack;
            job.progress.progress = None;
            job.progress.details = InstallPhaseDetails::Empty;
            let cleanup = copy_strings(&job.cleanup);
            job.record_event(InstallJobEventKind::RollbackStarted { cleanup });
            proof {
                let n = old_events.len();
                assert(mid_events.drop_last() == old_events);
                assert(job.events@.drop_last() == mid_events);
                assert(job.events@[n as int] == mid_events[n as int]);
                assert(job.events@.take(n as int) =~= old_events);
            }
        },
    }
}

/// Turns a job whose run failed into one that rolls back: the failure is blamed on the
/// latest phase the run or its reporter started (see `latest_failure_phase`), then the
/// rollback begins as `begin_failed_job_rollback` does.
pub fn begin_job_failure(job: &mut InstallJobState, execution_state: &InstallJobState, code: &str, message: &str)
    ensures
        ({
            let n = old(job).events@.len();
            let failed_phase = latest_failure_phase_spec(*execution_state, *old(job));
            &&& final(job).events@.len() == n + 2
            &&& final(job).events@.take(n as int) == old(job).events@
            &&& final(job).events@[n as int].kind matches InstallJobEventKind::Failed {
                phase,
                code: c,
                message: m,
            } && phase == failed_phase && c@ == code@ && m@ == message@
            &&& final(job).events@[n as int + 1].kind matches InstallJobEventKind::RollbackStarted {
                cleanup,
            } && cleanup@ == old(job).cleanup@
            &&& final(job).error matches Some(view) && view.code@ == code@ && view.phase == failed_phase
                && view.message@ == message@ && view.context == old(job).context
        }),
        final(job).progress.phase == InstallPhaseId::RollingBack,
        final(job).progress.progress is None,
        final(job).progress.details is Empty,
        final(job).progress.parallel is None,
        final(job).request == old(job).request,
        final(job).rollback_error == old(job).rollback_error,
        final(job).pause_reason == old(job).pause_reason,
        final(job).context == old(job).context,
        final(job).cleanup == old(job).cleanup,
        final(job).missing_content == old(job).missing_content,
{
    let phase = latest_failure_phase(execution_state, job);
    job.progress.phase = phase;
    begin_failed_job_rollback(job, code, message);
}

} // verus!
