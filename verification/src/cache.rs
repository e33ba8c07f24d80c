//! Metadata cache: value types and their stable names, release channels,
//! and the rules that decide which cached rows are served or refetched.
use vstd::prelude::*;
use crate::text::{str_eq, chars_of, chars_eq, index_of_from, find_char_from, string_from_chars, lemma_index_of_from, join_spec, join_strings, decimal_spec, decimal_string, to_owned_string};

verus! {

/// Most cache expiries are set to 100 years (effectively permanent).
pub const PERMANENT_CACHE_SECONDS: i64 = 3153600000;
/// How long before an entry should be asynchronously refreshed in the
/// background, in seconds (30 minutes).
pub const BACKGROUND_REFRESH_THRESHOLD: i64 = 1800;

/// The kinds of value the cache holds.
#[derive(PartialEq, Eq, Structural, Clone, Copy, Debug)]
pub enum CacheValueType {
    Project,
    ProjectV3,
    CurseForgeProject,
    Version,
    VersionV3,
    User,
    Team,
    Organization,
    File,
    LoaderManifest,
    MinecraftManifest,
    Categories,
    ReportTypes,
    Loaders,
    GameVersions,
    DonationPlatforms,
    FileHash,
    FileUpdate,
    SearchResults,
    SearchResultsV3,
    ModpackFiles,
    /// Cached list of versions for a project (without changelogs for fast loading)
    ProjectVersions,
}

/// The stable name under which a cache value type is stored.
pub open spec fn cache_type_name(t: CacheValueType) -> Seq<char> {
    match t {
        CacheValueType::Project => "project"@,
        CacheValueType::ProjectV3 => "project_v3"@,
        CacheValueType::CurseForgeProject => "curseforge_project"@,
        CacheValueType::Version => "version"@,
        CacheValueType::VersionV3 => "version_v3"@,
        CacheValueType::User => "user"@,
        CacheValueType::Team => "team"@,
        CacheValueType::Organization => "organization"@,
        CacheValueType::File => "file"@,
        CacheValueType::LoaderManifest => "loader_manifest"@,
        CacheValueType::MinecraftManifest => "minecraft_manifest"@,
        CacheValueType::Categories => "categories"@,
        CacheValueType::ReportTypes => "report_types"@,
        CacheValueType::Loaders => "loaders"@,
        CacheValueType::GameVersions => "game_versions"@,
        CacheValueType::DonationPlatforms => "donation_platforms"@,
        CacheValueType::FileHash => "file_hash"@,
        CacheValueType::FileUpdate => "file_update"@,
        CacheValueType::SearchResults => "search_results"@,
        CacheValueType::SearchResultsV3 => "search_results_v3"@,
        CacheValueType::ModpackFiles => "modpack_files"@,
        CacheValueType::ProjectVersions => "project_versions"@,
    }
}

/// Every cache value type, in declaration order.
pub open spec fn all_cache_types() -> Seq<CacheValueType> {
    seq![
        CacheValueType::Project,
        CacheValueType::ProjectV3,
        CacheValueType::CurseForgeProject,
        CacheValueType::Version,
        CacheValueType::VersionV3,
        CacheValueType::User,
        CacheValueType::Team,
        CacheValueType::Organization,
        CacheValueType::File,
        CacheValueType::LoaderManifest,
        CacheValueType::MinecraftManifest,
        CacheValueType::Categories,
        CacheValueType::ReportTypes,
        CacheValueType::Loaders,
        CacheValueType::GameVersions,
        CacheValueType::DonationPlatforms,
        CacheValueType::FileHash,
        CacheValueType::FileUpdate,
        CacheValueType::SearchResults,
        CacheValueType::SearchResultsV3,
        CacheValueType::ModpackFiles,
        CacheValueType::ProjectVersions,
    ]
}

/// The type whose stored name is `val`; unknown names read as `Project`.
pub open spec fn cache_type_from_name(val: Seq<char>) -> CacheValueType {
    if exists|i: int| 0 <= i < all_cache_types().len() && cache_type_name(#[trigger] all_cache_types()[i]) == val {
        let i = choose|i: int| 0 <= i < all_cache_types().len() && cache_type_name(#[trigger] all_cache_types()[i]) == val;
        all_cache_types()[i]
    } else {
        CacheValueType::Project
    }
}

impl CacheValueType {
    /// The name the kind is stored under.
    pub fn as_str(&self) -> (r: &'static str)
        ensures
            r@ == cache_type_name(*self),
    {
        match self {
            CacheValueType::Project => "project",
            CacheValueType::ProjectV3 => "project_v3",
            CacheValueType::CurseForgeProject => "curseforge_project",
            CacheValueType::Version => "version",
            CacheValueType::VersionV3 => "version_v3",
            CacheValueType::User => "user",
            CacheValueType::Team => "team",
            CacheValueType::Organization => "organization",
            CacheValueType::File => "file",
            CacheValueType::LoaderManifest => "loader_manifest",
            CacheValueType::MinecraftManifest => "minecraft_manifest",
            CacheValueType::Categories => "categories",
            CacheValueType::ReportTypes => "report_types",
            CacheValueType::Loaders => "loaders",
            CacheValueType::GameVersions => "game_versions",
            CacheValueType::DonationPlatforms => "donation_platforms",
            CacheValueType::FileHash => "file_hash",
            CacheValueType::FileUpdate => "file_update",
            CacheValueType::SearchResults => "search_results",
            CacheValueType::SearchResultsV3 => "search_results_v3",
            CacheValueType::ModpackFiles => "modpack_files",
            CacheValueType::ProjectVersions => "project_versions",
        }
    }

    /// Every cache value type, in declaration order.
    pub fn all() -> (v: Vec<CacheValueType>)
        ensures
            v@ == all_cache_types(),
    {
        let v = vec![
            CacheValueType::Project,
            CacheValueType::ProjectV3,
            CacheValueType::CurseForgeProject,
            CacheValueType::Version,
            CacheValueType::VersionV3,
            CacheValueType::User,
            CacheValueType::Team,
            CacheValueType::Organization,
            CacheValueType::File,
            CacheValueType::LoaderManifest,
            CacheValueType::MinecraftManifest,
            CacheValueType::Categories,
            CacheValueType::ReportTypes,
            CacheValueType::Loaders,
            CacheValueType::GameVersions,
            CacheValueType::DonationPlatforms,
            CacheValueType::FileHash,
            CacheValueType::FileUpdate,
            CacheValueType::SearchResults,
            CacheValueType::SearchResultsV3,
            CacheValueType::ModpackFiles,
            CacheValueType::ProjectVersions,
        ];
        assert(v@ =~= all_cache_types());
        v
    }

    /// The kind stored under a name.
    pub fn from_string(val: &str) -> (r: CacheValueType)
        ensures
            r == cache_type_from_name(val@),
    {
        let all = CacheValueType::all();
        let mut i: usize = 0;
        while i < all.len()
            invariant
                all@ == all_cache_types(),
                i <= all.len(),
                forall|j: int| 0 <= j < i ==> cache_type_name(#[trigger] all_cache_types()[j]) != val@,
            decreases all.len() - i,
        {
            if str_eq(all[i].as_str(), val) {
                proof { lemma_cache_type_names_distinct(); }
                return all[i];
            }
            i = i + 1;
        }
        CacheValueType::Project
    }

    /// The kind stored under a name, if it is one whose install cache can be repaired.
    pub fn from_repairable_str(val: &str) -> (r: Option<CacheValueType>)
        ensures
            r == (if val@ == "curseforge_project"@ {
                Some(CacheValueType::CurseForgeProject)
            } else {
                None
            }),
    {
        if str_eq(val, "curseforge_project") {
            Some(CacheValueType::CurseForgeProject)
        } else {
            None
        }
    }

    /// Whether a broken cached value of this kind can be repaired during an install.
    pub fn is_repairable_install_cache(self) -> (r: bool)
        ensures
            r == (self == CacheValueType::CurseForgeProject),
    {
        matches!(self, CacheValueType::CurseForgeProject)
    }

    /// How long a value of this kind stays fresh, in seconds.
    pub open spec fn expiry_spec(self) -> i64 {
        match self {
            CacheValueType::LoaderManifest => BACKGROUND_REFRESH_THRESHOLD,
            _ => PERMANENT_CACHE_SECONDS,
        }
    }

    /// Seconds until a freshly written entry of this type expires. Loader
    /// manifests expire at the background refresh threshold so that new
    /// loader versions become selectable without a restart.
    pub fn expiry(&self) -> (r: i64)
        ensures
            r == self.expiry_spec(),
    {
        match self {
            CacheValueType::LoaderManifest => BACKGROUND_REFRESH_THRESHOLD,
            _ => PERMANENT_CACHE_SECONDS,
        }
    }

    /// Whether aliases of this kind are compared case-sensitively (none for kinds without aliases).
    pub open spec fn case_sensitive_alias_spec(self) -> Option<bool> {
        match self {
            CacheValueType::Project | CacheValueType::ProjectV3 | CacheValueType::CurseForgeProject
            | CacheValueType::User | CacheValueType::Organization => Some(false),
            CacheValueType::FileHash => Some(true),
            _ => None,
        }
    }

    /// Whether aliases of this type compare case-sensitively; `None` where
    /// the type has no alias.
    pub fn case_sensitive_alias(&self) -> (r: Option<bool>)
        ensures
            r == self.case_sensitive_alias_spec(),
    {
        match self {
            CacheValueType::Project
            | CacheValueType::ProjectV3
            | CacheValueType::CurseForgeProject
            | CacheValueType::User
            | CacheValueType::Organization => Some(false),
            CacheValueType::FileHash => Some(true),
            CacheValueType::MinecraftManifest
            | CacheValueType::Categories
            | CacheValueType::ReportTypes
            | CacheValueType::Loaders
            | CacheValueType::GameVersions
            | CacheValueType::DonationPlatforms
            | CacheValueType::Version
            | CacheValueType::VersionV3
            | CacheValueType::Team
            | CacheValueType::File
            | CacheValueType::LoaderManifest
            | CacheValueType::FileUpdate
            | CacheValueType::SearchResults
            | CacheValueType::SearchResultsV3
            | CacheValueType::ModpackFiles
            | CacheValueType::ProjectVersions => None,
        }
    }
}

/// No two cache value types share a stored name.
pub proof fn lemma_cache_type_names_distinct()
    ensures
        forall|i: int, j: int|
            0 <= i < all_cache_types().len() && 0 <= j < all_cache_types().len() && i != j
                ==> cache_type_name(#[trigger] all_cache_types()[i]) != cache_type_name(
                #[trigger] all_cache_types()[j],
            ),
{
    reveal_strlit("project");
    reveal_strlit("project_v3");
    reveal_strlit("curseforge_project");
    reveal_strlit("version");
    reveal_strlit("version_v3");
    reveal_strlit("user");
    reveal_strlit("team");
    reveal_strlit("organization");
    reveal_strlit("file");
    reveal_strlit("loader_manifest");
    reveal_strlit("minecraft_manifest");
    reveal_strlit("categories");
    reveal_strlit("report_types");
    reveal_strlit("loaders");
    reveal_strlit("game_versions");
    reveal_strlit("donation_platforms");
    reveal_strlit("file_hash");
    reveal_strlit("file_update");
    reveal_strlit("search_results");
    reveal_strlit("search_results_v3");
    reveal_strlit("modpack_files");
    reveal_strlit("project_versions");
    assert forall|i: int, j: int|
        0 <= i < all_cache_types().len() && 0 <= j < all_cache_types().len() && i != j
        implies cache_type_name(#[trigger] all_cache_types()[i]) != cache_type_name(
        #[trigger] all_cache_types()[j],
    ) by {
        let a = cache_type_name(all_cache_types()[i]);
        let b = cache_type_name(all_cache_types()[j]);
        if a.len() == b.len() {
            assert(a[0] != b[0] || a[1] != b[1] || a[a.len() - 1] != b[b.len() - 1] || a[2] != b[2]
                || a[a.len() - 2] != b[b.len() - 2] || a[3] != b[3]);
        }
    }
}

/// A character of a stored type name: a lower-case ASCII letter, a digit or `_`.
pub open spec fn is_name_char(c: char) -> bool {
    ('a' <= c && c <= 'z') || ('0' <= c && c <= '9') || c == '_'
}

/// Every stored type name is non-empty and made of lower-case ASCII letters, digits and
/// underscores.
pub proof fn law_cache_type_names_are_identifiers(t: CacheValueType)
    ensures
        cache_type_name(t).len() > 0,
        forall|i: int| 0 <= i < cache_type_name(t).len() ==> is_name_char(#[trigger] cache_type_name(t)[i]),
{
    reveal_strlit("project");
    reveal_strlit("project_v3");
    reveal_strlit("curseforge_project");
    reveal_strlit("version");
    reveal_strlit("version_v3");
    reveal_strlit("user");
    reveal_strlit("team");
    reveal_strlit("organization");
    reveal_strlit("file");
    reveal_strlit("loader_manifest");
    reveal_strlit("minecraft_manifest");
    reveal_strlit("categories");
    reveal_strlit("report_types");
    reveal_strlit("loaders");
    reveal_strlit("game_versions");
    reveal_strlit("donation_platforms");
    reveal_strlit("file_hash");
    reveal_strlit("file_update");
    reveal_strlit("search_results");
    reveal_strlit("search_results_v3");
    reveal_strlit("modpack_files");
    reveal_strlit("project_versions");
}

/// Reading back the stored name of a type gives that type.
pub proof fn law_cache_type_name_round_trip(t: CacheValueType)
    ensures
        cache_type_from_name(cache_type_name(t)) == t,
{
    lemma_cache_type_names_distinct();
    let k: int = match t {
        CacheValueType::Project => 0,
        CacheValueType::ProjectV3 => 1,
        CacheValueType::CurseForgeProject => 2,
        CacheValueType::Version => 3,
        CacheValueType::VersionV3 => 4,
        CacheValueType::User => 5,
        CacheValueType::Team => 6,
        CacheValueType::Organization => 7,
        CacheValueType::File => 8,
        CacheValueType::LoaderManifest => 9,
        CacheValueType::MinecraftManifest => 10,
        CacheValueType::Categories => 11,
        CacheValueType::ReportTypes => 12,
        CacheValueType::Loaders => 13,
        CacheValueType::GameVersions => 14,
        CacheValueType::DonationPlatforms => 15,
        CacheValueType::FileHash => 16,
        CacheValueType::FileUpdate => 17,
        CacheValueType::SearchResults => 18,
        CacheValueType::SearchResultsV3 => 19,
        CacheValueType::ModpackFiles => 20,
        CacheValueType::ProjectVersions => 21,
    };
    assert(all_cache_types()[k] == t);
    assert(cache_type_name(all_cache_types()[k]) == cache_type_name(t));
}

/// The release channels of content versions, from the most to the least stable.
#[derive(PartialEq, Eq, Structural, Clone, Copy, Debug)]
pub enum ReleaseChannel {
    Release,
    Beta,
    Alpha,
}

/// The key a channel is stored under.
pub open spec fn release_channel_key(c: ReleaseChannel) -> Seq<char> {
    match c {
        ReleaseChannel::Release => "release"@,
        ReleaseChannel::Beta => "beta"@,
        ReleaseChannel::Alpha => "alpha"@,
    }
}

/// The channel a stored policy key selects: `all` means every channel,
/// unknown keys mean releases only.
pub open spec fn release_channel_from_key(key: Seq<char>) -> ReleaseChannel {
    if key == "alpha"@ || key == "all"@ {
        ReleaseChannel::Alpha
    } else if key == "beta"@ {
        ReleaseChannel::Beta
    } else {
        ReleaseChannel::Release
    }
}

/// The channel of a version type: `alpha` and `beta` name theirs, anything else is a release.
pub open spec fn release_channel_from_version_type(t: Seq<char>) -> ReleaseChannel {
    if t == "alpha"@ {
        ReleaseChannel::Alpha
    } else if t == "beta"@ {
        ReleaseChannel::Beta
    } else {
        ReleaseChannel::Release
    }
}

/// How unstable a channel is: release 0, beta 1, alpha 2.
pub open spec fn instability_rank_spec(c: ReleaseChannel) -> u8 {
    match c {
        ReleaseChannel::Release => 0,
        ReleaseChannel::Beta => 1,
        ReleaseChannel::Alpha => 2,
    }
}

/// The less stable of two channels (the first when they rank the same).
pub open spec fn least_stable_spec(a: ReleaseChannel, b: ReleaseChannel) -> ReleaseChannel {
    if instability_rank_spec(a) >= instability_rank_spec(b) {
        a
    } else {
        b
    }
}

/// The version types tried in turn when looking for an update on a channel:
/// each group widens the search to less stable releases.
pub open spec fn version_type_fallbacks_spec(c: ReleaseChannel) -> Seq<Seq<Seq<char>>> {
    match c {
        ReleaseChannel::Release => seq![seq!["release"@], seq!["beta"@], seq!["alpha"@]],
        ReleaseChannel::Beta => seq![seq!["release"@, "beta"@], seq!["alpha"@]],
        ReleaseChannel::Alpha => seq![seq!["release"@, "beta"@, "alpha"@]],
    }
}

impl ReleaseChannel {
    /// The key the channel is stored under.
    pub fn key(self) -> (r: &'static str)
        ensures
            r@ == release_channel_key(self),
    {
        match self {
            Self::Release => "release",
            Self::Beta => "beta",
            Self::Alpha => "alpha",
        }
    }

    /// The channel stored under a key.
    pub fn from_key(key: &str) -> (r: Self)
        ensures
            r == release_channel_from_key(key@),
    {
        if str_eq(key, "alpha") || str_eq(key, "all") {
            Self::Alpha
        } else if str_eq(key, "beta") {
            Self::Beta
        } else {
            Self::Release
        }
    }

    /// The channel of a version type.
    pub fn from_version_type(version_type: &str) -> (r: Self)
        ensures
            r == release_channel_from_version_type(version_type@),
    {
        if str_eq(version_type, "alpha") {
            Self::Alpha
        } else if str_eq(version_type, "beta") {
            Self::Beta
        } else {
            Self::Release
        }
    }

    /// The less stable of two channels.
    pub fn least_stable(self, other: Self) -> (r: Self)
        ensures
            r == least_stable_spec(self, other),
    {
        if self.instability_rank() >= other.instability_rank() {
            self
        } else {
            other
        }
    }

    /// How unstable the channel is.
    pub fn instability_rank(self) -> (r: u8)
        ensures
            r == instability_rank_spec(self),
    {
        match self {
            Self::Release => 0,
            Self::Beta => 1,
            Self::Alpha => 2,
        }
    }

    /// The groups of version types tried in turn for this channel, the most stable first.
    pub fn version_type_fallbacks(self) -> (r: Vec<Vec<&'static str>>)
        ensures
            r@.map_values(|g: Vec<&'static str>| g@.map_values(|s: &'static str| s@))
                == version_type_fallbacks_spec(self),
    {
        let r = match self {
            Self::Release => vec![vec!["release"], vec!["beta"], vec!["alpha"]],
            Self::Beta => vec![vec!["release", "beta"], vec!["alpha"]],
            Self::Alpha => vec![vec!["release", "beta", "alpha"]],
        };
        proof {
            let v = r@.map_values(|g: Vec<&'static str>| g@.map_values(|s: &'static str| s@));
            assert forall|i: int| 0 <= i < v.len() implies v[i] =~= version_type_fallbacks_spec(self)[i] by {}
            assert(v =~= version_type_fallbacks_spec(self));
        }
        r
    }
}

/// The channel policy stored for file updates that predate channel policies.
pub fn default_file_update_channel_policy() -> (r: String)
    ensures
        r@ == "alpha"@,
{
    crate::text::to_owned_string(ReleaseChannel::Alpha.key())
}

/// Reading back a channel's key gives that channel.
pub proof fn law_release_channel_key_round_trip(c: ReleaseChannel)
    ensures
        release_channel_from_key(release_channel_key(c)) == c,
{
    reveal_strlit("alpha");
    reveal_strlit("all");
    reveal_strlit("beta");
    reveal_strlit("release");
    assert("beta"@.len() == 4 && "alpha"@.len() == 5 && "all"@.len() == 3 && "release"@.len() == 7);
    assert("alpha"@[0] != "all"@[1]);
}

/// The channel of a version type named after a channel is that channel: `release`,
/// `beta` and `alpha` read back as themselves.
pub proof fn law_version_type_channel_round_trip(c: ReleaseChannel)
    ensures
        release_channel_from_version_type(release_channel_key(c)) == c,
{
    reveal_strlit("alpha");
    reveal_strlit("beta");
    reveal_strlit("release");
    assert("beta"@.len() == 4 && "alpha"@.len() == 5 && "release"@.len() == 7);
}

/// A version type that is neither `alpha` nor `beta` is a release.
pub proof fn law_other_version_types_are_releases(t: Seq<char>)
    requires
        t != "alpha"@,
        t != "beta"@,
    ensures
        release_channel_from_version_type(t) == ReleaseChannel::Release,
{
}

/// `least_stable` picks the less stable channel whichever order the two come
/// in, is idempotent, associative, and never returns a channel more stable
/// than either argument.
pub proof fn law_least_stable_is_a_maximum(a: ReleaseChannel, b: ReleaseChannel, c: ReleaseChannel)
    ensures
        least_stable_spec(a, b) == least_stable_spec(b, a),
        least_stable_spec(a, a) == a,
        least_stable_spec(least_stable_spec(a, b), c) == least_stable_spec(a, least_stable_spec(b, c)),
        instability_rank_spec(least_stable_spec(a, b)) >= instability_rank_spec(a),
        instability_rank_spec(least_stable_spec(a, b)) >= instability_rank_spec(b),
        least_stable_spec(a, b) == a || least_stable_spec(a, b) == b,
{
}

/// Serve and refresh policy for a cache read.
#[derive(PartialEq, Eq, Structural, Clone, Copy, Debug)]
pub enum CacheBehaviour {
    /// Serve expired data. If fetch fails / launcher is offline, errors are
    /// ignored and expired data is served.
    StaleWhileRevalidateSkipOffline,
    /// Only serve locally cached data and never make a network request.
    CacheOnly,
    /// Serve expired data, revalidate in background.
    StaleWhileRevalidate,
    /// Must revalidate if data is expired.
    MustRevalidate,
    /// Ignore cache, always fetch updated data from origin.
    Bypass,
}

impl Default for CacheBehaviour {
    fn default() -> (r: Self)
        ensures
            r == CacheBehaviour::StaleWhileRevalidateSkipOffline,
    {
        CacheBehaviour::StaleWhileRevalidateSkipOffline
    }
}

/// Whether a cache refresh runs for a caller waiting on it or in the
/// background.
#[derive(PartialEq, Eq, Structural, Clone, Copy, Debug)]
pub enum CacheRefreshSource {
    Foreground,
    Background,
}

impl CacheRefreshSource {
    /// The name of the refresh source, as logged.
    pub fn as_str(self) -> (r: &'static str)
        ensures
            r@ == (match self {
                CacheRefreshSource::Foreground => "foreground"@,
                CacheRefreshSource::Background => "background"@,
            }),
    {
        match self {
            Self::Foreground => "foreground",
            Self::Background => "background",
        }
    }
}

/// Unicode lower-casing of a string, as `str::to_lowercase` computes it.
pub uninterp spec fn unicode_lowercase(s: Seq<char>) -> Seq<char>;

/// The Unicode lower-case form of `s`.
///
/// Trusted: calls `str::to_lowercase`; the contract claims only that the
/// result is a function of the input text, named `unicode_lowercase`.
#[verifier::external_body]
pub(crate) fn to_lowercase_string(s: &str) -> (r: String)
    ensures
        r@ == unicode_lowercase(s@),
{
    s.to_lowercase()
}

/// What a cached row's data column turned out to hold.
#[derive(PartialEq, Eq, Structural, Clone, Copy, Debug)]
pub enum RowData {
    /// The row caches the absence of a value.
    Missing,
    /// The stored JSON could not be read back as the expected value.
    Unreadable,
    /// A value was read; its own type, and whether it is a collection that
    /// came back empty.
    Parsed { value_type: CacheValueType, empty_collection: bool },
}

/// One row of the cache table that matched a requested id or alias.
pub struct CacheRow {
    pub id: String,
    pub alias: Option<String>,
    pub expires: i64,
    pub data: RowData,
}

/// What a cache read decided: the rows to serve (by index), the keys still
/// to fetch, the ids to refresh because they expired, the ids to refresh
/// because they are getting old, and whether reading the cache failed.
pub struct CacheReadPlan {
    pub served: Vec<usize>,
    pub remaining: Vec<String>,
    pub expired: Vec<String>,
    pub background: Vec<String>,
    pub read_failed: bool,
}

/// Whether aliases of a kind are compared case-sensitively (kinds without aliases compare exactly).
pub open spec fn alias_case_sensitive(ty: CacheValueType) -> bool {
    match ty.case_sensitive_alias_spec() {
        Some(b) => b,
        None => true,
    }
}

/// A requested key names a row by its id, or by its alias (compared
/// case-insensitively for types whose aliases are slugs or usernames).
pub open spec fn key_matches_row(ty: CacheValueType, key: Seq<char>, row: CacheRow) -> bool {
    ||| key == row.id@
    ||| match row.alias {
        Some(a) => if alias_case_sensitive(ty) {
            key == a@
        } else {
            unicode_lowercase(a@) == unicode_lowercase(key)
        },
        None => false,
    }
}

/// A row has expired when its expiry time is not after `now`.
pub open spec fn row_expired(row: CacheRow, now: i64) -> bool {
    row.expires <= now
}

/// Expired rows are ignored entirely when the caller must revalidate.
pub open spec fn row_skipped(b: CacheBehaviour, row: CacheRow, now: i64) -> bool {
    row_expired(row, now) && b == CacheBehaviour::MustRevalidate
}

/// A row that makes the whole cache read fail: unreadable data, or data of
/// another type than requested.
pub open spec fn row_is_error(b: CacheBehaviour, ty: CacheValueType, row: CacheRow, now: i64) -> bool {
    ||| row.data == RowData::Unreadable
    ||| (!row_skipped(b, row, now) && match row.data {
        RowData::Parsed { value_type, .. } => value_type != ty,
        _ => false,
    })
}

/// A row that settles the keys it matches: not skipped, and not an empty
/// collection (those are refetched rather than served).
pub open spec fn row_resolves(b: CacheBehaviour, row: CacheRow, now: i64) -> bool {
    !row_skipped(b, row, now) && !(match row.data {
        RowData::Parsed { empty_collection, .. } => empty_collection,
        _ => false,
    })
}

/// A row is served when it resolves its key and its data parsed.
pub open spec fn row_served(b: CacheBehaviour, row: CacheRow, now: i64) -> bool {
    row_resolves(b, row, now) && row.data is Parsed
}

/// A fresh row holding a value that is due for a background refresh.
pub open spec fn row_due_for_refresh(ty: CacheValueType, row: CacheRow, now: i64) -> bool {
    &&& !row_expired(row, now)
    &&& row.data is Parsed
    &&& row.expires - ty.expiry_spec() + BACKGROUND_REFRESH_THRESHOLD <= now
}

/// A cache read fails when the query failed or a row is broken, unless the cache is bypassed.
pub open spec fn cache_read_fails(b: CacheBehaviour, ty: CacheValueType, query_ok: bool, rows: Seq<CacheRow>, now: i64) -> bool {
    b != CacheBehaviour::Bypass && (!query_ok || exists|i: int| 0 <= i < rows.len() && row_is_error(b, ty, #[trigger] rows[i], now))
}

/// Some row resolves the key.
pub open spec fn key_resolved(b: CacheBehaviour, ty: CacheValueType, rows: Seq<CacheRow>, now: i64, key: Seq<char>) -> bool {
    exists|i: int| 0 <= i < rows.len() && row_resolves(b, #[trigger] rows[i], now) && key_matches_row(ty, key, rows[i])
}

/// The views of strings.
pub open spec fn str_views(v: Seq<String>) -> Seq<Seq<char>> {
    v.map_values(|s: String| s@)
}

/// The plan a cache read makes from the rows that matched its keys. With
/// `Bypass` the cache is not read; when the read fails, nothing from it is
/// used and every key is fetched again.
pub open spec fn cache_read_plan_ok(
    b: CacheBehaviour,
    ty: CacheValueType,
    keys: Seq<Seq<char>>,
    query_ok: bool,
    rows: Seq<CacheRow>,
    now: i64,
    plan: CacheReadPlan,
) -> bool {
    &&& plan.read_failed == cache_read_fails(b, ty, query_ok, rows, now)
    &&& str_views(plan.remaining@).no_duplicates()
    &&& if b == CacheBehaviour::Bypass || plan.read_failed {
        &&& plan.served@ == Seq::<usize>::empty()
        &&& plan.expired@ == Seq::<String>::empty()
        &&& plan.background@ == Seq::<String>::empty()
        &&& str_views(plan.remaining@).to_set() == keys.to_set()
    } else {
        &&& (forall|k: int| 0 <= k < plan.served@.len() ==> plan.served@[k] < rows.len()
            && row_served(b, rows[plan.served@[k] as int], now))
        &&& (forall|i: int| 0 <= i < rows.len() && row_served(b, #[trigger] rows[i], now)
            ==> plan.served@.contains(i as usize))
        &&& (forall|k1: int, k2: int| 0 <= k1 < k2 < plan.served@.len() ==> plan.served@[k1] < plan.served@[k2])
        &&& str_views(plan.remaining@).to_set() == keys.to_set().filter(|k: Seq<char>| !key_resolved(b, ty, rows, now, k))
        &&& str_views(plan.expired@).to_set() == Set::new(|id: Seq<char>| exists|i: int| 0 <= i < rows.len()
            && row_expired(#[trigger] rows[i], now) && !row_skipped(b, rows[i], now) && rows[i].id@ == id)
        &&& str_views(plan.background@).to_set() == Set::new(|id: Seq<char>| exists|i: int| 0 <= i < rows.len()
            && row_due_for_refresh(ty, #[trigger] rows[i], now) && rows[i].id@ == id)
    }
}

/// A read that must revalidate never serves a row that has expired (its expiry time is
/// not after `now`), reports no expired ids, and a key that only expired rows match is
/// fetched again.
pub proof fn law_must_revalidate_ignores_expired_rows(
    ty: CacheValueType,
    keys: Seq<Seq<char>>,
    query_ok: bool,
    rows: Seq<CacheRow>,
    now: i64,
    plan: CacheReadPlan,
)
    requires
        cache_read_plan_ok(CacheBehaviour::MustRevalidate, ty, keys, query_ok, rows, now, plan),
    ensures
        forall|k: int| 0 <= k < plan.served@.len() ==> rows[#[trigger] plan.served@[k] as int].expires > now,
        plan.expired@.len() == 0,
        forall|key: Seq<char>|
            keys.contains(key) && (forall|i: int| 0 <= i < rows.len() && key_matches_row(ty, key, #[trigger] rows[i])
                ==> rows[i].expires <= now) ==> #[trigger] str_views(plan.remaining@).contains(key),
{
    if !plan.read_failed {
        assert(str_views(plan.expired@).to_set() =~= Set::empty());
        if plan.expired@.len() > 0 {
            assert(str_views(plan.expired@).to_set().contains(str_views(plan.expired@)[0]));
        }
    }
    assert forall|key: Seq<char>|
        keys.contains(key) && (forall|i: int| 0 <= i < rows.len() && key_matches_row(ty, key, #[trigger] rows[i])
            ==> rows[i].expires <= now) implies #[trigger] str_views(plan.remaining@).contains(key) by {
        assert(keys.to_set().contains(key));
        if !plan.read_failed {
            assert(!key_resolved(CacheBehaviour::MustRevalidate, ty, rows, now, key));
        }
        assert(str_views(plan.remaining@).to_set().contains(key));
    }
}

/// A read that serves stale values while revalidating serves an expired row that holds
/// a value of the requested type (not an empty collection), and lists its id as expired.
pub proof fn law_stale_reads_serve_expired_rows(
    b: CacheBehaviour,
    ty: CacheValueType,
    keys: Seq<Seq<char>>,
    query_ok: bool,
    rows: Seq<CacheRow>,
    now: i64,
    plan: CacheReadPlan,
    i: int,
)
    requires
        b == CacheBehaviour::StaleWhileRevalidate || b == CacheBehaviour::StaleWhileRevalidateSkipOffline,
        cache_read_plan_ok(b, ty, keys, query_ok, rows, now, plan),
        !plan.read_failed,
        0 <= i < rows.len(),
        rows[i].expires <= now,
        rows[i].data == (RowData::Parsed { value_type: ty, empty_collection: false }),
    ensures
        plan.served@.contains(i as usize),
        str_views(plan.expired@).contains(rows[i].id@),
{
    assert(row_served(b, rows[i], now));
    let s = Set::new(|id: Seq<char>| exists|j: int| 0 <= j < rows.len()
        && row_expired(#[trigger] rows[j], now) && !row_skipped(b, rows[j], now) && rows[j].id@ == id);
    assert(s.contains(rows[i].id@));
    assert(str_views(plan.expired@).to_set().contains(rows[i].id@));
}

/// A cache read whose cache read did not fail and that left keys unanswered fetches them
/// unless it may only use the cache; with nothing left, it never fetches.
pub proof fn law_remaining_keys_are_fetched(ty: CacheValueType, b: CacheBehaviour, read_failed: bool, remaining_empty: bool)
    ensures
        !read_failed && !remaining_empty && b != CacheBehaviour::CacheOnly ==> cache_read_next_spec(
            ty,
            b,
            read_failed,
            remaining_empty,
        ) == CacheReadNext::Fetch,
        remaining_empty ==> cache_read_next_spec(ty, b, read_failed, remaining_empty) != CacheReadNext::Fetch,
        b == CacheBehaviour::CacheOnly ==> cache_read_next_spec(ty, b, read_failed, remaining_empty) != CacheReadNext::Fetch,
{
}

/// Whether `key` names `row`.
pub fn key_matches(ty: CacheValueType, key: &str, row: &CacheRow) -> (r: bool)
    ensures
        r == key_matches_row(ty, key@, *row),
{
    if str_eq(key, row.id.as_str()) {
        return true;
    }
    match &row.alias {
        None => false,
        Some(a) => {
            let sensitive = match ty.case_sensitive_alias() {
                Some(b) => b,
                None => true,
            };
            if sensitive {
                str_eq(key, a.as_str())
            } else {
                let la = to_lowercase_string(a.as_str());
                let lk = to_lowercase_string(key);
                str_eq(la.as_str(), lk.as_str())
            }
        }
    }
}

fn row_is_error_exec(b: CacheBehaviour, ty: CacheValueType, row: &CacheRow, now: i64) -> (r: bool)
    ensures
        r == row_is_error(b, ty, *row, now),
{
    let skipped = row.expires <= now && b == CacheBehaviour::MustRevalidate;
    match row.data {
        RowData::Unreadable => true,
        RowData::Parsed { value_type, .. } => !skipped && value_type != ty,
        RowData::Missing => false,
    }
}

fn row_resolves_exec(b: CacheBehaviour, row: &CacheRow, now: i64) -> (r: bool)
    ensures
        r == row_resolves(b, *row, now),
{
    let skipped = row.expires <= now && b == CacheBehaviour::MustRevalidate;
    let empty = match row.data {
        RowData::Parsed { empty_collection, .. } => empty_collection,
        _ => false,
    };
    !skipped && !empty
}

/// Whether some row settles `key`.
fn key_resolved_exec(b: CacheBehaviour, ty: CacheValueType, rows: &[CacheRow], now: i64, key: &str) -> (r: bool)
    ensures
        r == key_resolved(b, ty, rows@, now, key@),
{
    let mut i: usize = 0;
    while i < rows.len()
        invariant
            i <= rows.len(),
            forall|j: int| 0 <= j < i ==> !(row_resolves(b, #[trigger] rows@[j], now) && key_matches_row(ty, key@, rows@[j])),
        decreases rows.len() - i,
    {
        if row_resolves_exec(b, &rows[i], now) && key_matches(ty, key, &rows[i]) {
            return true;
        }
        i = i + 1;
    }
    false
}

fn contains_string(v: &Vec<String>, s: &str) -> (r: bool)
    ensures
        r == str_views(v@).contains(s@),
{
    let mut i: usize = 0;
    while i < v.len()
        invariant
            i <= v.len(),
            forall|j: int| 0 <= j < i ==> v@[j]@ != s@,
        decreases v.len() - i,
    {
        if str_eq(v[i].as_str(), s) {
            assert(str_views(v@)[i as int] == s@);
            return true;
        }
        i = i + 1;
    }
    assert forall|j: int| 0 <= j < str_views(v@).len() implies str_views(v@)[j] != s@ by {}
    false
}

/// Every key once, in first-occurrence order, kept only where `resolved` is
/// false.
fn unresolved_keys(b: CacheBehaviour, ty: CacheValueType, rows: &[CacheRow], now: i64, keys: &[String], use_rows: bool) -> (out: Vec<String>)
    ensures
        str_views(out@).no_duplicates(),
        use_rows ==> str_views(out@).to_set() == str_views(keys@).to_set().filter(|k: Seq<char>| !key_resolved(b, ty, rows@, now, k)),
        !use_rows ==> str_views(out@).to_set() == str_views(keys@).to_set(),
{
    let mut out: Vec<String> = Vec::new();
    let mut i: usize = 0;
    while i < keys.len()
        invariant
            i <= keys.len(),
            str_views(out@).no_duplicates(),
            use_rows ==> str_views(out@).to_set() == str_views(keys@.take(i as int)).to_set().filter(|k: Seq<char>| !key_resolved(b, ty, rows@, now, k)),
            !use_rows ==> str_views(out@).to_set() == str_views(keys@.take(i as int)).to_set(),
        decreases keys.len() - i,
    {
        let key = keys[i].as_str();
        let skip = use_rows && key_resolved_exec(b, ty, rows, now, key);
        let ghost before = out@;
        let present = contains_string(&out, key);
        if !skip && !present {
            out.push(keys[i].clone());
            proof {
                assert(str_views(out@) =~= str_views(before).push(keys@[i as int]@));
                assert forall|x: int, y: int| 0 <= x < y < str_views(out@).len() implies str_views(out@)[x] != str_views(out@)[y] by {
                    if y == str_views(out@).len() - 1 {
                        assert(str_views(before).contains(str_views(out@)[x]) || x >= str_views(before).len());
                    } else {
                        assert(str_views(out@)[x] == str_views(before)[x]);
                        assert(str_views(out@)[y] == str_views(before)[y]);
                    }
                }
            }
        }
        proof {
            assert(str_views(keys@.take(i + 1)) =~= str_views(keys@.take(i as int)).push(keys@[i as int]@));
            let kv = keys@[i as int]@;
            assert(str_views(keys@.take(i + 1)).to_set() =~= str_views(keys@.take(i as int)).to_set().insert(kv)) by {
                assert forall|x: Seq<char>| str_views(keys@.take(i + 1)).to_set().contains(x) <==> str_views(keys@.take(i as int)).to_set().insert(kv).contains(x) by {
                    let t1 = str_views(keys@.take(i + 1));
                    let t0 = str_views(keys@.take(i as int));
                    if t1.contains(x) {
                        let w = choose|w: int| 0 <= w < t1.len() && t1[w] == x;
                        if w < t0.len() {
                            assert(t0[w] == x);
                        }
                    }
                    if t0.contains(x) {
                        let w = choose|w: int| 0 <= w < t0.len() && t0[w] == x;
                        assert(t1[w] == x);
                    }
                    if x == kv {
                        assert(t1[i as int] == x);
                    }
                }
            }
            if !skip && !present {
                assert(str_views(out@).to_set() =~= str_views(before).to_set().insert(kv)) by {
                    assert forall|x: Seq<char>| str_views(out@).to_set().contains(x) <==> str_views(before).to_set().insert(kv).contains(x) by {
                        let t1 = str_views(out@);
                        let t0 = str_views(before);
                        if t1.contains(x) {
                            let w = choose|w: int| 0 <= w < t1.len() && t1[w] == x;
                            if w < t0.len() {
                                assert(t0[w] == x);
                            }
                        }
                        if t0.contains(x) {
                            let w = choose|w: int| 0 <= w < t0.len() && t0[w] == x;
                            assert(t1[w] == x);
                        }
                        if x == kv {
                            assert(t1[t1.len() - 1] == x);
                        }
                    }
                }
            }
            if present {
                assert(str_views(before).to_set().contains(kv));
            }
        }
        i = i + 1;
    }
    assert(keys@.take(keys.len() as int) =~= keys@);
    out
}

/// Decides, from the cache rows that matched the requested keys, which rows
/// are served, which keys must still be fetched, and which ids are refreshed
/// in the background. `query_ok` is false when the cache query itself failed.
pub fn plan_cache_read(
    ty: CacheValueType,
    keys: &[String],
    behaviour: CacheBehaviour,
    query_ok: bool,
    rows: &[CacheRow],
    now: i64,
) -> (plan: CacheReadPlan)
    ensures
        cache_read_plan_ok(behaviour, ty, str_views(keys@), query_ok, rows@, now, plan),
{
    let b = behaviour;
    if b == CacheBehaviour::Bypass {
        let remaining = unresolved_keys(b, ty, rows, now, keys, false);
        return CacheReadPlan {
            served: Vec::new(),
            remaining,
            expired: Vec::new(),
            background: Vec::new(),
            read_failed: false,
        };
    }
    let mut failed = !query_ok;
    let mut i: usize = 0;
    while i < rows.len()
        invariant
            i <= rows.len(),
            failed == (!query_ok || exists|j: int| 0 <= j < i && row_is_error(b, ty, #[trigger] rows@[j], now)),
        decreases rows.len() - i,
    {
        if row_is_error_exec(b, ty, &rows[i], now) {
            failed = true;
        }
        i = i + 1;
    }
    if failed {
        let remaining = unresolved_keys(b, ty, rows, now, keys, false);
        return CacheReadPlan {
            served: Vec::new(),
            remaining,
            expired: Vec::new(),
            background: Vec::new(),
            read_failed: true,
        };
    }
    let mut served: Vec<usize> = Vec::new();
    let mut expired: Vec<String> = Vec::new();
    let mut background: Vec<String> = Vec::new();
    let mut k: usize = 0;
    while k < rows.len()
        invariant
            k <= rows.len(),
            forall|t: int| 0 <= t < served@.len() ==> served@[t] < k && row_served(b, rows@[served@[t] as int], now),
            forall|j: int| 0 <= j < k && row_served(b, #[trigger] rows@[j], now) ==> served@.contains(j as usize),
            forall|t1: int, t2: int| 0 <= t1 < t2 < served@.len() ==> served@[t1] < served@[t2],
            str_views(expired@).to_set() == Set::new(|id: Seq<char>| exists|i: int| 0 <= i < k
                && row_expired(#[trigger] rows@[i], now) && !row_skipped(b, rows@[i], now) && rows@[i].id@ == id),
            str_views(background@).to_set() == Set::new(|id: Seq<char>| exists|i: int| 0 <= i < k
                && row_due_for_refresh(ty, #[trigger] rows@[i], now) && rows@[i].id@ == id),
        decreases rows.len() - k,
    {
        let row = &rows[k];
        let is_expired = row.expires <= now;
        let skipped = is_expired && b == CacheBehaviour::MustRevalidate;
        let ghost old_expired = expired@;
        let ghost old_background = background@;
        if is_expired && !skipped {
            expired.push(row.id.clone());
        }
        let parsed = match row.data { RowData::Parsed { .. } => true, _ => false };
        let due = !is_expired && parsed && (row.expires as i128) - (ty.expiry() as i128)
            + (BACKGROUND_REFRESH_THRESHOLD as i128) <= (now as i128);
        if due {
            background.push(row.id.clone());
        }
        let ghost old_served = served@;
        if row_resolves_exec(b, row, now) && parsed {
            served.push(k);
            assert(served@ == old_served.push(k));
            assert(served@[served@.len() - 1] == k);
        }
        assert forall|j: int| 0 <= j < k + 1 && row_served(b, #[trigger] rows@[j], now) implies served@.contains(j as usize) by {
            if j < k {
                let w = choose|w: int| 0 <= w < old_served.len() && old_served[w] == j as usize;
                assert(served@[w] == j as usize);
            }
        }
        proof {
            let ex_new = Set::new(|id: Seq<char>| exists|i: int| 0 <= i < k + 1
                && row_expired(#[trigger] rows@[i], now) && !row_skipped(b, rows@[i], now) && rows@[i].id@ == id);
            let ex_old = Set::new(|id: Seq<char>| exists|i: int| 0 <= i < k
                && row_expired(#[trigger] rows@[i], now) && !row_skipped(b, rows@[i], now) && rows@[i].id@ == id);
            if is_expired && !skipped {
                assert(str_views(expired@) =~= str_views(old_expired).push(rows@[k as int].id@));
                assert(str_views(expired@).to_set() =~= ex_new) by {
                    assert forall|x: Seq<char>| str_views(expired@).to_set().contains(x) <==> ex_new.contains(x) by {
                        if str_views(expired@).contains(x) {
                            let w = choose|w: int| 0 <= w < str_views(expired@).len() && str_views(expired@)[w] == x;
                            if w < old_expired.len() {
                                assert(str_views(old_expired)[w] == x);
                                assert(str_views(old_expired).to_set().contains(x));
                            }
                        }
                        if ex_new.contains(x) {
                            let i = choose|i: int| 0 <= i < k + 1 && row_expired(#[trigger] rows@[i], now) && !row_skipped(b, rows@[i], now) && rows@[i].id@ == x;
                            if i < k {
                                assert(ex_old.contains(x));
                                let w = choose|w: int| 0 <= w < str_views(old_expired).len() && str_views(old_expired)[w] == x;
                                assert(str_views(expired@)[w] == x);
                            } else {
                                assert(str_views(expired@)[str_views(expired@).len() - 1] == x);
                            }
                        }
                    }
                }
            } else {
                assert(ex_new =~= ex_old) by {
                    assert forall|x: Seq<char>| ex_new.contains(x) implies ex_old.contains(x) by {
                        let i = choose|i: int| 0 <= i < k + 1 && row_expired(#[trigger] rows@[i], now) && !row_skipped(b, rows@[i], now) && rows@[i].id@ == x;
                        assert(i < k);
                    }
                }
            }
            let bg_new = Set::new(|id: Seq<char>| exists|i: int| 0 <= i < k + 1
                && row_due_for_refresh(ty, #[trigger] rows@[i], now) && rows@[i].id@ == id);
            let bg_old = Set::new(|id: Seq<char>| exists|i: int| 0 <= i < k
                && row_due_for_refresh(ty, #[trigger] rows@[i], now) && rows@[i].id@ == id);
            assert(due == row_due_for_refresh(ty, rows@[k as int], now));
            if due {
                assert(str_views(background@) =~= str_views(old_background).push(rows@[k as int].id@));
                assert(str_views(background@).to_set() =~= bg_new) by {
                    assert forall|x: Seq<char>| str_views(background@).to_set().contains(x) <==> bg_new.contains(x) by {
                        if str_views(background@).contains(x) {
                            let w = choose|w: int| 0 <= w < str_views(background@).len() && str_views(background@)[w] == x;
                            if w < old_background.len() {
                                assert(str_views(old_background)[w] == x);
                                assert(str_views(old_background).to_set().contains(x));
                            }
                        }
                        if bg_new.contains(x) {
                            let i = choose|i: int| 0 <= i < k + 1 && row_due_for_refresh(ty, #[trigger] rows@[i], now) && rows@[i].id@ == x;
                            if i < k {
                                assert(bg_old.contains(x));
                                let w = choose|w: int| 0 <= w < str_views(old_background).len() && str_views(old_background)[w] == x;
                                assert(str_views(background@)[w] == x);
                            } else {
                                assert(str_views(background@)[str_views(background@).len() - 1] == x);
                            }
                        }
                    }
                }
            } else {
                assert(bg_new =~= bg_old) by {
                    assert forall|x: Seq<char>| bg_new.contains(x) implies bg_old.contains(x) by {
                        let i = choose|i: int| 0 <= i < k + 1 && row_due_for_refresh(ty, #[trigger] rows@[i], now) && rows@[i].id@ == x;
                        assert(i < k);
                    }
                }
            }
        }
        k = k + 1;
    }
    let remaining = unresolved_keys(b, ty, rows, now, keys, true);
    let plan = CacheReadPlan { served, remaining, expired, background, read_failed: false };
    proof {
        assert(!cache_read_fails(b, ty, query_ok, rows@, now));
    }
    plan
}

/// The error a cache read ends with.
#[derive(PartialEq, Eq, Structural, Clone, Copy, Debug)]
pub enum CacheReadFailure {
    /// The cache read error itself: for a type whose cache an install can
    /// repair it is reported as a typed cache read error, noting whether
    /// replacement data from the remote was also unavailable.
    Cache { repairable: bool, remote_unavailable: bool },
    /// The remote fetch error.
    Remote,
}

/// A read of no keys answers at once with nothing; any other read goes on to the cache.
pub fn cache_read_needed(keys: &[String]) -> (r: bool)
    ensures
        r == (keys@.len() > 0),
{
    keys.len() > 0
}

/// How a cache read continues after the cache rows were examined.
#[derive(PartialEq, Eq, Structural, Clone, Copy, Debug)]
pub enum CacheReadNext {
    Fail(CacheReadFailure),
    /// Fetch the remaining keys from the remote.
    Fetch,
    /// Serve what the cache gave.
    Serve,
}

/// What follows a cache read: a failure when only the cache may answer and it failed, a fetch of the keys still missing, or the answer.
pub open spec fn cache_read_next_spec(ty: CacheValueType, b: CacheBehaviour, read_failed: bool, remaining_empty: bool) -> CacheReadNext {
    if b == CacheBehaviour::CacheOnly && read_failed {
        CacheReadNext::Fail(CacheReadFailure::Cache { repairable: ty == CacheValueType::CurseForgeProject, remote_unavailable: false })
    } else if !remaining_empty && b != CacheBehaviour::CacheOnly {
        CacheReadNext::Fetch
    } else {
        CacheReadNext::Serve
    }
}

/// What follows the cache examination: a cache-only read that failed ends
/// with the cache error; keys still unresolved are fetched unless the read is
/// cache-only.
pub fn cache_read_next(ty: CacheValueType, b: CacheBehaviour, plan: &CacheReadPlan) -> (r: CacheReadNext)
    ensures
        r == cache_read_next_spec(ty, b, plan.read_failed, plan.remaining@.len() == 0),
{
    if b == CacheBehaviour::CacheOnly && plan.read_failed {
        CacheReadNext::Fail(CacheReadFailure::Cache { repairable: ty.is_repairable_install_cache(), remote_unavailable: false })
    } else if plan.remaining.len() != 0 && b != CacheBehaviour::CacheOnly {
        CacheReadNext::Fetch
    } else {
        CacheReadNext::Serve
    }
}

/// What a cache read does with the outcome of fetching the remaining keys.
#[derive(PartialEq, Eq, Structural, Clone, Copy, Debug)]
pub enum CacheFetchNext {
    Fail(CacheReadFailure),
    /// Offline: the remaining keys are treated as expired and refreshed later.
    TreatRemainingAsExpired,
    /// Persist the fetched entries and serve the included ones.
    UseFetched,
}

/// What follows a fetch of missing keys: the fetched values, or a failure that says whether the cache can be repaired and whether the remote service was reached.
pub open spec fn cache_fetch_next_spec(ty: CacheValueType, b: CacheBehaviour, read_failed: bool, fetch_ok: bool, fetched_empty: bool) -> CacheFetchNext {
    let repairable = ty == CacheValueType::CurseForgeProject;
    if !fetch_ok {
        if read_failed {
            CacheFetchNext::Fail(CacheReadFailure::Cache { repairable, remote_unavailable: true })
        } else if b == CacheBehaviour::StaleWhileRevalidateSkipOffline {
            CacheFetchNext::TreatRemainingAsExpired
        } else {
            CacheFetchNext::Fail(CacheReadFailure::Remote)
        }
    } else if fetched_empty && read_failed {
        CacheFetchNext::Fail(CacheReadFailure::Cache { repairable, remote_unavailable: false })
    } else {
        CacheFetchNext::UseFetched
    }
}

/// Decides what a finished fetch leads to: a failed cache read is reported
/// when the remote gave nothing to replace it; offline reads that may skip
/// the network keep going with expired data.
pub fn cache_fetch_next(ty: CacheValueType, b: CacheBehaviour, read_failed: bool, fetch_ok: bool, fetched_empty: bool) -> (r: CacheFetchNext)
    ensures
        r == cache_fetch_next_spec(ty, b, read_failed, fetch_ok, fetched_empty),
{
    let repairable = ty.is_repairable_install_cache();
    if !fetch_ok {
        if read_failed {
            CacheFetchNext::Fail(CacheReadFailure::Cache { repairable, remote_unavailable: true })
        } else if b == CacheBehaviour::StaleWhileRevalidateSkipOffline {
            CacheFetchNext::TreatRemainingAsExpired
        } else {
            CacheFetchNext::Fail(CacheReadFailure::Remote)
        }
    } else if fetched_empty && read_failed {
        CacheFetchNext::Fail(CacheReadFailure::Cache { repairable, remote_unavailable: false })
    } else {
        CacheFetchNext::UseFetched
    }
}

/// Whether stale values are served while they are refreshed in the background.
pub open spec fn refreshes_in_background(b: CacheBehaviour) -> bool {
    b == CacheBehaviour::StaleWhileRevalidate || b == CacheBehaviour::StaleWhileRevalidateSkipOffline
}

/// The ids refreshed in the background once a read is served: the expired
/// ids and the ids due for refresh, for the stale-while-revalidate policies
/// only; `None` when nothing is refreshed.
pub fn background_refresh_ids(b: CacheBehaviour, expired: Vec<String>, background: Vec<String>) -> (r: Option<Vec<String>>)
    ensures
        refreshes_in_background(b) && expired@.len() + background@.len() > 0 ==> r is Some && r->0@ == expired@ + background@,
        !(refreshes_in_background(b) && expired@.len() + background@.len() > 0) ==> r is None,
{
    if !(b == CacheBehaviour::StaleWhileRevalidate || b == CacheBehaviour::StaleWhileRevalidateSkipOffline) {
        return None;
    }
    let mut all = expired;
    let mut more = background;
    all.append(&mut more);
    if all.len() == 0 {
        None
    } else {
        Some(all)
    }
}

/// The identity of a cache entry being written: its id, type and alias.
pub struct CacheEntryKey {
    pub id: String,
    pub type_: CacheValueType,
    pub alias: Option<String>,
}

/// Two entries share their id and kind.
pub open spec fn same_id(a: CacheEntryKey, b: CacheEntryKey) -> bool {
    a.id@ == b.id@ && a.type_ == b.type_
}

/// Two entries of one kind share an alias.
pub open spec fn same_alias(a: CacheEntryKey, b: CacheEntryKey) -> bool {
    a.type_ == b.type_ && match (a.alias, b.alias) {
        (Some(x), Some(y)) => x@ == y@,
        _ => false,
    }
}

/// An entry of a write batch is written when no later entry of the batch has
/// its id, nor (when it has an alias) its alias: the last write wins.
pub open spec fn kept_in_upsert(items: Seq<CacheEntryKey>, p: int) -> bool {
    forall|q: int| p < q < items.len() ==> !same_id(#[trigger] items[q], items[p]) && !same_alias(items[q], items[p])
}

fn same_id_exec(a: &CacheEntryKey, b: &CacheEntryKey) -> (r: bool)
    ensures
        r == same_id(*a, *b),
{
    a.type_ == b.type_ && str_eq(a.id.as_str(), b.id.as_str())
}

fn same_alias_exec(a: &CacheEntryKey, b: &CacheEntryKey) -> (r: bool)
    ensures
        r == same_alias(*a, *b),
{
    if a.type_ != b.type_ {
        return false;
    }
    match (&a.alias, &b.alias) {
        (Some(x), Some(y)) => str_eq(x.as_str(), y.as_str()),
        _ => false,
    }
}

/// The positions of a cache write batch that are written, in order; for
/// repeated ids or aliases only the last entry is written.
pub fn upsert_kept_positions(items: &[CacheEntryKey]) -> (kept: Vec<usize>)
    ensures
        forall|t: int| 0 <= t < kept@.len() ==> kept@[t] < items@.len() && kept_in_upsert(items@, kept@[t] as int),
        forall|p: int| 0 <= p < items@.len() && kept_in_upsert(items@, p) ==> kept@.contains(p as usize),
        forall|t1: int, t2: int| 0 <= t1 < t2 < kept@.len() ==> kept@[t1] < kept@[t2],
{
    let mut kept: Vec<usize> = Vec::new();
    let mut p: usize = 0;
    while p < items.len()
        invariant
            p <= items.len(),
            forall|t: int| 0 <= t < kept@.len() ==> kept@[t] < p && kept_in_upsert(items@, kept@[t] as int),
            forall|x: int| 0 <= x < p && kept_in_upsert(items@, x) ==> kept@.contains(x as usize),
            forall|t1: int, t2: int| 0 <= t1 < t2 < kept@.len() ==> kept@[t1] < kept@[t2],
        decreases items.len() - p,
    {
        let mut q = p + 1;
        let mut keep = true;
        while q < items.len() && keep
            invariant
                p < items.len(),
                p + 1 <= q <= items.len(),
                keep ==> forall|r: int| p < r < q ==> !same_id(#[trigger] items@[r], items@[p as int]) && !same_alias(items@[r], items@[p as int]),
                !keep ==> !kept_in_upsert(items@, p as int),
            decreases items.len() - q,
        {
            if same_id_exec(&items[q], &items[p]) || same_alias_exec(&items[q], &items[p]) {
                keep = false;
            }
            q = q + 1;
        }
        let ghost old_kept = kept@;
        if keep {
            kept.push(p);
            assert(kept@[kept@.len() - 1] == p);
        }
        assert forall|x: int| 0 <= x < p + 1 && kept_in_upsert(items@, x) implies kept@.contains(x as usize) by {
            if x < p {
                let w = choose|w: int| 0 <= w < old_kept.len() && old_kept[w] == x as usize;
                assert(kept@[w] == x as usize);
            }
        }
        p = p + 1;
    }
    kept
}

/// Among the entries a batch writes, no two share an id, and no two share an
/// alias: a batch never asks the cache to store conflicting rows.
pub proof fn law_upsert_batch_has_no_conflicts(items: Seq<CacheEntryKey>, p1: int, p2: int)
    requires
        0 <= p1 < p2 < items.len(),
        kept_in_upsert(items, p1),
        kept_in_upsert(items, p2),
    ensures
        !same_id(items[p1], items[p2]),
        !same_alias(items[p1], items[p2]),
{
    assert(!same_id(items[p2], items[p1]) && !same_alias(items[p2], items[p1]));
}

/// The last entry of a batch is always written.
pub proof fn law_upsert_last_entry_is_kept(items: Seq<CacheEntryKey>)
    requires
        items.len() > 0,
    ensures
        kept_in_upsert(items, items.len() - 1),
{
}

/// A file-update cache key split into its parts.
pub struct FileUpdateKey {
    pub hash: String,
    pub loaders_key: String,
    pub channel_policy: String,
    pub game_version: String,
}

/// A channel policy as it appears in a file update key.
pub open spec fn is_channel_policy_key(s: Seq<char>) -> bool {
    s == "release"@ || s == "beta"@ || s == "alpha"@ || s == "all"@
}

/// How a file-update key `hash-loaders-channel-gameversion` reads back. Keys
/// written before channel policies existed (`hash-loaders-gameversion`) read
/// with the `alpha` policy; keys with fewer parts do not parse.
pub open spec fn parse_file_update_key_spec(s: Seq<char>) -> Option<(Seq<char>, Seq<char>, Seq<char>, Seq<char>)> {
    let p1 = index_of_from(s, '-', 0);
    let p2 = index_of_from(s, '-', p1 + 1);
    let p3 = index_of_from(s, '-', p2 + 1);
    if p1 >= 0 && p2 >= 0 && p3 >= 0 && is_channel_policy_key(s.subrange(p2 + 1, p3)) {
        Some((s.subrange(0, p1), s.subrange(p1 + 1, p2), s.subrange(p2 + 1, p3), s.subrange(p3 + 1, s.len() as int)))
    } else if p1 >= 0 && p2 >= 0 {
        Some((s.subrange(0, p1), s.subrange(p1 + 1, p2), "alpha"@, s.subrange(p2 + 1, s.len() as int)))
    } else {
        None
    }
}

fn is_channel_policy_key_exec(chars: &Vec<char>, from: usize, to: usize) -> (r: bool)
    requires
        from <= to <= chars.len(),
    ensures
        r == is_channel_policy_key(chars@.subrange(from as int, to as int)),
{
    let part = string_from_chars(chars, from, to);
    str_eq(part.as_str(), "release") || str_eq(part.as_str(), "beta") || str_eq(part.as_str(), "alpha")
        || str_eq(part.as_str(), "all")
}

/// Splits a file-update cache key into hash, loaders, channel policy and game
/// version (`str::splitn` on `-`, four parts, else three).
pub fn parse_file_update_key(key: &str) -> (r: Option<FileUpdateKey>)
    ensures
        match (r, parse_file_update_key_spec(key@)) {
            (Some(k), Some(t)) => k.hash@ == t.0 && k.loaders_key@ == t.1 && k.channel_policy@ == t.2 && k.game_version@ == t.3,
            (None, None) => true,
            _ => false,
        },
{
    let chars = chars_of(key);
    proof {
        lemma_index_of_from(chars@, '-', 0);
    }
    let p1 = match find_char_from(&chars, '-', 0) {
        Some(p) => p,
        None => return None,
    };
    proof {
        lemma_index_of_from(chars@, '-', p1 + 1);
    }
    let p2 = match find_char_from(&chars, '-', p1 + 1) {
        Some(p) => p,
        None => return None,
    };
    proof {
        lemma_index_of_from(chars@, '-', p2 + 1);
    }
    let n = chars.len();
    match find_char_from(&chars, '-', p2 + 1) {
        Some(p3) => {
            if is_channel_policy_key_exec(&chars, p2 + 1, p3) {
                return Some(FileUpdateKey {
                    hash: string_from_chars(&chars, 0, p1),
                    loaders_key: string_from_chars(&chars, p1 + 1, p2),
                    channel_policy: string_from_chars(&chars, p2 + 1, p3),
                    game_version: string_from_chars(&chars, p3 + 1, n),
                });
            }
        },
        None => {},
    }
    let alpha = to_owned_string(ReleaseChannel::Alpha.key());
    Some(FileUpdateKey {
        hash: string_from_chars(&chars, 0, p1),
        loaders_key: string_from_chars(&chars, p1 + 1, p2),
        channel_policy: alpha,
        game_version: string_from_chars(&chars, p2 + 1, n),
    })
}

/// The cache key of a file update: hash, `+`-joined loaders, channel policy
/// and game version, separated by `-`.
pub open spec fn file_update_key_spec(hash: Seq<char>, loaders: Seq<Seq<char>>, channel_policy: Seq<char>, game_version: Seq<char>) -> Seq<char> {
    hash + "-"@ + join_spec(loaders, "+"@) + "-"@ + channel_policy + "-"@ + game_version
}

/// The cache key of the update check for a file.
pub fn file_update_key(hash: &str, loaders: &[String], channel_policy: &str, game_version: &str) -> (k: String)
    ensures
        k@ == file_update_key_spec(hash@, loaders@.map_values(|l: String| l@), channel_policy@, game_version@),
{
    let mut k = to_owned_string(hash);
    k.append("-");
    let joined = join_strings(loaders, "+");
    k.append(joined.as_str());
    k.append("-");
    k.append(channel_policy);
    k.append("-");
    k.append(game_version);
    k
}

/// A text without `-`.
pub open spec fn dash_free(s: Seq<char>) -> bool {
    forall|i: int| 0 <= i < s.len() ==> s[i] != '-'
}

proof fn lemma_index_of_dash_after_free(s: Seq<char>, from: int, end: int)
    requires
        0 <= from <= end < s.len(),
        forall|i: int| from <= i < end ==> s[i] != '-',
        s[end] == '-',
    ensures
        index_of_from(s, '-', from) == end,
    decreases end - from,
{
    if from < end {
        lemma_index_of_dash_after_free(s, from + 1, end);
    }
}

/// A file-update key reads back into the parts it was written from, as long
/// as the hash and loaders hold no `-` and the channel policy is one of the
/// known keys.
pub proof fn law_file_update_key_round_trip(hash: Seq<char>, loaders_key: Seq<char>, channel: Seq<char>, game_version: Seq<char>)
    requires
        dash_free(hash),
        dash_free(loaders_key),
        is_channel_policy_key(channel),
    ensures
        parse_file_update_key_spec(hash + "-"@ + loaders_key + "-"@ + channel + "-"@ + game_version)
            == Some((hash, loaders_key, channel, game_version)),
{
    reveal_strlit("-");
    reveal_strlit("release");
    reveal_strlit("beta");
    reveal_strlit("alpha");
    reveal_strlit("all");
    let s = hash + "-"@ + loaders_key + "-"@ + channel + "-"@ + game_version;
    let a = hash.len() as int;
    let b = a + 1 + loaders_key.len();
    let c = b + 1 + channel.len();
    assert(dash_free(channel)) by {
        assert forall|i: int| 0 <= i < channel.len() implies channel[i] != '-' by {}
    }
    assert forall|i: int| 0 <= i < a implies s[i] != '-' by {
        assert(s[i] == hash[i]);
    }
    assert(s[a] == '-');
    lemma_index_of_dash_after_free(s, 0, a);
    assert forall|i: int| a + 1 <= i < b implies s[i] != '-' by {
        assert(s[i] == loaders_key[i - a - 1]);
    }
    assert(s[b] == '-');
    lemma_index_of_dash_after_free(s, a + 1, b);
    assert forall|i: int| b + 1 <= i < c implies s[i] != '-' by {
        assert(s[i] == channel[i - b - 1]);
    }
    assert(s[c] == '-');
    lemma_index_of_dash_after_free(s, b + 1, c);
    assert(s.subrange(0, a) =~= hash);
    assert(s.subrange(a + 1, b) =~= loaders_key);
    assert(s.subrange(b + 1, c) =~= channel);
    assert(s.subrange(c + 1, s.len() as int) =~= game_version);
}

/// `s` with every trailing `.disabled` removed (`str::trim_end_matches`).
pub open spec fn trim_disabled_suffix(s: Seq<char>) -> Seq<char>
    decreases s.len(),
{
    if s.len() >= 9 && s.subrange(s.len() - 9, s.len() as int) == ".disabled"@ {
        trim_disabled_suffix(s.subrange(0, s.len() - 9))
    } else {
        s
    }
}

/// The cache key of a file hash: the file size, then the path with any
/// `.disabled` suffix removed, so that toggling a mod keeps its hash entry.
pub open spec fn file_hash_key_spec(size: u64, path: Seq<char>) -> Seq<char> {
    decimal_spec(size as nat) + "-"@ + trim_disabled_suffix(path)
}

/// The cache key of a file's hash: its size and path.
pub fn file_hash_key(size: u64, path: &str) -> (k: String)
    ensures
        k@ == file_hash_key_spec(size, path@),
{
    let chars = chars_of(path);
    let suffix = chars_of(".disabled");
    proof { reveal_strlit(".disabled"); }
    let mut end = chars.len();
    assert(chars@.subrange(0, end as int) =~= chars@);
    while end >= 9 && crate::text::chars_occur_at(&chars, &suffix, end - 9)
        invariant
            end <= chars.len(),
            suffix@ == ".disabled"@,
            suffix@.len() == 9,
            trim_disabled_suffix(chars@) == trim_disabled_suffix(chars@.subrange(0, end as int)),
        decreases end,
    {
        proof {
            let t = chars@.subrange(0, end as int);
            assert(t.subrange(t.len() - 9, t.len() as int) =~= chars@.subrange(end - 9, end as int));
            assert(t.subrange(0, t.len() - 9) =~= chars@.subrange(0, end - 9));
        }
        end = end - 9;
    }
    proof {
        let t = chars@.subrange(0, end as int);
        if end >= 9 {
            assert(t.subrange(t.len() - 9, t.len() as int) =~= chars@.subrange(end - 9, end as int));
        }
    }
    let mut k = decimal_string(size);
    k.append("-");
    let rest = string_from_chars(&chars, 0, end);
    k.append(rest.as_str());
    k
}

/// The alias of a file hash entry: its key followed by `.disabled`.
pub fn file_hash_alias(size: u64, path: &str) -> (a: String)
    ensures
        a@ == file_hash_key_spec(size, path@) + ".disabled"@,
{
    let mut a = file_hash_key(size, path);
    a.append(".disabled");
    a
}

/// A disabled file keys the same hash entry as the enabled file.
pub proof fn law_disabled_file_shares_hash_key(size: u64, path: Seq<char>)
    ensures
        file_hash_key_spec(size, path + ".disabled"@) == file_hash_key_spec(size, path),
{
    reveal_strlit(".disabled");
    let s = path + ".disabled"@;
    assert(s.subrange(s.len() - 9, s.len() as int) =~= ".disabled"@);
    assert(s.subrange(0, s.len() - 9) =~= path);
}

/// Kinds of installable project content.
#[derive(PartialEq, Eq, Structural, Clone, Copy, Debug)]
pub enum ProjectType {
    Mod,
    DataPack,
    ResourcePack,
    ShaderPack,
    WorldSave,
}

/// Cached modpack file hashes for filtering content.
#[derive(Clone, Debug)]
pub struct CachedModpackFiles {
    pub version_id: String,
    pub file_hashes: Vec<String>,
    pub project_ids: Vec<String>,
}

/// A cached answer to an update check.
#[derive(Clone, Debug)]
pub struct CachedFileUpdate {
    pub hash: String,
    pub game_version: String,
    pub loaders: Vec<String>,
    pub channel_policy: String,
    pub update_version_id: String,
}

/// The loaders of a stored file update: entries written before loaders were
/// a list kept a single `loader`, which becomes a one-element list.
pub fn stored_file_update_loaders(loaders: Option<Vec<String>>, loader: Option<String>) -> (r: Vec<String>)
    ensures
        loaders is Some ==> r@ == loaders->0@,
        loaders is None && loader is Some ==> r@ == seq![loader->0],
        loaders is None && loader is None ==> r@.len() == 0,
{
    match loaders {
        Some(l) => l,
        None => match loader {
            Some(one) => vec![one],
            None => Vec::new(),
        },
    }
}

/// A cached file hash.
#[derive(Clone, Debug)]
pub struct CachedFileHash {
    pub path: String,
    pub size: u64,
    pub hash: String,
    pub project_type: Option<ProjectType>,
    pub project_id: Option<String>,
    pub version_id: Option<String>,
}

/// A file whose Modrinth project and version are known.
#[derive(Clone, Copy, Debug)]
pub struct KnownModrinthFile<'a> {
    pub project_id: &'a str,
    pub version_id: &'a str,
}

/// A Modrinth version matched by a file hash.
#[derive(Clone, Debug)]
pub struct ModrinthHashMatch {
    pub hash: String,
    pub project_id: String,
    pub version_id: String,
}

/// The license of a project.
#[derive(Clone, Debug)]
pub struct License {
    pub id: String,
    pub name: String,
    pub url: Option<String>,
}

/// A donation link of a project.
#[derive(Clone, Debug)]
pub struct DonationLink {
    pub id: String,
    pub platform: String,
    pub url: String,
}

/// Whether a project is needed on a side.
#[derive(PartialEq, Eq, Structural, Clone, Copy, Debug)]
pub enum SideType {
    Required,
    Optional,
    Unsupported,
    Unknown,
}

/// Where a version runs.
#[derive(PartialEq, Eq, Structural, Clone, Copy, Debug)]
pub enum VersionEnvironment {
    ClientAndServer,
    ClientOnly,
    ClientOnlyServerOptional,
    SingleplayerOnly,
    ServerOnly,
    ServerOnlyClientOptional,
    DedicatedServerOnly,
    ClientOrServer,
    ClientOrServerPrefersBoth,
    Unknown,
}

/// The kind of an additional version file.
#[derive(PartialEq, Eq, Structural, Clone, Copy, Debug)]
pub enum FileType {
    RequiredResourcePack,
    OptionalResourcePack,
    SourcesJar,
    DevJar,
    JavadocJar,
    Signature,
    Unknown,
}

/// A file of a version.
#[derive(Clone, Debug)]
pub struct VersionFile {
    /// Hash algorithm name and hash, for each hash the file carries.
    pub hashes: Vec<(String, String)>,
    pub url: String,
    pub filename: String,
    pub primary: bool,
    pub size: u32,
    pub file_type: Option<FileType>,
}

/// The parts of a version the v3 API adds.
#[derive(Clone, Debug)]
pub struct VersionV3 {
    pub id: String,
    pub files: Vec<VersionFile>,
    pub environment: Option<VersionEnvironment>,
}

/// How a version depends on another.
#[derive(PartialEq, Eq, Structural, Clone, Copy, Debug)]
pub enum DependencyType {
    Required,
    Optional,
    Incompatible,
    Embedded,
}

/// A dependency of a version.
#[derive(Clone, Debug)]
pub struct Dependency {
    pub version_id: Option<String>,
    pub project_id: Option<String>,
    pub file_name: Option<String>,
    pub dependency_type: DependencyType,
}

/// A project category.
#[derive(Clone, Debug)]
pub struct Category {
    pub name: String,
    pub project_type: String,
    pub header: String,
    pub icon: String,
}

/// A mod loader the content API knows.
#[derive(Clone, Debug)]
pub struct Loader {
    pub name: String,
    pub icon: String,
    pub supported_project_types: Vec<String>,
}

/// A donation platform.
#[derive(Clone, Debug)]
pub struct DonationPlatform {
    pub short: String,
    pub name: String,
}

/// A game version the content API knows.
#[derive(Clone, Debug)]
pub struct GameVersion {
    pub version: String,
    pub version_type: String,
    pub date: String,
    pub major: bool,
}

/// The message of a read error of a repairable cache kind: the cache error's text,
/// noting when remote replacement data was unavailable as well.
pub fn cache_read_error_message(cache_error: &str, remote_unavailable: bool) -> (r: String)
    ensures
        r@ == cache_error@ + if remote_unavailable {
            "; remote replacement data was unavailable"@
        } else {
            Seq::empty()
        },
{
    let mut m = to_owned_string(cache_error);
    if remote_unavailable {
        m.append("; remote replacement data was unavailable");
    } else {
        proof {
            assert(m@ + Seq::<char>::empty() =~= m@);
        }
    }
    m
}

} // verus!
