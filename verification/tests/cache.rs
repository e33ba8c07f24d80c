use theseus::cache::{
    cache_read_error_message, key_matches, plan_cache_read, CacheRow, RowData,
    background_refresh_ids, cache_fetch_next, file_hash_key, file_update_key,
    parse_file_update_key, upsert_kept_positions, CacheBehaviour, CacheEntryKey, CacheFetchNext,
    CacheReadFailure, CacheValueType, ReleaseChannel, BACKGROUND_REFRESH_THRESHOLD,
    PERMANENT_CACHE_SECONDS,
};

#[test]
fn loader_manifests_expire_at_refresh_threshold() {
    assert_eq!(
        CacheValueType::LoaderManifest.expiry(),
        BACKGROUND_REFRESH_THRESHOLD
    );
    assert_eq!(CacheValueType::Project.expiry(), PERMANENT_CACHE_SECONDS);
}

#[test]
fn cache_type_names_round_trip() {
    for ty in CacheValueType::all() {
        assert_eq!(CacheValueType::from_string(ty.as_str()), ty);
    }
    assert_eq!(CacheValueType::from_repairable_str("curseforge_project"), Some(CacheValueType::CurseForgeProject));
    assert_eq!(CacheValueType::from_repairable_str("project"), None);
}

#[test]
fn release_channels_order_by_stability() {
    assert_eq!(ReleaseChannel::from_key(ReleaseChannel::Beta.key()), ReleaseChannel::Beta);
    assert_eq!(ReleaseChannel::from_key("all"), ReleaseChannel::Alpha);
    assert_eq!(ReleaseChannel::from_key("nonsense"), ReleaseChannel::Release);
    assert_eq!(ReleaseChannel::Release.least_stable(ReleaseChannel::Beta), ReleaseChannel::Beta);
    assert_eq!(ReleaseChannel::Alpha.least_stable(ReleaseChannel::Beta), ReleaseChannel::Alpha);
    assert_eq!(
        ReleaseChannel::Beta.version_type_fallbacks(),
        vec![vec!["release", "beta"], vec!["alpha"]]
    );
    assert_eq!(CacheBehaviour::default(), CacheBehaviour::StaleWhileRevalidateSkipOffline);
}

#[test]
fn file_update_keys_round_trip() {
    let key = file_update_key("abc", &["fabric".to_string(), "quilt".to_string()], "beta", "1.20.1");
    let parsed = parse_file_update_key(&key).unwrap();
    assert_eq!(parsed.hash, "abc");
    assert_eq!(parsed.channel_policy, "beta");
    assert_eq!(parsed.game_version, "1.20.1");
    let legacy = parse_file_update_key("abc-fabric-1.20.1").unwrap();
    assert_eq!(legacy.channel_policy, "alpha");
    assert!(parse_file_update_key("abc").is_none());
}

#[test]
fn disabled_files_share_their_hash_key() {
    assert_eq!(file_hash_key(12, "mods/a.jar"), "12-mods/a.jar");
    assert_eq!(file_hash_key(12, "mods/a.jar.disabled"), "12-mods/a.jar");
}

#[test]
fn upsert_keeps_the_last_entry_per_id_and_alias() {
    let entry = |id: &str, alias: Option<&str>| CacheEntryKey {
        id: id.to_string(),
        type_: CacheValueType::Project,
        alias: alias.map(|a| a.to_string()),
    };
    let items = vec![
        entry("same-id", Some("first-alias")),
        entry("other", Some("x")),
        entry("same-id", Some("last-alias")),
        entry("third", Some("x")),
    ];
    assert_eq!(upsert_kept_positions(&items), vec![2, 3]);
}

#[test]
fn fetch_outcomes_follow_the_cache_policy() {
    assert_eq!(
        cache_fetch_next(CacheValueType::Project, CacheBehaviour::StaleWhileRevalidateSkipOffline, false, false, false),
        CacheFetchNext::TreatRemainingAsExpired
    );
    assert_eq!(
        cache_fetch_next(CacheValueType::Project, CacheBehaviour::MustRevalidate, false, false, false),
        CacheFetchNext::Fail(CacheReadFailure::Remote)
    );
    assert_eq!(
        cache_fetch_next(CacheValueType::CurseForgeProject, CacheBehaviour::MustRevalidate, true, false, false),
        CacheFetchNext::Fail(CacheReadFailure::Cache { repairable: true, remote_unavailable: true })
    );
    assert_eq!(
        background_refresh_ids(CacheBehaviour::StaleWhileRevalidate, vec!["a".to_string()], vec!["b".to_string()]),
        Some(vec!["a".to_string(), "b".to_string()])
    );
    assert_eq!(background_refresh_ids(CacheBehaviour::MustRevalidate, vec!["a".to_string()], vec![]), None);
}

fn row(id: &str, alias: Option<&str>, expires: i64, data: RowData) -> CacheRow {
    CacheRow { id: id.to_string(), alias: alias.map(|a| a.to_string()), expires, data }
}

#[test]
fn project_aliases_match_in_any_case() {
    let parsed = RowData::Parsed { value_type: CacheValueType::Project, empty_collection: false };
    let r = row("AABBCC", Some("Sodium"), 100, parsed);
    assert!(key_matches(CacheValueType::Project, "sodium", &r));
    assert!(key_matches(CacheValueType::Project, "SODIUM", &r));
    assert!(key_matches(CacheValueType::Project, "AABBCC", &r));
    assert!(!key_matches(CacheValueType::Project, "aabbcc", &r));
    assert!(!key_matches(CacheValueType::Project, "iris", &r));
}

#[test]
fn fresh_rows_are_served_and_missing_keys_fetched() {
    let parsed = RowData::Parsed { value_type: CacheValueType::Project, empty_collection: false };
    let rows = vec![row("a", None, 1_000, parsed)];
    let keys = vec!["a".to_string(), "b".to_string()];
    let plan = plan_cache_read(CacheValueType::Project, &keys, CacheBehaviour::MustRevalidate, true, &rows, 10);
    assert_eq!(plan.served, vec![0]);
    assert_eq!(plan.remaining, vec!["b".to_string()]);
    assert!(!plan.read_failed);
    let bypass = plan_cache_read(CacheValueType::Project, &keys, CacheBehaviour::Bypass, true, &rows, 10);
    assert!(bypass.served.is_empty());
    assert_eq!(bypass.remaining, keys);
}

#[test]
fn repairable_read_errors_note_missing_remote_data() {
    assert_eq!(
        cache_read_error_message("malformed JSON", true),
        "malformed JSON; remote replacement data was unavailable"
    );
    assert_eq!(cache_read_error_message("malformed JSON", false), "malformed JSON");
}
