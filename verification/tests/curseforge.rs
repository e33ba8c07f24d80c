use theseus::cache::ProjectType;
use theseus::curseforge::{
    download_url_plan, filter_categories, mod_loader_to_slug, normalized_download_url,
    project_type_for_class, push_query, recognized_project_type, validate_file_name,
    validate_world_archive_name, CurseForgeCategory, CurseForgeDownloadMetrics, DownloadResult,
    DownloadUrlPlan,
};
use theseus::error::ErrorKind;

#[test]
fn download_urls_are_trimmed_and_blank_ones_dropped() {
    assert_eq!(normalized_download_url(Some("  https://x/y.jar \n".to_string())), Some("https://x/y.jar".to_string()));
    assert_eq!(normalized_download_url(Some("   ".to_string())), None);
    assert_eq!(normalized_download_url(None), None);
}

#[test]
fn download_url_plan_respects_distribution_rules() {
    assert!(matches!(download_url_plan(false, Some(false), Some("https://a".to_string())), DownloadUrlPlan::Withheld));
    assert!(matches!(download_url_plan(true, Some(false), None), DownloadUrlPlan::Derived));
    assert!(matches!(download_url_plan(false, Some(true), Some(" https://a ".to_string())), DownloadUrlPlan::Direct(u) if u == "https://a"));
    assert!(matches!(download_url_plan(false, None, Some(" ".to_string())), DownloadUrlPlan::Lookup));
}

#[test]
fn class_ids_and_loader_types_map_to_names() {
    assert_eq!(mod_loader_to_slug(1), "forge");
    assert_eq!(mod_loader_to_slug(6), "neoforge");
    assert_eq!(mod_loader_to_slug(99), "unknown");
    assert_eq!(project_type_for_class(Some(12)), "resourcepack");
    assert_eq!(project_type_for_class(Some(4471)), "modpack");
    assert_eq!(project_type_for_class(None), "mod");
    assert_eq!(recognized_project_type(Some(6552)), Some(ProjectType::ShaderPack));
    assert_eq!(recognized_project_type(Some(4471)), None);
}

#[test]
fn categories_are_filtered_by_class() {
    let category = |id: u32, class_id: Option<u32>| CurseForgeCategory { id, name: format!("c{id}"), class_id };
    let all = vec![category(6, None), category(10, Some(6)), category(11, Some(12)), category(12, None)];
    let mods = filter_categories(all.clone(), Some(6));
    assert_eq!(mods.iter().map(|c| c.id).collect::<Vec<_>>(), vec![6, 10]);
    assert_eq!(filter_categories(all.clone(), None).len(), 4);
    assert!(filter_categories(all, Some(99)).is_empty());
}

#[test]
fn query_values_are_pushed_only_when_present() {
    let mut query = Vec::new();
    push_query(&mut query, "classId", Some("6".to_string()));
    push_query(&mut query, "gameVersion", None);
    assert_eq!(query, vec![("classId".to_string(), "6".to_string())]);
}

#[test]
fn file_names_must_be_one_normal_component() {
    assert!(validate_file_name("mod.jar").is_ok());
    assert!(validate_file_name("mod.jar/").is_ok());
    assert!(validate_file_name("mod.jar/.").is_ok());
    assert!(validate_file_name("mod.jar\\").is_ok());
    for bad in [
        "", ".", "..", "/etc/passwd", "a/b.jar", "./a.jar", "../a.jar", "a/../b", "a\\b.jar",
        "..\\a.jar", "\\a.jar",
    ] {
        match validate_file_name(bad) {
            Err(ErrorKind::InputError(m)) => assert_eq!(m, "CurseForge returned an invalid file name"),
            other => panic!("{bad:?} gave {other:?}"),
        }
    }
}

#[test]
fn world_downloads_must_be_zip_archives() {
    assert!(validate_world_archive_name("world.zip").is_ok());
    assert!(validate_world_archive_name("World.ZIP").is_ok());
    match validate_world_archive_name("world.rar") {
        Err(ErrorKind::InputError(m)) => assert_eq!(m, "CurseForge world downloads must be ZIP archives"),
        other => panic!("unexpected {other:?}"),
    }
    assert!(validate_world_archive_name(".zip").is_err());
    assert!(validate_world_archive_name("zip").is_err());
    match validate_world_archive_name("../world.zip") {
        Err(ErrorKind::InputError(m)) => assert_eq!(m, "CurseForge returned an invalid file name"),
        other => panic!("unexpected {other:?}"),
    }
}

#[test]
fn download_metrics_keep_the_source_and_count_fallbacks() {
    let mut metrics = CurseForgeDownloadMetrics::new();
    assert!(metrics.finish().is_none());
    metrics.record(&DownloadResult { attempts: 0, source: "cache".to_string(), fallback_count: 2 });
    assert!(metrics.finish().is_none());
    metrics.record(&DownloadResult { attempts: 1, source: "mirror".to_string(), fallback_count: 3 });
    assert_eq!(metrics.finish(), Some(("mirror".to_string(), 5)));
    metrics.record(&DownloadResult { attempts: 1, source: "cdn".to_string(), fallback_count: u64::MAX });
    assert_eq!(metrics.finish(), Some(("cdn".to_string(), 4)));
}
