use theseus::adjunct::{
    check_adjunct_support, components_for_instance, mark_as_adjuncts, needs_optifabric_adjunct, optifabric_file_accepted,
    select_optifabric_file_id, set_component_version, validate_adjunct_selection,
    validate_loader_components, OPTIFABRIC_CURSEFORGE_PROJECT_ID,
};
use theseus::curseforge::CurseForgeFile;
use theseus::error::ErrorKind;
use theseus::install::LoaderComponentKind::{
    Fabric, Forge, LiteLoader, NeoForge, OptiFabric, OptiFine, Quilt, Vanilla,
};
use theseus::install::LoaderComponentRole::{Adjunct, Primary};
use theseus::install::{LoaderComponent, LoaderComponentKind, LoaderComponentRole, ModLoader};

fn component(kind: LoaderComponentKind, role: LoaderComponentRole) -> LoaderComponent {
    LoaderComponent { instance_id: "i".to_string(), kind, version: None, role }
}

fn message(r: Result<(), ErrorKind>) -> String {
    match r {
        Err(ErrorKind::InputError(m)) => m,
        other => panic!("unexpected {other:?}"),
    }
}

#[test]
fn loader_selections_follow_the_compatibility_rules() {
    assert_eq!(message(validate_loader_components(&[component(OptiFine, Adjunct)])), "Loader selection has no primary loader");
    assert!(validate_loader_components(&[component(Forge, Primary), component(OptiFine, Adjunct)]).is_ok());
    assert_eq!(
        message(validate_loader_components(&[component(Fabric, Primary), component(OptiFine, Adjunct)])),
        "OptiFine is not supported with fabric"
    );
    assert!(validate_loader_components(&[
        component(Fabric, Primary),
        component(OptiFine, Adjunct),
        component(OptiFabric, Adjunct)
    ])
    .is_ok());
    assert_eq!(
        message(validate_loader_components(&[component(Fabric, Primary), component(OptiFabric, Adjunct)])),
        "OptiFabric can only be installed with OptiFine"
    );
    assert_eq!(
        message(validate_loader_components(&[component(Forge, Primary), component(LiteLoader, Adjunct), component(OptiFine, Adjunct), component(OptiFabric, Adjunct)])),
        "OptiFabric is not supported with forge"
    );
    assert_eq!(
        message(validate_loader_components(&[component(NeoForge, Primary), component(LiteLoader, Adjunct)])),
        "LiteLoader is not supported with neoforge"
    );
    assert_eq!(
        message(validate_loader_components(&[component(Vanilla, Primary), component(Quilt, Adjunct)])),
        "Only OptiFine, LiteLoader, and OptiFabric can be adjunct loaders"
    );
}

#[test]
fn requested_adjuncts_are_checked_against_the_loader() {
    let optifine = vec![component(OptiFine, Adjunct)];
    assert!(check_adjunct_support(ModLoader::Fabric, &optifine).is_ok());
    assert_eq!(message(check_adjunct_support(ModLoader::Quilt, &optifine)), "OptiFine is not supported with quilt");
    assert_eq!(
        message(check_adjunct_support(ModLoader::Fabric, &[component(LiteLoader, Adjunct)])),
        "LiteLoader is not supported with fabric"
    );
    assert!(needs_optifabric_adjunct(ModLoader::Fabric, &optifine));
    assert!(!needs_optifabric_adjunct(ModLoader::Forge, &optifine));
    assert!(!needs_optifabric_adjunct(ModLoader::Fabric, &[component(OptiFine, Adjunct), component(OptiFabric, Adjunct)]));
    assert!(validate_adjunct_selection(ModLoader::Forge, &optifine).is_ok());
    assert_eq!(
        message(validate_adjunct_selection(ModLoader::Fabric, &optifine)),
        "OptiFine is not supported with fabric"
    );
}

#[test]
fn adjunct_bookkeeping() {
    let mut adjuncts = vec![component(OptiFine, LoaderComponentRole::Primary)];
    mark_as_adjuncts(&mut adjuncts);
    assert_eq!(adjuncts[0].role, LoaderComponentRole::Adjunct);
    assert!(adjuncts[0].instance_id.is_empty());
    let mut components = vec![component(Forge, LoaderComponentRole::Primary), component(OptiFine, LoaderComponentRole::Adjunct)];
    set_component_version(&mut components, OptiFine, "HD_U_I6".to_string());
    assert_eq!(components[1].version.as_deref(), Some("HD_U_I6"));
    assert_eq!(components[0].version, None);
    set_component_version(&mut components, LiteLoader, "x".to_string());
    assert_eq!(components.len(), 2);
}

#[test]
fn optifabric_files_are_selected_by_game_version() {
    let file = |id: u32, available: bool, versions: &[&str]| CurseForgeFile {
        id,
        mod_id: OPTIFABRIC_CURSEFORGE_PROJECT_ID,
        file_name: format!("optifabric-{id}.jar"),
        download_url: None,
        is_available: available,
        game_versions: versions.iter().map(|v| v.to_string()).collect(),
    };
    let files = vec![file(1, false, &["1.20.1"]), file(2, true, &["1.19.2", "Fabric"]), file(3, true, &["1.20.1"]), file(4, true, &["1.20.1"])];
    assert_eq!(select_optifabric_file_id(&files, "1.20.1"), Some(3));
    assert_eq!(select_optifabric_file_id(&files, "1.18"), None);
    assert!(optifabric_file_accepted(&files[2], "1.20.1"));
    assert!(!optifabric_file_accepted(&files[0], "1.20.1"));
    let mut foreign = file(5, true, &["1.20.1"]);
    foreign.mod_id = 1;
    assert!(!optifabric_file_accepted(&foreign, "1.20.1"));
}

#[test]
fn copied_components_belong_to_the_new_instance() {
    let components = vec![
        LoaderComponent { instance_id: "old".to_string(), kind: Fabric, version: Some("0.16".to_string()), role: Primary },
        LoaderComponent { instance_id: "old".to_string(), kind: OptiFine, version: None, role: Adjunct },
    ];
    let copied = components_for_instance(&components, "new");
    assert_eq!(copied.len(), 2);
    assert!(copied.iter().all(|c| c.instance_id == "new"));
    assert_eq!((copied[0].kind, copied[0].version.as_deref(), copied[0].role), (Fabric, Some("0.16"), Primary));
    assert_eq!((copied[1].kind, copied[1].version.as_deref(), copied[1].role), (OptiFine, None, Adjunct));
}
