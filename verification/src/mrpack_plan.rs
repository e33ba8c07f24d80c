//! The decisions of a `.mrpack` install that come before any download: where the
//! manifest is, whether the pack is for Minecraft, which files the client skips, where
//! each file goes, which entries are overrides and which one is the pack's icon.
use vstd::prelude::*;

use crate::error::{input_error, ErrorKind};
use crate::mrpack::{
    first_index_where, lemma_first_index_where, locate_mrpack_manifest, manifest_location,
};
use crate::text::{
    ends_with_spec, starts_with_spec, str_ends_with, str_eq, str_starts_with, to_owned_string,
};

verus! {

/// One file of a pack manifest, as the install plan reads it.
#[derive(Clone, Debug)]
pub struct PackFileView {
    /// The path the manifest gives the file.
    pub path: String,
    /// The manifest marks the file unsupported on the client.
    pub client_unsupported: bool,
    /// The path the file is renamed to by the localized naming of content, where that
    /// naming applies to it.
    pub localized_path: Option<String>,
}

/// A pack manifest (`modrinth.index.json`), as the install plan reads it.
#[derive(Clone, Debug)]
pub struct PackManifestView {
    pub game: String,
    pub files: Vec<PackFileView>,
}

/// What an install of a pack does before it downloads.
#[derive(Clone, Debug)]
pub struct MrpackInstallPlan {
    /// Entry of the manifest in the archive.
    pub manifest_index: usize,
    /// Folder of the archive that holds the pack (empty at the root, else ending in `/`).
    pub archive_base: String,
    /// Where each manifest file is installed, relative to the instance.
    pub install_paths: Vec<String>,
    /// Whether each manifest file is skipped as unsupported on the client.
    pub skipped_on_client: Vec<bool>,
    /// Entries extracted as overrides, in archive order.
    pub override_entries: Vec<usize>,
    /// Entry used as the instance icon when the instance has none.
    pub icon_entry: Option<usize>,
}

/// The error that refuses a pack, if any.
pub open spec fn mrpack_plan_error(game: Seq<char>, entries: Seq<Option<String>>) -> Option<
    Seq<char>,
> {
    if manifest_location(entries) is None {
        Some("No pack manifest found in mrpack"@)
    } else if game != "minecraft"@ {
        Some("Pack does not support Minecraft"@)
    } else {
        None
    }
}

/// The path a file was installed at before, by its manifest path: the last pair that
/// names it.
pub open spec fn existing_path_for(existing: Seq<(String, String)>, path: Seq<char>) -> Option<
    Seq<char>,
>
    decreases existing.len(),
{
    if existing.len() == 0 {
        None
    } else if existing.last().0@ == path {
        Some(existing.last().1@)
    } else {
        existing_path_for(existing.drop_last(), path)
    }
}

/// Where a file is installed: where it already is, else its localized path, else the
/// manifest's path.
pub open spec fn install_path_spec(existing: Seq<(String, String)>, file: PackFileView) -> Seq<
    char,
> {
    match existing_path_for(existing, file.path@) {
        Some(p) => p,
        None => match file.localized_path {
            Some(l) => l@,
            None => file.path@,
        },
    }
}

/// An entry extracted as an override: a file (not a folder) under `overrides/` or
/// `client-overrides/` of the archive base.
pub open spec fn is_override_entry(name: Option<String>, base: Seq<char>) -> bool {
    name matches Some(n) && (starts_with_spec(n@, base + "overrides/"@) || starts_with_spec(
        n@,
        base + "client-overrides/"@,
    )) && !ends_with_spec(n@, "/"@)
}

/// Positions of the override entries, in archive order.
pub open spec fn override_indices(entries: Seq<Option<String>>, base: Seq<char>) -> Seq<int>
    decreases entries.len(),
{
    if entries.len() == 0 {
        Seq::empty()
    } else {
        override_indices(entries.drop_last(), base) + if is_override_entry(entries.last(), base) {
            seq![entries.len() - 1]
        } else {
            Seq::<int>::empty()
        }
    }
}

/// An entry that can be the pack's icon: `icon.png` at the base, in `overrides/` or in
/// `client-overrides/`.
pub open spec fn is_icon_entry(name: Option<String>, base: Seq<char>) -> bool {
    name matches Some(n) && (n@ == base + "icon.png"@ || n@ == base + "overrides/icon.png"@ || n@
        == base + "client-overrides/icon.png"@)
}

/// The plan of an install of a pack that is not refused.
pub open spec fn plan_matches(
    p: MrpackInstallPlan,
    manifest: PackManifestView,
    entries: Seq<Option<String>>,
    existing: Seq<(String, String)>,
) -> bool {
    let (index, base) = manifest_location(entries).unwrap();
    let icon = first_index_where(entries, |e: Option<String>| is_icon_entry(e, base));
    &&& p.manifest_index == index
    &&& p.archive_base@ == base
    &&& p.install_paths.len() == manifest.files.len()
    &&& forall|i: int|
        0 <= i < manifest.files.len() ==> #[trigger] p.install_paths@[i]@ == install_path_spec(
            existing,
            manifest.files@[i],
        )
    &&& p.skipped_on_client.len() == manifest.files.len()
    &&& forall|i: int|
        0 <= i < manifest.files.len() ==> #[trigger] p.skipped_on_client@[i]
            == manifest.files@[i].client_unsupported
    &&& p.override_entries@.map_values(|i: usize| i as int) == override_indices(entries, base)
    &&& (icon >= 0 ==> p.icon_entry == Some(icon as usize))
    &&& (icon < 0 ==> p.icon_entry is None)
}

/// `a` followed by `b`.
fn joined(a: &str, b: &str) -> (r: String)
    ensures
        r@ == a@ + b@,
{
    let mut r = to_owned_string(a);
    r.append(b);
    r
}

/// Where a file that was installed before is now (the last pair naming it wins).
fn find_existing_path(existing: &[(String, String)], path: &str) -> (r: Option<String>)
    ensures
        match existing_path_for(existing@, path@) {
            Some(p) => r matches Some(v) && v@ == p,
            None => r is None,
        },
{
    let mut j = existing.len();
    assert(existing@.take(j as int) =~= existing@);
    while j > 0
        invariant
            j <= existing.len(),
            existing_path_for(existing@, path@) == existing_path_for(existing@.take(j as int), path@),
        decreases j,
    {
        assert(existing@.take(j as int).drop_last() =~= existing@.take(j - 1));
        if str_eq(existing[j - 1].0.as_str(), path) {
            return Some(to_owned_string(existing[j - 1].1.as_str()));
        }
        j = j - 1;
    }
    None
}

/// Where one manifest file is installed (see `install_path_spec`).
pub fn resolve_install_path(existing: &[(String, String)], file: &PackFileView) -> (r: String)
    ensures
        r@ == install_path_spec(existing@, *file),
{
    match find_existing_path(existing, file.path.as_str()) {
        Some(p) => p,
        None => match &file.localized_path {
            Some(l) => to_owned_string(l.as_str()),
            None => to_owned_string(file.path.as_str()),
        },
    }
}

/// Whether an archive entry is an override of the pack at `base`.
fn override_entry(name: &Option<String>, base: &str) -> (r: bool)
    ensures
        r == is_override_entry(*name, base@),
{
    match name {
        Some(n) => {
            let overrides = joined(base, "overrides/");
            let client_overrides = joined(base, "client-overrides/");
            (str_starts_with(n.as_str(), overrides.as_str()) || str_starts_with(
                n.as_str(),
                client_overrides.as_str(),
            )) && !str_ends_with(n.as_str(), "/")
        },
        None => false,
    }
}

/// Whether an archive entry can be the icon of the pack at `base`.
fn icon_entry(name: &Option<String>, base: &str) -> (r: bool)
    ensures
        r == is_icon_entry(*name, base@),
{
    match name {
        Some(n) => {
            let root = joined(base, "icon.png");
            let overrides = joined(base, "overrides/icon.png");
            let client_overrides = joined(base, "client-overrides/icon.png");
            str_eq(n.as_str(), root.as_str()) || str_eq(n.as_str(), overrides.as_str()) || str_eq(
                n.as_str(),
                client_overrides.as_str(),
            )
        },
        None => false,
    }
}

/// Plans the install of a pack from its manifest and the names of its archive's entries
/// (`None` for a name that is not UTF-8), with the paths its files were installed at
/// before (pairs of manifest path and current path). A pack without a manifest, or one
/// for another game, is refused with an input error; otherwise the plan says where the
/// manifest is, where each file goes and whether the client skips it, which entries are
/// overrides and which is the icon.
pub fn plan_mrpack_install(
    manifest: &PackManifestView,
    entry_names: &[Option<String>],
    existing: &[(String, String)],
) -> (r: Result<MrpackInstallPlan, ErrorKind>)
    ensures
        r is Err <==> mrpack_plan_error(manifest.game@, entry_names@) is Some,
        r matches Err(e) ==> e matches ErrorKind::InputError(m) && Some(m@) == mrpack_plan_error(
            manifest.game@,
            entry_names@,
        ),
        r matches Ok(p) ==> plan_matches(p, *manifest, entry_names@, existing@),
{
    let (manifest_index, archive_base) = match locate_mrpack_manifest(entry_names) {
        Some(found) => found,
        None => {
            return Err(input_error("No pack manifest found in mrpack"));
        },
    };
    if !str_eq(manifest.game.as_str(), "minecraft") {
        return Err(input_error("Pack does not support Minecraft"));
    }
    let ghost base = archive_base@;
    let mut install_paths: Vec<String> = Vec::new();
    let mut skipped_on_client: Vec<bool> = Vec::new();
    let mut i: usize = 0;
    while i < manifest.files.len()
        invariant
            i <= manifest.files.len(),
            install_paths.len() == i,
            skipped_on_client.len() == i,
            forall|k: int|
                0 <= k < i ==> #[trigger] install_paths@[k]@ == install_path_spec(
                    existing@,
                    manifest.files@[k],
                ),
            forall|k: int|
                0 <= k < i ==> #[trigger] skipped_on_client@[k]
                    == manifest.files@[k].client_unsupported,
        decreases manifest.files.len() - i,
    {
        let file = &manifest.files[i];
        install_paths.push(resolve_install_path(existing, file));
        skipped_on_client.push(file.client_unsupported);
        i = i + 1;
    }
    let mut override_entries: Vec<usize> = Vec::new();
    let mut icon: Option<usize> = None;
    let ghost icon_p = |e: Option<String>| is_icon_entry(e, base);
    let mut j: usize = 0;
    while j < entry_names.len()
        invariant
            j <= entry_names.len(),
            archive_base@ == base,
            icon_p == (|e: Option<String>| is_icon_entry(e, base)),
            override_entries@.map_values(|x: usize| x as int) == override_indices(
                entry_names@.take(j as int),
                base,
            ),
            icon matches Some(k) ==> k as int == first_index_where(entry_names@.take(j as int), icon_p),
            icon is None ==> first_index_where(entry_names@.take(j as int), icon_p) == -1,
        decreases entry_names.len() - j,
    {
        let ghost prefix = entry_names@.take(j as int);
        assert(entry_names@.take(j + 1).drop_last() =~= prefix);
        assert(entry_names@.take(j + 1).last() == entry_names@[j as int]);
        let ghost before = override_entries@;
        if override_entry(&entry_names[j], archive_base.as_str()) {
            override_entries.push(j);
            assert(override_entries@.map_values(|x: usize| x as int) =~= before.map_values(
                |x: usize| x as int,
            ) + seq![j as int]);
        } else {
            assert(override_entries@.map_values(|x: usize| x as int) =~= before.map_values(
                |x: usize| x as int,
            ) + Seq::<int>::empty());
        }
        if icon.is_none() && icon_entry(&entry_names[j], archive_base.as_str()) {
            icon = Some(j);
        }
        j = j + 1;
    }
    proof {
        assert(entry_names@.take(entry_names@.len() as int) =~= entry_names@);
        lemma_first_index_where(entry_names@, icon_p, entry_names@.len() as int);
    }
    Ok(
        MrpackInstallPlan {
            manifest_index,
            archive_base,
            install_paths,
            skipped_on_client,
            override_entries,
            icon_entry: icon,
        },
    )
}

} // verus!
