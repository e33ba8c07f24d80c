//! Adjunct loaders (OptiFine, LiteLoader, OptiFabric): which combinations an instance
//! accepts, and the bookkeeping around installing them.
use vstd::prelude::*;

use crate::curseforge::{file_supports_version, lists_game_version, CurseForgeFile};
use crate::error::{input_error, ErrorKind};
use crate::install::{
    component_kind_name, copy_opt_string, mod_loader_name, LoaderComponent, LoaderComponentKind,
    LoaderComponentRole, ModLoader,
};
use crate::text::to_owned_string;

verus! {

/// The CurseForge project of OptiFabric.
pub const OPTIFABRIC_CURSEFORGE_PROJECT_ID: u32 = 322385;

/// Some adjunct of `components` is of `kind`.
pub open spec fn has_adjunct(components: Seq<LoaderComponent>, kind: LoaderComponentKind) -> bool {
    exists|i: int|
        0 <= i < components.len() && #[trigger] components[i].role == LoaderComponentRole::Adjunct
            && components[i].kind == kind
}

/// Index of the first primary component, or `-1`.
pub open spec fn primary_position(components: Seq<LoaderComponent>) -> int
    decreases components.len(),
{
    if components.len() == 0 {
        -1
    } else if primary_position(components.drop_last()) >= 0 {
        primary_position(components.drop_last())
    } else if components.last().role == LoaderComponentRole::Primary {
        components.len() - 1
    } else {
        -1
    }
}

/// Some adjunct is of a kind that cannot be an adjunct.
pub open spec fn has_foreign_adjunct(components: Seq<LoaderComponent>) -> bool {
    exists|i: int|
        0 <= i < components.len() && #[trigger] components[i].role == LoaderComponentRole::Adjunct
            && !(components[i].kind == LoaderComponentKind::OptiFine || components[i].kind
            == LoaderComponentKind::LiteLoader || components[i].kind
            == LoaderComponentKind::OptiFabric)
}

/// Why components with a primary of kind `primary` are refused, checked in this order,
/// or nothing when they are accepted: OptiFine runs on Vanilla, Forge, NeoForge, or
/// (with OptiFabric) Fabric and Legacy Fabric; OptiFabric needs OptiFine and a Fabric
/// primary; LiteLoader runs on Vanilla and Forge; only those three can be adjuncts.
pub open spec fn selection_error_with_primary(
    primary: LoaderComponentKind,
    components: Seq<LoaderComponent>,
) -> Option<Seq<char>> {
    let fabric = primary == LoaderComponentKind::Fabric || primary
        == LoaderComponentKind::LegacyFabric;
    let optifine = has_adjunct(components, LoaderComponentKind::OptiFine);
    let optifabric = has_adjunct(components, LoaderComponentKind::OptiFabric);
    if optifine && !(primary == LoaderComponentKind::Vanilla || primary
        == LoaderComponentKind::Forge || primary == LoaderComponentKind::NeoForge || (fabric
        && optifabric)) {
        Some("OptiFine is not supported with "@ + component_kind_name(primary))
    } else if optifabric && !optifine {
        Some("OptiFabric can only be installed with OptiFine"@)
    } else if optifabric && !fabric {
        Some("OptiFabric is not supported with "@ + component_kind_name(primary))
    } else if has_adjunct(components, LoaderComponentKind::LiteLoader) && !(primary
        == LoaderComponentKind::Vanilla || primary == LoaderComponentKind::Forge) {
        Some("LiteLoader is not supported with "@ + component_kind_name(primary))
    } else if has_foreign_adjunct(components) {
        Some("Only OptiFine, LiteLoader, and OptiFabric can be adjunct loaders"@)
    } else {
        None
    }
}

/// Why a loader selection is refused, or nothing when it is accepted: it needs a
/// primary loader, and then the rules of `selection_error_with_primary` for the first one.
pub open spec fn loader_selection_error(components: Seq<LoaderComponent>) -> Option<Seq<char>> {
    let p = primary_position(components);
    if p < 0 {
        Some("Loader selection has no primary loader"@)
    } else {
        selection_error_with_primary(components[p].kind, components)
    }
}

/// The position of the first primary component.
fn find_primary(components: &[LoaderComponent]) -> (r: Option<usize>)
    ensures
        r matches Some(p) ==> p as int == primary_position(components@) && p < components@.len(),
        r is None ==> primary_position(components@) == -1,
{
    let mut i: usize = 0;
    while i < components.len()
        invariant
            i <= components.len(),
            primary_position(components@.take(i as int)) == -1,
        decreases components.len() - i,
    {
        assert(components@.take(i + 1).drop_last() =~= components@.take(i as int));
        if components[i].role == LoaderComponentRole::Primary {
            proof {
                lemma_primary_position_prefix(components@, i + 1);
            }
            return Some(i);
        }
        i = i + 1;
    }
    assert(components@.take(components.len() as int) =~= components@);
    None
}

proof fn lemma_primary_position_prefix(components: Seq<LoaderComponent>, n: int)
    requires
        0 <= n <= components.len(),
        primary_position(components.take(n)) >= 0,
    ensures
        primary_position(components) == primary_position(components.take(n)),
    decreases components.len() - n,
{
    if n < components.len() {
        assert(components.take(n + 1).drop_last() =~= components.take(n));
        lemma_primary_position_prefix(components, n + 1);
    } else {
        assert(components.take(n) =~= components);
    }
}

/// Whether some adjunct is of `kind`.
fn has_adjunct_kind(components: &[LoaderComponent], kind: LoaderComponentKind) -> (r: bool)
    ensures
        r == has_adjunct(components@, kind),
{
    let mut i: usize = 0;
    while i < components.len()
        invariant
            i <= components.len(),
            forall|j: int|
                0 <= j < i ==> !(#[trigger] components@[j].role == LoaderComponentRole::Adjunct
                    && components@[j].kind == kind),
        decreases components.len() - i,
    {
        if components[i].role == LoaderComponentRole::Adjunct && components[i].kind == kind {
            return true;
        }
        i = i + 1;
    }
    false
}

/// Whether some adjunct is of a kind that cannot be an adjunct.
fn has_foreign_adjunct_kind(components: &[LoaderComponent]) -> (r: bool)
    ensures
        r == has_foreign_adjunct(components@),
{
    let mut i: usize = 0;
    while i < components.len()
        invariant
            i <= components.len(),
            forall|j: int|
                0 <= j < i ==> !(#[trigger] components@[j].role == LoaderComponentRole::Adjunct
                    && !(components@[j].kind == LoaderComponentKind::OptiFine
                    || components@[j].kind == LoaderComponentKind::LiteLoader
                    || components@[j].kind == LoaderComponentKind::OptiFabric)),
        decreases components.len() - i,
    {
        let kind = components[i].kind;
        if components[i].role == LoaderComponentRole::Adjunct && !(kind
            == LoaderComponentKind::OptiFine || kind == LoaderComponentKind::LiteLoader || kind
            == LoaderComponentKind::OptiFabric) {
            return true;
        }
        i = i + 1;
    }
    false
}

/// `prefix` followed by the name of `kind`.
fn message_with_kind(prefix: &str, kind: LoaderComponentKind) -> (m: String)
    ensures
        m@ == prefix@ + component_kind_name(kind),
{
    let mut m = to_owned_string(prefix);
    m.append(kind.as_str());
    m
}

/// Checks a loader selection (see `loader_selection_error`).
pub fn validate_loader_components(components: &[LoaderComponent]) -> (r: Result<(), ErrorKind>)
    ensures
        r is Ok <==> loader_selection_error(components@) is None,
        r matches Err(e) ==> e matches ErrorKind::InputError(m) && loader_selection_error(
            components@,
        ) == Some(m@),
{
    let p = match find_primary(components) {
        Some(p) => p,
        None => return Err(input_error("Loader selection has no primary loader")),
    };
    let primary = components[p].kind;
    let optifine = has_adjunct_kind(components, LoaderComponentKind::OptiFine);
    let optifabric = has_adjunct_kind(components, LoaderComponentKind::OptiFabric);
    let fabric = primary == LoaderComponentKind::Fabric || primary
        == LoaderComponentKind::LegacyFabric;
    if optifine && !(primary == LoaderComponentKind::Vanilla || primary
        == LoaderComponentKind::Forge || primary == LoaderComponentKind::NeoForge || (fabric
        && optifabric)) {
        return Err(ErrorKind::InputError(message_with_kind("OptiFine is not supported with ", primary)));
    }
    if optifabric && !optifine {
        return Err(input_error("OptiFabric can only be installed with OptiFine"));
    }
    if optifabric && !fabric {
        return Err(ErrorKind::InputError(message_with_kind("OptiFabric is not supported with ", primary)));
    }
    if has_adjunct_kind(components, LoaderComponentKind::LiteLoader) && !(primary
        == LoaderComponentKind::Vanilla || primary == LoaderComponentKind::Forge) {
        return Err(ErrorKind::InputError(message_with_kind("LiteLoader is not supported with ", primary)));
    }
    if has_foreign_adjunct_kind(components) {
        return Err(input_error("Only OptiFine, LiteLoader, and OptiFabric can be adjunct loaders"));
    }
    Ok(())
}

/// Why an adjunct cannot join an instance of `loader`: OptiFine needs Forge, NeoForge,
/// Fabric or Legacy Fabric; LiteLoader needs Forge.
pub open spec fn adjunct_support_error_of(loader: ModLoader, adjunct: LoaderComponent) -> Option<Seq<char>> {
    if adjunct.kind == LoaderComponentKind::OptiFine && !(loader == ModLoader::Forge || loader
        == ModLoader::NeoForge || loader == ModLoader::Fabric || loader == ModLoader::LegacyFabric) {
        Some("OptiFine is not supported with "@ + mod_loader_name(loader))
    } else if adjunct.kind == LoaderComponentKind::LiteLoader && loader != ModLoader::Forge {
        Some("LiteLoader is not supported with "@ + mod_loader_name(loader))
    } else {
        None
    }
}

/// The refusal of the first adjunct that `loader` cannot carry, if any.
pub open spec fn adjunct_support_error(loader: ModLoader, adjuncts: Seq<LoaderComponent>) -> Option<Seq<char>>
    decreases adjuncts.len(),
{
    if adjuncts.len() == 0 {
        None
    } else {
        match adjunct_support_error(loader, adjuncts.drop_last()) {
            Some(e) => Some(e),
            None => adjunct_support_error_of(loader, adjuncts.last()),
        }
    }
}

/// `prefix` followed by the name of `loader`.
fn message_with_loader(prefix: &str, loader: ModLoader) -> (m: String)
    ensures
        m@ == prefix@ + mod_loader_name(loader),
{
    let mut m = to_owned_string(prefix);
    m.append(loader.as_str());
    m
}

/// Refuses requested adjuncts that the primary loader cannot carry, before anything
/// is resolved or downloaded.
pub fn check_adjunct_support(loader: ModLoader, adjuncts: &[LoaderComponent]) -> (r: Result<(), ErrorKind>)
    ensures
        r is Ok <==> adjunct_support_error(loader, adjuncts@) is None,
        r matches Err(e) ==> e matches ErrorKind::InputError(m) && adjunct_support_error(
            loader,
            adjuncts@,
        ) == Some(m@),
{
    let mut i: usize = 0;
    while i < adjuncts.len()
        invariant
            i <= adjuncts.len(),
            adjunct_support_error(loader, adjuncts@.take(i as int)) is None,
        decreases adjuncts.len() - i,
    {
        assert(adjuncts@.take(i + 1).drop_last() =~= adjuncts@.take(i as int));
        let kind = adjuncts[i].kind;
        if kind == LoaderComponentKind::OptiFine && !(loader == ModLoader::Forge || loader
            == ModLoader::NeoForge || loader == ModLoader::Fabric || loader
            == ModLoader::LegacyFabric) {
            proof {
                lemma_support_error_prefix(loader, adjuncts@, i + 1);
            }
            return Err(ErrorKind::InputError(message_with_loader("OptiFine is not supported with ", loader)));
        }
        if kind == LoaderComponentKind::LiteLoader && loader != ModLoader::Forge {
            proof {
                lemma_support_error_prefix(loader, adjuncts@, i + 1);
            }
            return Err(ErrorKind::InputError(message_with_loader("LiteLoader is not supported with ", loader)));
        }
        i = i + 1;
    }
    assert(adjuncts@.take(adjuncts.len() as int) =~= adjuncts@);
    Ok(())
}

proof fn lemma_support_error_prefix(loader: ModLoader, adjuncts: Seq<LoaderComponent>, n: int)
    requires
        0 <= n <= adjuncts.len(),
        adjunct_support_error(loader, adjuncts.take(n)) is Some,
    ensures
        adjunct_support_error(loader, adjuncts) == adjunct_support_error(loader, adjuncts.take(n)),
    decreases adjuncts.len() - n,
{
    if n < adjuncts.len() {
        assert(adjuncts.take(n + 1).drop_last() =~= adjuncts.take(n));
        lemma_support_error_prefix(loader, adjuncts, n + 1);
    } else {
        assert(adjuncts.take(n) =~= adjuncts);
    }
}

/// Some component of `components` is of `kind`, whatever its role.
pub open spec fn has_kind(components: Seq<LoaderComponent>, kind: LoaderComponentKind) -> bool {
    exists|i: int| 0 <= i < components.len() && #[trigger] components[i].kind == kind
}

/// Whether some component is of `kind`.
fn has_component_kind(components: &[LoaderComponent], kind: LoaderComponentKind) -> (r: bool)
    ensures
        r == has_kind(components@, kind),
{
    let mut i: usize = 0;
    while i < components.len()
        invariant
            i <= components.len(),
            forall|j: int| 0 <= j < i ==> #[trigger] components@[j].kind != kind,
        decreases components.len() - i,
    {
        if components[i].kind == kind {
            return true;
        }
        i = i + 1;
    }
    false
}

/// OptiFine on a Fabric loader needs OptiFabric; it is added when not requested.
pub fn needs_optifabric_adjunct(loader: ModLoader, adjuncts: &[LoaderComponent]) -> (r: bool)
    ensures
        r == (has_kind(adjuncts@, LoaderComponentKind::OptiFine) && (loader == ModLoader::Fabric
            || loader == ModLoader::LegacyFabric) && !has_kind(adjuncts@, LoaderComponentKind::OptiFabric)),
{
    has_component_kind(adjuncts, LoaderComponentKind::OptiFine) && (loader == ModLoader::Fabric
        || loader == ModLoader::LegacyFabric) && !has_component_kind(adjuncts, LoaderComponentKind::OptiFabric)
}

/// Makes every requested component an adjunct that belongs to no instance yet.
pub fn mark_as_adjuncts(adjuncts: &mut Vec<LoaderComponent>)
    ensures
        final(adjuncts)@.len() == old(adjuncts)@.len(),
        forall|i: int|
            0 <= i < final(adjuncts)@.len() ==> #[trigger] final(adjuncts)@[i].role
                == LoaderComponentRole::Adjunct && final(adjuncts)@[i].instance_id@.len() == 0
                && final(adjuncts)@[i].kind == old(adjuncts)@[i].kind && final(adjuncts)@[i].version
                == old(adjuncts)@[i].version,
{
    let mut i: usize = 0;
    while i < adjuncts.len()
        invariant
            i <= adjuncts.len() == old(adjuncts)@.len(),
            forall|j: int|
                0 <= j < i ==> #[trigger] adjuncts@[j].role == LoaderComponentRole::Adjunct
                    && adjuncts@[j].instance_id@.len() == 0 && adjuncts@[j].kind == old(
                    adjuncts,
                )@[j].kind && adjuncts@[j].version == old(adjuncts)@[j].version,
            forall|j: int| i <= j < adjuncts@.len() ==> #[trigger] adjuncts@[j] == old(adjuncts)@[j],
        decreases adjuncts.len() - i,
    {
        let c = adjuncts.remove(i);
        let updated = LoaderComponent {
            instance_id: String::new(),
            kind: c.kind,
            version: c.version,
            role: LoaderComponentRole::Adjunct,
        };
        adjuncts.insert(i, updated);
        i = i + 1;
    }
}

/// The component kind of a primary loader.
pub open spec fn primary_kind_of(loader: ModLoader) -> LoaderComponentKind {
    match loader {
        ModLoader::Vanilla => LoaderComponentKind::Vanilla,
        ModLoader::Forge => LoaderComponentKind::Forge,
        ModLoader::Fabric => LoaderComponentKind::Fabric,
        ModLoader::Quilt => LoaderComponentKind::Quilt,
        ModLoader::NeoForge => LoaderComponentKind::NeoForge,
        ModLoader::OptiFine => LoaderComponentKind::OptiFine,
        ModLoader::Cleanroom => LoaderComponentKind::Cleanroom,
        ModLoader::LiteLoader => LoaderComponentKind::LiteLoader,
        ModLoader::LegacyFabric => LoaderComponentKind::LegacyFabric,
        ModLoader::Babric => LoaderComponentKind::Babric,
    }
}

impl LoaderComponent {
    /// The primary component of an instance running `loader`.
    pub fn new_primary(instance_id: String, loader: ModLoader, version: Option<String>) -> (c: Self)
        ensures
            c.instance_id == instance_id,
            c.kind == primary_kind_of(loader),
            c.version == version,
            c.role == LoaderComponentRole::Primary,
    {
        let kind = match loader {
            ModLoader::Vanilla => LoaderComponentKind::Vanilla,
            ModLoader::Forge => LoaderComponentKind::Forge,
            ModLoader::Fabric => LoaderComponentKind::Fabric,
            ModLoader::Quilt => LoaderComponentKind::Quilt,
            ModLoader::NeoForge => LoaderComponentKind::NeoForge,
            ModLoader::OptiFine => LoaderComponentKind::OptiFine,
            ModLoader::Cleanroom => LoaderComponentKind::Cleanroom,
            ModLoader::LiteLoader => LoaderComponentKind::LiteLoader,
            ModLoader::LegacyFabric => LoaderComponentKind::LegacyFabric,
            ModLoader::Babric => LoaderComponentKind::Babric,
        };
        LoaderComponent { instance_id, kind, version, role: LoaderComponentRole::Primary }
    }

    /// A copy of the component.
    pub fn duplicate(&self) -> (c: Self)
        ensures
            c == *self,
    {
        LoaderComponent {
            instance_id: self.instance_id.clone(),
            kind: self.kind,
            version: copy_opt_string(&self.version),
            role: self.role,
        }
    }
}

/// A primary component followed by `adjuncts` has the adjuncts of `adjuncts`.
proof fn lemma_primary_then_adjuncts(components: Seq<LoaderComponent>, adjuncts: Seq<LoaderComponent>)
    requires
        components.len() == adjuncts.len() + 1,
        components[0].role == LoaderComponentRole::Primary,
        forall|j: int| 0 <= j < adjuncts.len() ==> components[j + 1] == adjuncts[j],
    ensures
        forall|kind: LoaderComponentKind| has_adjunct(components, kind) == has_adjunct(adjuncts, kind),
        has_foreign_adjunct(components) == has_foreign_adjunct(adjuncts),
{
    assert forall|kind: LoaderComponentKind| has_adjunct(components, kind) == has_adjunct(adjuncts, kind) by {
        if has_adjunct(components, kind) {
            let i = choose|i: int|
                0 <= i < components.len() && #[trigger] components[i].role
                    == LoaderComponentRole::Adjunct && components[i].kind == kind;
            assert(adjuncts[i - 1] == components[i]);
        }
        if has_adjunct(adjuncts, kind) {
            let j = choose|j: int|
                0 <= j < adjuncts.len() && #[trigger] adjuncts[j].role
                    == LoaderComponentRole::Adjunct && adjuncts[j].kind == kind;
            assert(components[j + 1] == adjuncts[j]);
        }
    }
    if has_foreign_adjunct(components) {
        let i = choose|i: int|
            0 <= i < components.len() && #[trigger] components[i].role == LoaderComponentRole::Adjunct
                && !(components[i].kind == LoaderComponentKind::OptiFine || components[i].kind
                == LoaderComponentKind::LiteLoader || components[i].kind
                == LoaderComponentKind::OptiFabric);
        assert(adjuncts[i - 1] == components[i]);
    }
    if has_foreign_adjunct(adjuncts) {
        let j = choose|j: int|
            0 <= j < adjuncts.len() && #[trigger] adjuncts[j].role == LoaderComponentRole::Adjunct
                && !(adjuncts[j].kind == LoaderComponentKind::OptiFine || adjuncts[j].kind
                == LoaderComponentKind::LiteLoader || adjuncts[j].kind
                == LoaderComponentKind::OptiFabric);
        assert(components[j + 1] == adjuncts[j]);
    }
}

/// Checks the requested adjuncts against a primary component for `loader`, as the
/// selection of a new instance would be checked.
pub fn validate_adjunct_selection(loader: ModLoader, adjuncts: &Vec<LoaderComponent>) -> (r: Result<(), ErrorKind>)
    ensures
        r is Ok <==> selection_error_with_primary(primary_kind_of(loader), adjuncts@) is None,
        r matches Err(e) ==> e matches ErrorKind::InputError(m) && selection_error_with_primary(
            primary_kind_of(loader),
            adjuncts@,
        ) == Some(m@),
{
    let mut components: Vec<LoaderComponent> = Vec::new();
    components.push(LoaderComponent::new_primary(String::new(), loader, None));
    let mut i: usize = 0;
    while i < adjuncts.len()
        invariant
            i <= adjuncts.len(),
            components@.len() == i + 1,
            components@[0].kind == primary_kind_of(loader),
            components@[0].role == LoaderComponentRole::Primary,
            forall|j: int| 0 <= j < i ==> components@[j + 1] == adjuncts@[j],
        decreases adjuncts.len() - i,
    {
        components.push(adjuncts[i].duplicate());
        i = i + 1;
    }
    proof {
        lemma_primary_then_adjuncts(components@, adjuncts@);
        let first = components@.take(1);
        assert(first.drop_last() =~= Seq::<LoaderComponent>::empty());
        assert(primary_position(first.drop_last()) == -1);
        assert(first.last() == components@[0]);
        assert(primary_position(first) == 0);
        lemma_primary_position_prefix(components@, 1);
        assert(primary_position(components@) == 0);
        assert(has_adjunct(components@, LoaderComponentKind::OptiFine) == has_adjunct(adjuncts@, LoaderComponentKind::OptiFine));
        assert(has_adjunct(components@, LoaderComponentKind::OptiFabric) == has_adjunct(adjuncts@, LoaderComponentKind::OptiFabric));
        assert(has_adjunct(components@, LoaderComponentKind::LiteLoader) == has_adjunct(adjuncts@, LoaderComponentKind::LiteLoader));
        assert(loader_selection_error(components@) == selection_error_with_primary(primary_kind_of(loader), adjuncts@));
    }
    let slice = components.as_slice();
    assert(slice@ == components@);
    validate_loader_components(slice)
}

/// Index of the first component of `kind`, or `-1`.
pub open spec fn kind_position(components: Seq<LoaderComponent>, kind: LoaderComponentKind) -> int
    decreases components.len(),
{
    if components.len() == 0 {
        -1
    } else if kind_position(components.drop_last(), kind) >= 0 {
        kind_position(components.drop_last(), kind)
    } else if components.last().kind == kind {
        components.len() - 1
    } else {
        -1
    }
}

proof fn lemma_kind_position(components: Seq<LoaderComponent>, kind: LoaderComponentKind, n: int)
    requires
        0 <= n <= components.len(),
    ensures
        kind_position(components.take(n), kind) >= 0 ==> kind_position(components, kind)
            == kind_position(components.take(n), kind),
        -1 <= kind_position(components, kind) < components.len(),
        kind_position(components, kind) >= 0 ==> components[kind_position(components, kind)].kind == kind,
    decreases components.len() - n,
{
    if n < components.len() {
        assert(components.take(n + 1).drop_last() =~= components.take(n));
        lemma_kind_position(components, kind, n + 1);
    } else {
        assert(components.take(n) =~= components);
        lemma_kind_position_bounds(components, kind);
    }
}

proof fn lemma_kind_position_bounds(components: Seq<LoaderComponent>, kind: LoaderComponentKind)
    ensures
        -1 <= kind_position(components, kind) < components.len(),
        kind_position(components, kind) >= 0 ==> components[kind_position(components, kind)].kind == kind,
    decreases components.len(),
{
    if components.len() > 0 {
        lemma_kind_position_bounds(components.drop_last(), kind);
    }
}

/// Records the installed version on the first component of `kind`; without one,
/// nothing changes.
pub fn set_component_version(components: &mut Vec<LoaderComponent>, kind: LoaderComponentKind, version: String)
    ensures
        kind_position(old(components)@, kind) < 0 ==> final(components)@ == old(components)@,
        kind_position(old(components)@, kind) >= 0 ==> final(components)@ == old(components)@.update(
            kind_position(old(components)@, kind),
            LoaderComponent {
                version: Some(version),
                ..old(components)@[kind_position(old(components)@, kind)]
            },
        ),
{
    proof {
        lemma_kind_position_bounds(components@, kind);
    }
    let mut i: usize = 0;
    while i < components.len()
        invariant
            i <= components.len(),
            components@ == old(components)@,
            kind_position(components@.take(i as int), kind) == -1,
            -1 <= kind_position(components@, kind) < components@.len(),
            kind_position(components@, kind) >= 0 ==> components@[kind_position(components@, kind)].kind == kind,
        decreases components.len() - i,
    {
        assert(components@.take(i + 1).drop_last() =~= components@.take(i as int));
        if components[i].kind == kind {
            proof {
                lemma_kind_position(components@, kind, i + 1);
            }
            let c = components.remove(i);
            let updated = LoaderComponent {
                instance_id: c.instance_id,
                kind: c.kind,
                version: Some(version),
                role: c.role,
            };
            components.insert(i, updated);
            proof {
                assert(components@ =~= old(components)@.update(i as int, updated));
            }
            return;
        }
        i = i + 1;
    }
    assert(components@.take(components.len() as int) =~= components@);
}

/// Index of the first file that is available and supports `game_version`, or `-1`.
pub open spec fn optifabric_file_position(files: Seq<CurseForgeFile>, game_version: Seq<char>) -> int
    decreases files.len(),
{
    if files.len() == 0 {
        -1
    } else if optifabric_file_position(files.drop_last(), game_version) >= 0 {
        optifabric_file_position(files.drop_last(), game_version)
    } else if files.last().is_available && file_supports_version(files.last(), game_version) {
        files.len() - 1
    } else {
        -1
    }
}

proof fn lemma_optifabric_position(files: Seq<CurseForgeFile>, game_version: Seq<char>, n: int)
    requires
        0 <= n <= files.len(),
        optifabric_file_position(files.take(n), game_version) >= 0,
    ensures
        optifabric_file_position(files, game_version) == optifabric_file_position(files.take(n), game_version),
    decreases files.len() - n,
{
    if n < files.len() {
        assert(files.take(n + 1).drop_last() =~= files.take(n));
        lemma_optifabric_position(files, game_version, n + 1);
    } else {
        assert(files.take(n) =~= files);
    }
}

/// The first OptiFabric file that is available and supports `game_version`.
pub fn select_optifabric_file_id(files: &[CurseForgeFile], game_version: &str) -> (r: Option<u32>)
    ensures
        optifabric_file_position(files@, game_version@) < 0 ==> r is None,
        optifabric_file_position(files@, game_version@) >= 0 ==> r == Some(
            files@[optifabric_file_position(files@, game_version@)].id,
        ),
{
    let mut i: usize = 0;
    while i < files.len()
        invariant
            i <= files.len(),
            optifabric_file_position(files@.take(i as int), game_version@) == -1,
        decreases files.len() - i,
    {
        assert(files@.take(i + 1).drop_last() =~= files@.take(i as int));
        if files[i].is_available && lists_game_version(&files[i].game_versions, game_version) {
            proof {
                lemma_optifabric_position(files@, game_version@, i + 1);
                assert(files@.take(i + 1).last() == files@[i as int]);
            }
            return Some(files[i].id);
        }
        i = i + 1;
    }
    assert(files@.take(files.len() as int) =~= files@);
    None
}

/// An OptiFabric file may be installed for `game_version`: it belongs to the OptiFabric
/// project, is available and supports that version.
pub fn optifabric_file_accepted(file: &CurseForgeFile, game_version: &str) -> (r: bool)
    ensures
        r == (file.mod_id == OPTIFABRIC_CURSEFORGE_PROJECT_ID && file.is_available
            && file_supports_version(*file, game_version@)),
{
    file.mod_id == OPTIFABRIC_CURSEFORGE_PROJECT_ID && file.is_available && lists_game_version(
        &file.game_versions,
        game_version,
    )
}

/// The loader components of an instance, moved to another instance: the same
/// components, each now belonging to `target_instance_id`.
pub fn components_for_instance(components: &[LoaderComponent], target_instance_id: &str) -> (r: Vec<LoaderComponent>)
    ensures
        r@.len() == components@.len(),
        forall|i: int|
            0 <= i < r@.len() ==> #[trigger] r@[i] == (LoaderComponent {
                instance_id: r@[i].instance_id,
                ..components@[i]
            }) && r@[i].instance_id@ == target_instance_id@,
{
    let mut r: Vec<LoaderComponent> = Vec::new();
    let mut i: usize = 0;
    while i < components.len()
        invariant
            i <= components.len(),
            r@.len() == i,
            forall|j: int|
                0 <= j < i ==> #[trigger] r@[j] == (LoaderComponent {
                    instance_id: r@[j].instance_id,
                    ..components@[j]
                }) && r@[j].instance_id@ == target_instance_id@,
        decreases components.len() - i,
    {
        let c = &components[i];
        r.push(
            LoaderComponent {
                instance_id: to_owned_string(target_instance_id),
                kind: c.kind,
                version: crate::install::copy_opt_string(&c.version),
                role: c.role,
            },
        );
        i = i + 1;
    }
    r
}

} // verus!
