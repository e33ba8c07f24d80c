//! Upgrading an instance to another game version or loader: its default name, the
//! compatibility warnings shown to the user, and the external changes to its files.
use vstd::prelude::*;

use crate::install::ModLoader;
use crate::text::{
    chars_of, lemma_lex_compare_antisymmetric, lemma_lex_compare_bounds, lemma_lex_compare_transitive,
    lemma_lex_compare_zero, lex_compare, lex_compare_exec, str_eq, to_owned_string, trim_string,
};

verus! {

/// The game version and loader an instance is upgraded to.
#[derive(Clone, Debug)]
pub struct InstanceUpgradeEnvironment {
    pub game_version: String,
    pub mod_loader: ModLoader,
    pub mod_loader_version: Option<String>,
}

/// The display name of a loader.
pub open spec fn loader_display_name(loader: ModLoader) -> Seq<char> {
    match loader {
        ModLoader::Vanilla => "Vanilla"@,
        ModLoader::Forge => "Forge"@,
        ModLoader::Fabric => "Fabric"@,
        ModLoader::Quilt => "Quilt"@,
        ModLoader::NeoForge => "NeoForge"@,
        ModLoader::OptiFine => "OptiFine"@,
        ModLoader::Cleanroom => "Cleanroom"@,
        ModLoader::LiteLoader => "LiteLoader"@,
        ModLoader::LegacyFabric => "Legacy Fabric"@,
        ModLoader::Babric => "Babric"@,
    }
}

/// The name given to an upgraded copy: `<game version>-<Loader>`, followed by the loader
/// version unless it is missing, `latest` or `stable`.
pub open spec fn default_upgrade_name_spec(env: InstanceUpgradeEnvironment) -> Seq<char> {
    let suffix = match env.mod_loader_version {
        Some(v) => if v@ == "latest"@ || v@ == "stable"@ {
            Seq::empty()
        } else {
            " "@ + v@
        },
        None => Seq::empty(),
    };
    env.game_version@ + "-"@ + loader_display_name(env.mod_loader) + suffix
}

/// The display name of a loader.
fn loader_display(loader: ModLoader) -> (r: &'static str)
    ensures
        r@ == loader_display_name(loader),
{
    match loader {
        ModLoader::Vanilla => "Vanilla",
        ModLoader::Forge => "Forge",
        ModLoader::Fabric => "Fabric",
        ModLoader::Quilt => "Quilt",
        ModLoader::NeoForge => "NeoForge",
        ModLoader::OptiFine => "OptiFine",
        ModLoader::Cleanroom => "Cleanroom",
        ModLoader::LiteLoader => "LiteLoader",
        ModLoader::LegacyFabric => "Legacy Fabric",
        ModLoader::Babric => "Babric",
    }
}

/// The name given to an upgraded copy of an instance.
pub fn default_upgrade_instance_name(environment: &InstanceUpgradeEnvironment) -> (r: String)
    ensures
        r@ == default_upgrade_name_spec(*environment),
{
    let mut r = environment.game_version.clone();
    r.append("-");
    r.append(loader_display(environment.mod_loader));
    match &environment.mod_loader_version {
        Some(v) => {
            if !(str_eq(v.as_str(), "latest") || str_eq(v.as_str(), "stable")) {
                r.append(" ");
                r.append(v.as_str());
            } else {
                proof {
                    assert(r@ + Seq::<char>::empty() =~= r@);
                }
            }
        },
        None => {
            proof {
                assert(r@ + Seq::<char>::empty() =~= r@);
            }
        },
    }
    r
}

/// How an instance shared with another launcher is upgraded.
#[derive(PartialEq, Eq, Structural, Clone, Copy, Debug)]
pub enum SharedUpgradeMode {
    /// The instance itself is upgraded.
    Direct,
    /// A copy is made and upgraded.
    CopyAndUpgrade,
}

/// A backup is made when asked for and the instance itself is upgraded.
pub fn should_create_upgrade_backup(requested: bool, mode: SharedUpgradeMode) -> (r: bool)
    ensures
        r == (requested && mode == SharedUpgradeMode::Direct),
{
    requested && mode == SharedUpgradeMode::Direct
}

/// How a file changed outside the launcher during an upgrade.
#[derive(PartialEq, Eq, Structural, Clone, Copy, Debug)]
pub enum InstanceUpgradeExternalChangeKind {
    Added,
    Removed,
    Modified,
}

/// A file that existed at the start, or exists now, or both: how it changed.
pub open spec fn classify_spec(existed_at_start: bool, exists_now: bool) -> InstanceUpgradeExternalChangeKind {
    if !existed_at_start && exists_now {
        InstanceUpgradeExternalChangeKind::Added
    } else if existed_at_start && !exists_now {
        InstanceUpgradeExternalChangeKind::Removed
    } else {
        InstanceUpgradeExternalChangeKind::Modified
    }
}

/// How a file changed, from whether it existed at the start and exists now.
pub fn classify_upgrade_external_change(existed_at_start: bool, exists_now: bool) -> (r: InstanceUpgradeExternalChangeKind)
    ensures
        r == classify_spec(existed_at_start, exists_now),
{
    match (existed_at_start, exists_now) {
        (false, true) => InstanceUpgradeExternalChangeKind::Added,
        (true, false) => InstanceUpgradeExternalChangeKind::Removed,
        _ => InstanceUpgradeExternalChangeKind::Modified,
    }
}

/// A content change staged by an upgrade, as far as conflicts are concerned.
#[derive(Clone, Debug)]
pub struct StagedUpgradeMutation {
    pub existing_path: Option<String>,
    pub target_path: String,
    pub auto_dependency: bool,
    pub enabled: bool,
}

/// `paths` holds `path`.
pub open spec fn path_listed(paths: Seq<String>, path: Seq<char>) -> bool {
    exists|i: int| 0 <= i < paths.len() && #[trigger] paths[i]@ == path
}

/// Whether `paths` holds `path`.
pub(crate) fn lists_path(paths: &Vec<String>, path: &String) -> (r: bool)
    ensures
        r == path_listed(paths@, path@),
{
    let mut i: usize = 0;
    while i < paths.len()
        invariant
            i <= paths.len(),
            forall|j: int| 0 <= j < i ==> #[trigger] paths@[j]@ != path@,
        decreases paths.len() - i,
    {
        if str_eq(paths[i].as_str(), path.as_str()) {
            return true;
        }
        i = i + 1;
    }
    false
}

/// A staged change conflicts with files changed outside the launcher when its target,
/// or the file it replaces, was changed.
pub fn upgrade_mutation_conflicts(mutation: &StagedUpgradeMutation, external_paths: &Vec<String>) -> (r: bool)
    ensures
        r == (path_listed(external_paths@, mutation.target_path@) || (mutation.existing_path matches Some(
            p,
        ) && path_listed(external_paths@, p@))),
{
    if lists_path(external_paths, &mutation.target_path) {
        return true;
    }
    match &mutation.existing_path {
        Some(p) => lists_path(external_paths, p),
        None => false,
    }
}

/// A count of mutations used to stop an upgrade on purpose in debug builds: the
/// trimmed text as a positive number (`str::parse::<usize>`, which allows a leading `+`).
pub open spec fn debug_mutation_count_spec(value: Seq<char>) -> Option<nat> {
    let trimmed = crate::text::trim_spec(value);
    let t = if trimmed.len() > 0 && trimmed[0] == '+' {
        trimmed.skip(1)
    } else {
        trimmed
    };
    if crate::launcher::parses_as_u64(t) && crate::launcher::digits_value(t) > 0 && crate::launcher::digits_value(t) <= usize::MAX {
        Some(crate::launcher::digits_value(t))
    } else {
        None
    }
}

/// Reads a positive mutation count from an environment value.
pub fn debug_mutation_count(value: &str) -> (r: Option<usize>)
    ensures
        match debug_mutation_count_spec(value@) {
            Some(n) => r == Some(n as usize),
            None => r is None,
        },
{
    let trimmed = trim_string(value);
    let chars = chars_of(trimmed.as_str());
    let t = if chars.len() > 0 && chars[0] == '+' {
        proof {
            assert(chars@.subrange(1, chars@.len() as int) =~= trimmed@.skip(1));
        }
        crate::text::string_from_chars(&chars, 1, chars.len())
    } else {
        trimmed
    };
    match crate::launcher::parse_u64_digits(t.as_str()) {
        Some(n) => {
            if n > 0 && n <= usize::MAX as u64 {
                Some(n as usize)
            } else {
                None
            }
        },
        None => None,
    }
}

/// A content file of an instance as an upgrade records it.
#[derive(Clone, Debug, PartialEq, Eq)]
pub struct InstanceUpgradeSourceFile {
    pub relative_path: String,
    pub sha1: String,
    pub size: u64,
    pub enabled: bool,
}

/// A file changed outside the launcher.
#[derive(Clone, Debug, PartialEq, Eq)]
pub struct InstanceUpgradeExternalChange {
    pub relative_path: String,
    pub kind: InstanceUpgradeExternalChangeKind,
}

/// The last file recorded for `path` (later entries replace earlier ones, as in a map
/// built from the list).
pub open spec fn file_for(files: Seq<InstanceUpgradeSourceFile>, path: Seq<char>) -> Option<InstanceUpgradeSourceFile>
    decreases files.len(),
{
    if files.len() == 0 {
        None
    } else if files.last().relative_path@ == path {
        Some(files.last())
    } else {
        file_for(files.drop_last(), path)
    }
}

/// Two records describe the same content: hash, size and enabled state agree.
pub open spec fn same_content(a: InstanceUpgradeSourceFile, b: InstanceUpgradeSourceFile) -> bool {
    a.sha1@ == b.sha1@ && a.size == b.size && a.enabled == b.enabled
}

/// How the file at `path` changed between the recorded files and the current ones.
pub open spec fn change_for(
    source: Seq<InstanceUpgradeSourceFile>,
    current: Seq<InstanceUpgradeSourceFile>,
    path: Seq<char>,
) -> Option<InstanceUpgradeExternalChangeKind> {
    match (file_for(source, path), file_for(current, path)) {
        (None, Some(_)) => Some(InstanceUpgradeExternalChangeKind::Added),
        (Some(_), None) => Some(InstanceUpgradeExternalChangeKind::Removed),
        (Some(a), Some(b)) => if same_content(a, b) {
            None
        } else {
            Some(InstanceUpgradeExternalChangeKind::Modified)
        },
        (None, None) => None,
    }
}

/// The paths of a list of strings, as a set.
pub open spec fn text_set(v: Seq<String>) -> Set<Seq<char>> {
    v.map_values(|s: String| s@).to_set()
}

/// The texts are in strictly increasing order.
pub open spec fn strictly_sorted(v: Seq<String>) -> bool {
    forall|i: int, j: int| 0 <= i < j < v.len() ==> lex_compare(#[trigger] v[i]@, #[trigger] v[j]@) < 0
}

/// The changes are in strictly increasing order of path.
pub open spec fn changes_strictly_sorted(v: Seq<InstanceUpgradeExternalChange>) -> bool {
    forall|i: int, j: int|
        0 <= i < j < v.len() ==> lex_compare(#[trigger] v[i].relative_path@, #[trigger] v[j].relative_path@) < 0
}

proof fn lemma_text_set_insert(v: Seq<String>, k: int, p: String)
    requires
        0 <= k <= v.len(),
    ensures
        text_set(v.insert(k, p)) == text_set(v).insert(p@),
{
    let a = v.insert(k, p).map_values(|s: String| s@);
    let b = v.map_values(|s: String| s@);
    assert(a =~= b.insert(k, p@));
    assert forall|x: Seq<char>| a.to_set().contains(x) == b.to_set().insert(p@).contains(x) by {
        if a.to_set().contains(x) {
            let i = choose|i: int| 0 <= i < a.len() && a[i] == x;
            if i < k {
                assert(b[i] == x);
            } else if i > k {
                assert(b[i - 1] == x);
            }
        }
        if b.to_set().contains(x) {
            let i = choose|i: int| 0 <= i < b.len() && b[i] == x;
            if i < k {
                assert(a[i] == x);
            } else {
                assert(a[i + 1] == x);
            }
        }
        if x == p@ {
            assert(a[k] == x);
        }
    }
    assert(a.to_set() =~= b.to_set().insert(p@));
}

/// Adds `p` to a strictly sorted list of paths, unless it is there already.
#[verifier::spinoff_prover]
fn insert_sorted_unique(paths: &mut Vec<String>, p: String)
    requires
        strictly_sorted(old(paths)@),
    ensures
        strictly_sorted(final(paths)@),
        text_set(final(paths)@) == text_set(old(paths)@).insert(p@),
{
    let pc = chars_of(p.as_str());
    let mut k: usize = 0;
    while k < paths.len()
        invariant
            k <= paths.len(),
            pc@ == p@,
            paths@ == old(paths)@,
            forall|j: int| 0 <= j < k ==> lex_compare(#[trigger] paths@[j]@, p@) < 0,
            strictly_sorted(old(paths)@),
        ensures
            k <= paths.len(),
            paths@ == old(paths)@,
            forall|j: int| 0 <= j < k ==> lex_compare(#[trigger] paths@[j]@, p@) < 0,
            k < paths.len() ==> lex_compare(paths@[k as int]@, p@) > 0,
        decreases paths.len() - k,
    {
        let qc = chars_of(paths[k].as_str());
        let c = lex_compare_exec(&qc, &pc);
        if c == 0 {
            proof {
                lemma_lex_compare_zero(paths@[k as int]@, p@);
                assert(text_set(paths@).contains(p@)) by {
                    assert(paths@.map_values(|s: String| s@)[k as int] == p@);
                }
                assert(text_set(paths@).insert(p@) =~= text_set(paths@));
                assert(strictly_sorted(paths@));
            }
            return;
        }
        if c > 0 {
            break;
        }
        k = k + 1;
    }
    let ghost before = paths@;
    proof {
        lemma_text_set_insert(before, k as int, p);
        if k < before.len() {
            assert(lex_compare(before[k as int]@, p@) > 0);
        }
    }
    paths.insert(k, p);
    proof {
        let after = paths@;
        assert forall|i: int, j: int| 0 <= i < j < after.len() implies lex_compare(#[trigger] after[i]@, #[trigger] after[j]@) < 0 by {
            if j < k {
                assert(after[i] == before[i] && after[j] == before[j]);
            } else if j == k {
                assert(after[i] == before[i]);
            } else if i == k {
                assert(after[j] == before[j - 1]);
                lemma_lex_compare_antisymmetric(before[k as int]@, after[i]@);
                if j - 1 > k {
                    lemma_lex_compare_transitive(after[i]@, before[k as int]@, before[j - 1]@);
                }
            } else if i < k {
                assert(after[i] == before[i]);
                assert(after[j] == before[j - 1]);
                assert(lex_compare(before[i]@, p@) < 0);
                lemma_lex_compare_antisymmetric(before[k as int]@, p@);
                lemma_lex_compare_transitive(before[i]@, p@, before[k as int]@);
                if j - 1 > k {
                    lemma_lex_compare_transitive(before[i]@, before[k as int]@, before[j - 1]@);
                }
            } else {
                assert(after[i] == before[i - 1]);
                assert(after[j] == before[j - 1]);
            }
        }
    }
}

/// The last file recorded for `path`.
fn find_file_for<'a>(files: &'a [InstanceUpgradeSourceFile], path: &String) -> (r: Option<&'a InstanceUpgradeSourceFile>)
    ensures
        match file_for(files@, path@) {
            Some(f) => r matches Some(g) && *g == f,
            None => r is None,
        },
{
    let mut i = files.len();
    assert(files@.take(i as int) =~= files@);
    while i > 0
        invariant
            i <= files.len(),
            file_for(files@, path@) == file_for(files@.take(i as int), path@),
        decreases i,
    {
        assert(files@.take(i as int).drop_last() =~= files@.take(i - 1));
        if str_eq(files[i - 1].relative_path.as_str(), path.as_str()) {
            return Some(&files[i - 1]);
        }
        i = i - 1;
    }
    None
}

/// How the file at `path` changed.
fn change_at(source: &[InstanceUpgradeSourceFile], current: &[InstanceUpgradeSourceFile], path: &String) -> (r: Option<InstanceUpgradeExternalChangeKind>)
    ensures
        r == change_for(source@, current@, path@),
{
    match (find_file_for(source, path), find_file_for(current, path)) {
        (None, Some(_)) => Some(InstanceUpgradeExternalChangeKind::Added),
        (Some(_), None) => Some(InstanceUpgradeExternalChangeKind::Removed),
        (Some(a), Some(b)) => if str_eq(a.sha1.as_str(), b.sha1.as_str()) && a.size == b.size && a.enabled == b.enabled {
            None
        } else {
            Some(InstanceUpgradeExternalChangeKind::Modified)
        },
        (None, None) => None,
    }
}

/// The paths recorded in a list of files.
pub open spec fn file_paths(files: Seq<InstanceUpgradeSourceFile>) -> Set<Seq<char>> {
    files.map_values(|f: InstanceUpgradeSourceFile| f.relative_path@).to_set()
}

proof fn lemma_file_for_listed(files: Seq<InstanceUpgradeSourceFile>, path: Seq<char>)
    ensures
        file_for(files, path) is Some ==> file_paths(files).contains(path),
    decreases files.len(),
{
    if files.len() > 0 {
        lemma_file_for_listed(files.drop_last(), path);
        if file_for(files, path) is Some {
            if files.last().relative_path@ == path {
                assert(files.map_values(|f: InstanceUpgradeSourceFile| f.relative_path@)[files.len() - 1] == path);
            } else {
                let v = files.drop_last().map_values(|f: InstanceUpgradeSourceFile| f.relative_path@);
                let i = choose|i: int| 0 <= i < v.len() && v[i] == path;
                assert(files.map_values(|f: InstanceUpgradeSourceFile| f.relative_path@)[i] == path);
            }
        }
    }
}

/// The recorded and current paths, each once, in increasing order.
#[verifier::spinoff_prover]
fn all_paths_sorted(source: &[InstanceUpgradeSourceFile], current: &[InstanceUpgradeSourceFile]) -> (paths: Vec<String>)
    ensures
        strictly_sorted(paths@),
        text_set(paths@) == file_paths(source@).union(file_paths(current@)),
{
    let mut paths: Vec<String> = Vec::new();
    let mut i: usize = 0;
    proof {
        assert(text_set(paths@) =~= Set::<Seq<char>>::empty());
    }
    while i < source.len()
        invariant
            i <= source.len(),
            strictly_sorted(paths@),
            text_set(paths@) == file_paths(source@.take(i as int)),
        decreases source.len() - i,
    {
        insert_sorted_unique(&mut paths, source[i].relative_path.clone());
        proof {
            let a = source@.take(i + 1).map_values(|f: InstanceUpgradeSourceFile| f.relative_path@);
            let b = source@.take(i as int).map_values(|f: InstanceUpgradeSourceFile| f.relative_path@);
            assert(a =~= b.push(source@[i as int].relative_path@));
            assert(a.to_set() =~= b.to_set().insert(source@[i as int].relative_path@)) by {
                assert forall|x: Seq<char>| a.to_set().contains(x) == b.to_set().insert(source@[i as int].relative_path@).contains(x) by {
                    if a.to_set().contains(x) {
                        let j = choose|j: int| 0 <= j < a.len() && a[j] == x;
                        if j < b.len() {
                            assert(b[j] == x);
                        }
                    }
                    if b.to_set().contains(x) {
                        let j = choose|j: int| 0 <= j < b.len() && b[j] == x;
                        assert(a[j] == x);
                    }
                    if x == source@[i as int].relative_path@ {
                        assert(a[i as int] == x);
                    }
                }
            }
        }
        i = i + 1;
    }
    assert(source@.take(source.len() as int) =~= source@);
    let mut j: usize = 0;
    while j < current.len()
        invariant
            j <= current.len(),
            strictly_sorted(paths@),
            text_set(paths@) == file_paths(source@).union(file_paths(current@.take(j as int))),
        decreases current.len() - j,
    {
        insert_sorted_unique(&mut paths, current[j].relative_path.clone());
        proof {
            let a = current@.take(j + 1).map_values(|f: InstanceUpgradeSourceFile| f.relative_path@);
            let b = current@.take(j as int).map_values(|f: InstanceUpgradeSourceFile| f.relative_path@);
            assert(a =~= b.push(current@[j as int].relative_path@));
            assert(a.to_set() =~= b.to_set().insert(current@[j as int].relative_path@)) by {
                assert forall|x: Seq<char>| a.to_set().contains(x) == b.to_set().insert(current@[j as int].relative_path@).contains(x) by {
                    if a.to_set().contains(x) {
                        let k = choose|k: int| 0 <= k < a.len() && a[k] == x;
                        if k < b.len() {
                            assert(b[k] == x);
                        }
                    }
                    if b.to_set().contains(x) {
                        let k = choose|k: int| 0 <= k < b.len() && b[k] == x;
                        assert(a[k] == x);
                    }
                    if x == current@[j as int].relative_path@ {
                        assert(a[j as int] == x);
                    }
                }
            }
            assert(file_paths(source@).union(file_paths(current@.take(j + 1))) =~= file_paths(source@).union(
                file_paths(current@.take(j as int)),
            ).insert(current@[j as int].relative_path@));
        }
        j = j + 1;
    }
    assert(current@.take(current.len() as int) =~= current@);
    paths
}

/// The changes found for the first `i` sorted paths.
pub open spec fn diff_prefix_ok(
    source: Seq<InstanceUpgradeSourceFile>,
    current: Seq<InstanceUpgradeSourceFile>,
    paths: Seq<String>,
    r: Seq<InstanceUpgradeExternalChange>,
    i: int,
) -> bool {
    &&& changes_strictly_sorted(r)
    &&& forall|a: int| 0 <= a < r.len() ==> exists|k: int| 0 <= k < i && #[trigger] r[a].relative_path@ == paths[k]@
    &&& forall|a: int|
        0 <= a < r.len() ==> change_for(source, current, #[trigger] r[a].relative_path@) == Some(r[a].kind)
    &&& forall|k: int|
        0 <= k < i && #[trigger] change_for(source, current, paths[k]@) is Some ==> exists|a: int|
            0 <= a < r.len() && r[a].relative_path@ == paths[k]@
}

#[verifier::spinoff_prover]
#[verifier::rlimit(40)]
proof fn lemma_diff_step(
    source: Seq<InstanceUpgradeSourceFile>,
    current: Seq<InstanceUpgradeSourceFile>,
    paths: Seq<String>,
    before: Seq<InstanceUpgradeExternalChange>,
    after: Seq<InstanceUpgradeExternalChange>,
    i: int,
    c: Option<InstanceUpgradeExternalChangeKind>,
)
    requires
        0 <= i < paths.len(),
        strictly_sorted(paths),
        diff_prefix_ok(source, current, paths, before, i),
        c == change_for(source, current, paths[i]@),
        c is None ==> after == before,
        c matches Some(kind) ==> after.len() == before.len() + 1 && after.drop_last() == before
            && after.last().relative_path@ == paths[i]@ && after.last().kind == kind,
    ensures
        diff_prefix_ok(source, current, paths, after, i + 1),
{
    assert forall|a: int| 0 <= a < before.len() implies #[trigger] after[a] == before[a] by {
        if c is Some {
            assert(after.drop_last()[a] == after[a]);
        }
    }
    assert forall|a: int, b: int|
        0 <= a < b < after.len() implies lex_compare(#[trigger] after[a].relative_path@, #[trigger] after[b].relative_path@) < 0 by {
        if b == before.len() {
            let k = choose|k: int| 0 <= k < i && #[trigger] before[a].relative_path@ == paths[k]@;
            assert(after[a] == before[a]);
            assert(lex_compare(paths[k]@, paths[i]@) < 0);
        } else {
            assert(after[a] == before[a] && after[b] == before[b]);
        }
    }
    assert forall|a: int| 0 <= a < after.len() implies exists|k: int| 0 <= k < i + 1 && #[trigger] after[a].relative_path@ == paths[k]@ by {
        if a < before.len() {
            assert(after[a] == before[a]);
            let k = choose|k: int| 0 <= k < i && #[trigger] before[a].relative_path@ == paths[k]@;
            assert(after[a].relative_path@ == paths[k]@);
        } else {
            assert(after[a].relative_path@ == paths[i]@);
        }
    }
    assert forall|a: int| 0 <= a < after.len() implies change_for(source, current, #[trigger] after[a].relative_path@) == Some(after[a].kind) by {
        if a < before.len() {
            assert(after[a] == before[a]);
        }
    }
    assert forall|k: int|
        0 <= k < i + 1 && #[trigger] change_for(source, current, paths[k]@) is Some implies exists|a: int|
            0 <= a < after.len() && after[a].relative_path@ == paths[k]@ by {
        if k < i {
            let a = choose|a: int| 0 <= a < before.len() && before[a].relative_path@ == paths[k]@;
            assert(after[a] == before[a]);
        } else {
            assert(after[after.len() - 1].relative_path@ == paths[k]@);
        }
    }
}

proof fn lemma_diff_complete(
    source: Seq<InstanceUpgradeSourceFile>,
    current: Seq<InstanceUpgradeSourceFile>,
    paths: Seq<String>,
    r: Seq<InstanceUpgradeExternalChange>,
)
    requires
        text_set(paths) == file_paths(source).union(file_paths(current)),
        diff_prefix_ok(source, current, paths, r, paths.len() as int),
    ensures
        forall|p: Seq<char>|
            #[trigger] change_for(source, current, p) is Some ==> exists|i: int|
                0 <= i < r.len() && r[i].relative_path@ == p,
{
    assert forall|p: Seq<char>|
        #[trigger] change_for(source, current, p) is Some implies exists|i: int|
            0 <= i < r.len() && r[i].relative_path@ == p by {
        lemma_file_for_listed(source, p);
        lemma_file_for_listed(current, p);
        assert(text_set(paths).contains(p));
        let v = paths.map_values(|s: String| s@);
        let k = choose|k: int| 0 <= k < v.len() && v[k] == p;
        assert(paths[k]@ == p);
    }
}

/// The files that changed between the recorded and the current files of an instance,
/// one per path, in increasing order of path: added, removed, or modified (hash, size
/// or enabled state differ).
#[verifier::spinoff_prover]
pub fn diff_upgrade_source_files(
    source_files: &[InstanceUpgradeSourceFile],
    current_files: &[InstanceUpgradeSourceFile],
) -> (r: Vec<InstanceUpgradeExternalChange>)
    ensures
        changes_strictly_sorted(r@),
        forall|i: int|
            0 <= i < r@.len() ==> change_for(source_files@, current_files@, #[trigger] r@[i].relative_path@)
                == Some(r@[i].kind),
        forall|p: Seq<char>|
            #[trigger] change_for(source_files@, current_files@, p) is Some ==> exists|i: int|
                0 <= i < r@.len() && r@[i].relative_path@ == p,
{
    let paths = all_paths_sorted(source_files, current_files);
    let mut r: Vec<InstanceUpgradeExternalChange> = Vec::new();
    let mut i: usize = 0;
    while i < paths.len()
        invariant
            i <= paths.len(),
            strictly_sorted(paths@),
            text_set(paths@) == file_paths(source_files@).union(file_paths(current_files@)),
            diff_prefix_ok(source_files@, current_files@, paths@, r@, i as int),
        decreases paths.len() - i,
    {
        let ghost before = r@;
        let c = change_at(source_files, current_files, &paths[i]);
        match c {
            Some(kind) => {
                r.push(InstanceUpgradeExternalChange { relative_path: paths[i].clone(), kind });
                proof {
                    assert(r@.drop_last() =~= before);
                }
            },
            None => {},
        }
        proof {
            lemma_diff_step(source_files@, current_files@, paths@, before, r@, i as int, c);
        }
        i = i + 1;
    }
    proof {
        lemma_diff_complete(source_files@, current_files@, paths@, r@);
    }
    r
}

/// The first current file at `path` (`Iterator::find`).
pub open spec fn first_file_at(files: Seq<InstanceUpgradeSourceFile>, path: Seq<char>) -> Option<InstanceUpgradeSourceFile>
    decreases files.len(),
{
    if files.len() == 0 {
        None
    } else {
        match first_file_at(files.drop_last(), path) {
            Some(f) => Some(f),
            None => if files.last().relative_path@ == path {
                Some(files.last())
            } else {
                None
            },
        }
    }
}

/// The file the launcher itself expects at `path`, if it recorded one (a later entry
/// for a path replaces an earlier one, as inserting into a map does).
pub open spec fn expected_at(
    expected: Seq<(String, Option<InstanceUpgradeSourceFile>)>,
    path: Seq<char>,
) -> Option<Option<InstanceUpgradeSourceFile>>
    decreases expected.len(),
{
    if expected.len() == 0 {
        None
    } else if expected.last().0@ == path {
        Some(expected.last().1)
    } else {
        expected_at(expected.drop_last(), path)
    }
}

/// Two records are equal, field by field.
pub open spec fn same_record(a: InstanceUpgradeSourceFile, b: InstanceUpgradeSourceFile) -> bool {
    a.relative_path@ == b.relative_path@ && same_content(a, b)
}

/// A change counts as external unless the launcher itself left the file as it is now:
/// either it expected no file and there is none, or it expected exactly the current file.
#[verifier::opaque]
pub open spec fn external_change_kept(
    current: Seq<InstanceUpgradeSourceFile>,
    expected: Seq<(String, Option<InstanceUpgradeSourceFile>)>,
    path: Seq<char>,
) -> bool {
    match expected_at(expected, path) {
        None => true,
        Some(e) => match (e, first_file_at(current, path)) {
            (None, None) => false,
            (Some(a), Some(b)) => !same_record(a, b),
            _ => true,
        },
    }
}

/// The first current file at `path`.
fn find_first_file_at<'a>(files: &'a [InstanceUpgradeSourceFile], path: &String) -> (r: Option<&'a InstanceUpgradeSourceFile>)
    ensures
        match first_file_at(files@, path@) {
            Some(f) => r matches Some(g) && *g == f,
            None => r is None,
        },
{
    let mut i: usize = 0;
    while i < files.len()
        invariant
            i <= files.len(),
            first_file_at(files@.take(i as int), path@) is None,
        decreases files.len() - i,
    {
        assert(files@.take(i + 1).drop_last() =~= files@.take(i as int));
        if str_eq(files[i].relative_path.as_str(), path.as_str()) {
            proof {
                lemma_first_file_prefix(files@, path@, i + 1);
            }
            return Some(&files[i]);
        }
        i = i + 1;
    }
    assert(files@.take(files.len() as int) =~= files@);
    None
}

proof fn lemma_first_file_prefix(files: Seq<InstanceUpgradeSourceFile>, path: Seq<char>, n: int)
    requires
        0 <= n <= files.len(),
        first_file_at(files.take(n), path) is Some,
    ensures
        first_file_at(files, path) == first_file_at(files.take(n), path),
    decreases files.len() - n,
{
    if n < files.len() {
        assert(files.take(n + 1).drop_last() =~= files.take(n));
        lemma_first_file_prefix(files, path, n + 1);
    } else {
        assert(files.take(n) =~= files);
    }
}

/// The file the launcher expects at `path`.
fn find_expected<'a>(expected: &'a [(String, Option<InstanceUpgradeSourceFile>)], path: &String) -> (r: Option<&'a Option<InstanceUpgradeSourceFile>>)
    ensures
        match expected_at(expected@, path@) {
            Some(e) => r matches Some(g) && *g == e,
            None => r is None,
        },
{
    let mut i: usize = expected.len();
    assert(expected@.take(i as int) =~= expected@);
    while i > 0
        invariant
            i <= expected.len(),
            expected_at(expected@, path@) == expected_at(expected@.take(i as int), path@),
        decreases i,
    {
        assert(expected@.take(i as int).drop_last() =~= expected@.take(i - 1));
        if str_eq(expected[i - 1].0.as_str(), path.as_str()) {
            return Some(&expected[i - 1].1);
        }
        i = i - 1;
    }
    None
}

/// Whether a change at `path` counts as external.
fn keeps_external_change(
    current: &[InstanceUpgradeSourceFile],
    expected: &[(String, Option<InstanceUpgradeSourceFile>)],
    path: &String,
) -> (r: bool)
    ensures
        r == external_change_kept(current@, expected@, path@),
{
    proof {
        reveal(external_change_kept);
    }
    match find_expected(expected, path) {
        None => true,
        Some(e) => match (e, find_first_file_at(current, path)) {
            (None, None) => false,
            (Some(a), Some(b)) => !(str_eq(a.relative_path.as_str(), b.relative_path.as_str()) && str_eq(
                a.sha1.as_str(),
                b.sha1.as_str(),
            ) && a.size == b.size && a.enabled == b.enabled),
            _ => true,
        },
    }
}

/// The same change.
spec fn same_change(x: InstanceUpgradeExternalChange, y: InstanceUpgradeExternalChange) -> bool {
    x == y
}

/// `x` is one of the first `i` changes of `diff`.
spec fn in_diff_prefix(diff: Seq<InstanceUpgradeExternalChange>, x: InstanceUpgradeExternalChange, i: int) -> bool {
    exists|k: int| 0 <= k < i && same_change(x, #[trigger] diff[k])
}

/// Each change of `r` is one of the first `i` changes of `diff`.
spec fn from_diff_prefix(diff: Seq<InstanceUpgradeExternalChange>, r: Seq<InstanceUpgradeExternalChange>, i: int) -> bool {
    forall|a: int| 0 <= a < r.len() ==> in_diff_prefix(diff, #[trigger] r[a], i)
}

/// Each change of `r` counts as external.
spec fn all_kept(
    current: Seq<InstanceUpgradeSourceFile>,
    expected: Seq<(String, Option<InstanceUpgradeSourceFile>)>,
    r: Seq<InstanceUpgradeExternalChange>,
) -> bool {
    forall|a: int| 0 <= a < r.len() ==> external_change_kept(current, expected, #[trigger] r[a].relative_path@)
}

/// Each of the first `i` changes of `diff` that counts as external is in `r`.
spec fn kept_prefix_in(
    current: Seq<InstanceUpgradeSourceFile>,
    expected: Seq<(String, Option<InstanceUpgradeSourceFile>)>,
    diff: Seq<InstanceUpgradeExternalChange>,
    r: Seq<InstanceUpgradeExternalChange>,
    i: int,
) -> bool {
    forall|k: int|
        0 <= k < i && external_change_kept(current, expected, #[trigger] diff[k].relative_path@) ==> exists|a: int|
            0 <= a < r.len() && same_change(r[a], diff[k])
}

/// The changes kept from the first `i` changes of `diff`.
#[verifier::opaque]
spec fn filter_prefix_ok(
    current: Seq<InstanceUpgradeSourceFile>,
    expected: Seq<(String, Option<InstanceUpgradeSourceFile>)>,
    diff: Seq<InstanceUpgradeExternalChange>,
    r: Seq<InstanceUpgradeExternalChange>,
    i: int,
) -> bool {
    &&& changes_strictly_sorted(r)
    &&& from_diff_prefix(diff, r, i)
    &&& all_kept(current, expected, r)
    &&& kept_prefix_in(current, expected, diff, r, i)
}

/// One filter step: `after` is `before`, with `diff[i]` appended when `keep`.
spec fn filter_step(
    diff: Seq<InstanceUpgradeExternalChange>,
    before: Seq<InstanceUpgradeExternalChange>,
    after: Seq<InstanceUpgradeExternalChange>,
    i: int,
    keep: bool,
) -> bool {
    &&& 0 <= i < diff.len()
    &&& !keep ==> after == before
    &&& keep ==> after.len() == before.len() + 1 && after.drop_last() == before && after.last() == diff[i]
}

proof fn lemma_step_prefix(
    diff: Seq<InstanceUpgradeExternalChange>,
    before: Seq<InstanceUpgradeExternalChange>,
    after: Seq<InstanceUpgradeExternalChange>,
    i: int,
    keep: bool,
)
    requires
        filter_step(diff, before, after, i, keep),
    ensures
        forall|a: int| 0 <= a < before.len() ==> #[trigger] after[a] == before[a],
        after.len() == before.len() || (after.len() == before.len() + 1 && after[before.len() as int] == diff[i]),
{
    assert forall|a: int| 0 <= a < before.len() implies #[trigger] after[a] == before[a] by {
        if keep {
            assert(after.drop_last()[a] == after[a]);
        }
    }
}

proof fn lemma_step_sorted(
    diff: Seq<InstanceUpgradeExternalChange>,
    before: Seq<InstanceUpgradeExternalChange>,
    after: Seq<InstanceUpgradeExternalChange>,
    i: int,
    keep: bool,
)
    requires
        filter_step(diff, before, after, i, keep),
        changes_strictly_sorted(diff),
        changes_strictly_sorted(before),
        from_diff_prefix(diff, before, i),
    ensures
        changes_strictly_sorted(after),
{
    lemma_step_prefix(diff, before, after, i, keep);
    assert forall|a: int, b: int|
        0 <= a < b < after.len() implies lex_compare(#[trigger] after[a].relative_path@, #[trigger] after[b].relative_path@) < 0 by {
        assert(after[a] == before[a]);
        if b == before.len() {
            assert(in_diff_prefix(diff, before[a], i));
            let k = choose|k: int| 0 <= k < i && same_change(before[a], #[trigger] diff[k]);
            assert(lex_compare(diff[k].relative_path@, diff[i].relative_path@) < 0);
        } else {
            assert(after[b] == before[b]);
        }
    }
}

proof fn lemma_step_from(
    diff: Seq<InstanceUpgradeExternalChange>,
    before: Seq<InstanceUpgradeExternalChange>,
    after: Seq<InstanceUpgradeExternalChange>,
    i: int,
    keep: bool,
)
    requires
        filter_step(diff, before, after, i, keep),
        from_diff_prefix(diff, before, i),
    ensures
        from_diff_prefix(diff, after, i + 1),
{
    lemma_step_prefix(diff, before, after, i, keep);
    assert forall|a: int| 0 <= a < after.len() implies in_diff_prefix(diff, #[trigger] after[a], i + 1) by {
        if a < before.len() {
            assert(in_diff_prefix(diff, before[a], i));
            let k = choose|k: int| 0 <= k < i && same_change(before[a], #[trigger] diff[k]);
            assert(0 <= k < i + 1 && same_change(after[a], diff[k]));
        } else {
            assert(0 <= i < i + 1 && same_change(after[a], diff[i]));
        }
    }
}

proof fn lemma_step_kept(
    current: Seq<InstanceUpgradeSourceFile>,
    expected: Seq<(String, Option<InstanceUpgradeSourceFile>)>,
    diff: Seq<InstanceUpgradeExternalChange>,
    before: Seq<InstanceUpgradeExternalChange>,
    after: Seq<InstanceUpgradeExternalChange>,
    i: int,
    keep: bool,
)
    requires
        filter_step(diff, before, after, i, keep),
        keep == external_change_kept(current, expected, diff[i].relative_path@),
        all_kept(current, expected, before),
    ensures
        all_kept(current, expected, after),
{
    lemma_step_prefix(diff, before, after, i, keep);
    assert forall|a: int| 0 <= a < after.len() implies external_change_kept(current, expected, #[trigger] after[a].relative_path@) by {
        if a < before.len() {
            assert(after[a] == before[a]);
            assert(external_change_kept(current, expected, before[a].relative_path@));
        } else {
            assert(keep && after[a] == diff[i]);
            assert(external_change_kept(current, expected, diff[i].relative_path@));
        }
    }
}

proof fn lemma_step_complete(
    current: Seq<InstanceUpgradeSourceFile>,
    expected: Seq<(String, Option<InstanceUpgradeSourceFile>)>,
    diff: Seq<InstanceUpgradeExternalChange>,
    before: Seq<InstanceUpgradeExternalChange>,
    after: Seq<InstanceUpgradeExternalChange>,
    i: int,
    keep: bool,
)
    requires
        filter_step(diff, before, after, i, keep),
        keep == external_change_kept(current, expected, diff[i].relative_path@),
        kept_prefix_in(current, expected, diff, before, i),
    ensures
        kept_prefix_in(current, expected, diff, after, i + 1),
{
    lemma_step_prefix(diff, before, after, i, keep);
    assert forall|k: int|
        0 <= k < i + 1 && external_change_kept(current, expected, #[trigger] diff[k].relative_path@)
            implies exists|a: int| 0 <= a < after.len() && same_change(after[a], diff[k]) by {
        if k < i {
            let a = choose|a: int| 0 <= a < before.len() && same_change(before[a], diff[k]);
            assert(after[a] == before[a]);
        } else {
            assert(same_change(after[before.len() as int], diff[k]));
        }
    }
}

proof fn lemma_filter_step(
    current: Seq<InstanceUpgradeSourceFile>,
    expected: Seq<(String, Option<InstanceUpgradeSourceFile>)>,
    diff: Seq<InstanceUpgradeExternalChange>,
    before: Seq<InstanceUpgradeExternalChange>,
    after: Seq<InstanceUpgradeExternalChange>,
    i: int,
    keep: bool,
)
    requires
        0 <= i < diff.len(),
        changes_strictly_sorted(diff),
        filter_prefix_ok(current, expected, diff, before, i),
        keep == external_change_kept(current, expected, diff[i].relative_path@),
        !keep ==> after == before,
        keep ==> after.len() == before.len() + 1 && after.drop_last() == before && after.last() == diff[i],
    ensures
        filter_prefix_ok(current, expected, diff, after, i + 1),
{
    reveal(filter_prefix_ok);
    assert(filter_step(diff, before, after, i, keep));
    lemma_step_sorted(diff, before, after, i, keep);
    lemma_step_from(diff, before, after, i, keep);
    lemma_step_kept(current, expected, diff, before, after, i, keep);
    lemma_step_complete(current, expected, diff, before, after, i, keep);
}

proof fn lemma_filter_done(
    source: Seq<InstanceUpgradeSourceFile>,
    current: Seq<InstanceUpgradeSourceFile>,
    expected: Seq<(String, Option<InstanceUpgradeSourceFile>)>,
    diff: Seq<InstanceUpgradeExternalChange>,
    r: Seq<InstanceUpgradeExternalChange>,
)
    requires
        forall|a: int|
            0 <= a < diff.len() ==> change_for(source, current, #[trigger] diff[a].relative_path@) == Some(diff[a].kind),
        forall|p: Seq<char>|
            #[trigger] change_for(source, current, p) is Some ==> exists|i: int|
                0 <= i < diff.len() && diff[i].relative_path@ == p,
        filter_prefix_ok(current, expected, diff, r, diff.len() as int),
    ensures
        forall|i: int|
            0 <= i < r.len() ==> change_for(source, current, #[trigger] r[i].relative_path@) == Some(r[i].kind)
                && external_change_kept(current, expected, r[i].relative_path@),
        forall|p: Seq<char>|
            #[trigger] change_for(source, current, p) is Some && external_change_kept(current, expected, p)
                ==> exists|i: int| 0 <= i < r.len() && r[i].relative_path@ == p,
{
    reveal(filter_prefix_ok);
    assert forall|a: int| 0 <= a < r.len() implies change_for(source, current, #[trigger] r[a].relative_path@) == Some(r[a].kind)
        && external_change_kept(current, expected, r[a].relative_path@) by {
        assert(in_diff_prefix(diff, r[a], diff.len() as int));
        let k = choose|k: int| 0 <= k < diff.len() && same_change(r[a], #[trigger] diff[k]);
    }
    assert forall|p: Seq<char>|
        #[trigger] change_for(source, current, p) is Some && external_change_kept(current, expected, p)
            implies exists|i: int| 0 <= i < r.len() && r[i].relative_path@ == p by {
        let k = choose|k: int| 0 <= k < diff.len() && diff[k].relative_path@ == p;
        assert(external_change_kept(current, expected, diff[k].relative_path@));
        let a = choose|a: int| 0 <= a < r.len() && same_change(r[a], diff[k]);
    }
}

/// The external changes at the end of an upgrade: the changes between the recorded and
/// current files, less those the launcher made itself.
#[verifier::spinoff_prover]
pub fn final_upgrade_external_changes(
    source_files: &[InstanceUpgradeSourceFile],
    current_files: &[InstanceUpgradeSourceFile],
    launcher_expected_files: &[(String, Option<InstanceUpgradeSourceFile>)],
) -> (r: Vec<InstanceUpgradeExternalChange>)
    ensures
        changes_strictly_sorted(r@),
        forall|i: int|
            0 <= i < r@.len() ==> change_for(source_files@, current_files@, #[trigger] r@[i].relative_path@)
                == Some(r@[i].kind) && external_change_kept(current_files@, launcher_expected_files@, r@[i].relative_path@),
        forall|p: Seq<char>|
            #[trigger] change_for(source_files@, current_files@, p) is Some && external_change_kept(
                current_files@,
                launcher_expected_files@,
                p,
            ) ==> exists|i: int| 0 <= i < r@.len() && r@[i].relative_path@ == p,
{
    let diff = diff_upgrade_source_files(source_files, current_files);
    let mut r: Vec<InstanceUpgradeExternalChange> = Vec::new();
    let mut i: usize = 0;
    proof {
        reveal(filter_prefix_ok);
    }
    while i < diff.len()
        invariant
            i <= diff.len(),
            changes_strictly_sorted(diff@),
            filter_prefix_ok(current_files@, launcher_expected_files@, diff@, r@, i as int),
        decreases diff.len() - i,
    {
        let ghost before = r@;
        let keep = keeps_external_change(current_files, launcher_expected_files, &diff[i].relative_path);
        if keep {
            r.push(InstanceUpgradeExternalChange { relative_path: diff[i].relative_path.clone(), kind: diff[i].kind });
            proof {
                assert(r@.drop_last() =~= before);
            }
        }
        proof {
            lemma_filter_step(current_files@, launcher_expected_files@, diff@, before, r@, i as int, keep);
        }
        i = i + 1;
    }
    proof {
        lemma_filter_done(source_files@, current_files@, launcher_expected_files@, diff@, r@);
    }
    r
}

/// A change as plain values.
pub open spec fn change_view(c: InstanceUpgradeExternalChange) -> (Seq<char>, InstanceUpgradeExternalChangeKind) {
    (c.relative_path@, c.kind)
}

/// Changes as plain values.
pub open spec fn change_views(v: Seq<InstanceUpgradeExternalChange>) -> Seq<(Seq<char>, InstanceUpgradeExternalChangeKind)> {
    v.map_values(|c: InstanceUpgradeExternalChange| change_view(c))
}

/// Index of the first change at `path`, or `-1`.
pub open spec fn change_position(v: Seq<(Seq<char>, InstanceUpgradeExternalChangeKind)>, path: Seq<char>) -> int
    decreases v.len(),
{
    if v.len() == 0 {
        -1
    } else if change_position(v.drop_last(), path) >= 0 {
        change_position(v.drop_last(), path)
    } else if v.last().0 == path {
        v.len() - 1
    } else {
        -1
    }
}

/// One more change: it replaces the kind of the first change at its path, or is added.
pub open spec fn merge_one(
    v: Seq<(Seq<char>, InstanceUpgradeExternalChangeKind)>,
    c: (Seq<char>, InstanceUpgradeExternalChangeKind),
) -> Seq<(Seq<char>, InstanceUpgradeExternalChangeKind)> {
    let k = change_position(v, c.0);
    if k >= 0 {
        v.update(k, (v[k].0, c.1))
    } else {
        v.push(c)
    }
}

/// The changes with the additional ones merged in, in turn.
pub open spec fn merge_all(
    v: Seq<(Seq<char>, InstanceUpgradeExternalChangeKind)>,
    additional: Seq<(Seq<char>, InstanceUpgradeExternalChangeKind)>,
) -> Seq<(Seq<char>, InstanceUpgradeExternalChangeKind)>
    decreases additional.len(),
{
    if additional.len() == 0 {
        v
    } else {
        merge_one(merge_all(v, additional.drop_last()), additional.last())
    }
}

/// The changes are ordered by path (equal paths allowed).
pub open spec fn sorted_by_path(v: Seq<(Seq<char>, InstanceUpgradeExternalChangeKind)>) -> bool {
    forall|i: int, j: int| 0 <= i < j < v.len() ==> lex_compare(#[trigger] v[i].0, #[trigger] v[j].0) <= 0
}

proof fn lemma_change_position(v: Seq<(Seq<char>, InstanceUpgradeExternalChangeKind)>, path: Seq<char>, n: int)
    requires
        0 <= n <= v.len(),
    ensures
        change_position(v.take(n), path) >= 0 ==> change_position(v, path) == change_position(v.take(n), path),
        -1 <= change_position(v, path) < v.len(),
        change_position(v, path) >= 0 ==> v[change_position(v, path)].0 == path,
    decreases v.len() - n,
{
    if n < v.len() {
        assert(v.take(n + 1).drop_last() =~= v.take(n));
        lemma_change_position(v, path, n + 1);
    } else {
        assert(v.take(n) =~= v);
        lemma_change_position_bounds(v, path);
    }
}

proof fn lemma_change_position_bounds(v: Seq<(Seq<char>, InstanceUpgradeExternalChangeKind)>, path: Seq<char>)
    ensures
        -1 <= change_position(v, path) < v.len(),
        change_position(v, path) >= 0 ==> v[change_position(v, path)].0 == path,
    decreases v.len(),
{
    if v.len() > 0 {
        lemma_change_position_bounds(v.drop_last(), path);
    }
}

/// Merges one change into the list.
fn merge_change(changes: &mut Vec<InstanceUpgradeExternalChange>, change: InstanceUpgradeExternalChange)
    ensures
        change_views(final(changes)@) == merge_one(change_views(old(changes)@), change_view(change)),
{
    let ghost views = change_views(changes@);
    proof {
        lemma_change_position_bounds(views, change.relative_path@);
    }
    let mut i: usize = 0;
    while i < changes.len()
        invariant
            i <= changes.len(),
            changes@ == old(changes)@,
            views == change_views(changes@),
            change_position(views.take(i as int), change.relative_path@) == -1,
        decreases changes.len() - i,
    {
        assert(views.take(i + 1).drop_last() =~= views.take(i as int));
        if str_eq(changes[i].relative_path.as_str(), change.relative_path.as_str()) {
            proof {
                assert(views.take(i + 1).last() == views[i as int]);
                lemma_change_position(views, change.relative_path@, i + 1);
            }
            let existing = changes.remove(i);
            let updated = InstanceUpgradeExternalChange { relative_path: existing.relative_path, kind: change.kind };
            changes.insert(i, updated);
            proof {
                assert(changes@ =~= old(changes)@.update(i as int, updated));
                assert(change_views(changes@) =~= views.update(i as int, (views[i as int].0, change.kind)));
            }
            return;
        }
        i = i + 1;
    }
    proof {
        assert(views.take(changes.len() as int) =~= views);
    }
    changes.push(change);
    proof {
        assert(change_views(changes@) =~= views.push(change_view(change)));
    }
}

/// Inserts a change after every change whose path is not greater.
#[verifier::spinoff_prover]
fn insert_by_path(sorted: &mut Vec<InstanceUpgradeExternalChange>, change: InstanceUpgradeExternalChange)
    requires
        sorted_by_path(change_views(old(sorted)@)),
    ensures
        sorted_by_path(change_views(final(sorted)@)),
        change_views(final(sorted)@).to_multiset() == change_views(old(sorted)@).to_multiset().insert(change_view(change)),
        exists|k: int| 0 <= k <= old(sorted)@.len() && final(sorted)@ == old(sorted)@.insert(k, change),
{
    let pc = chars_of(change.relative_path.as_str());
    let mut k: usize = 0;
    while k < sorted.len()
        invariant
            k <= sorted.len(),
            pc@ == change.relative_path@,
            sorted@ == old(sorted)@,
            forall|j: int| 0 <= j < k ==> lex_compare(#[trigger] sorted@[j].relative_path@, change.relative_path@) <= 0,
        ensures
            k <= sorted.len(),
            sorted@ == old(sorted)@,
            forall|j: int| 0 <= j < k ==> lex_compare(#[trigger] sorted@[j].relative_path@, change.relative_path@) <= 0,
            k < sorted.len() ==> lex_compare(sorted@[k as int].relative_path@, change.relative_path@) > 0,
        decreases sorted.len() - k,
    {
        let qc = chars_of(sorted[k].relative_path.as_str());
        let c = lex_compare_exec(&qc, &pc);
        if c > 0 {
            break;
        }
        k = k + 1;
    }
    let ghost before = sorted@;
    sorted.insert(k, change);
    proof {
        let bv = change_views(before);
        let av = change_views(sorted@);
        assert(av =~= bv.insert(k as int, change_view(change)));
        vstd::seq_lib::to_multiset_insert(bv, k as int, change_view(change));
        assert forall|i: int, j: int| 0 <= i < j < av.len() implies lex_compare(#[trigger] av[i].0, #[trigger] av[j].0) <= 0 by {
            if j < k {
                assert(av[i] == bv[i] && av[j] == bv[j]);
            } else if j == k {
                assert(av[i] == bv[i]);
            } else if i == k {
                assert(av[j] == bv[j - 1]);
                lemma_lex_compare_antisymmetric(bv[k as int].0, change.relative_path@);
                if j - 1 > k {
                    lemma_lex_compare_transitive(change.relative_path@, bv[k as int].0, bv[j - 1].0);
                }
            } else if i < k {
                assert(av[i] == bv[i]);
                assert(av[j] == bv[j - 1]);
                lemma_lex_compare_antisymmetric(bv[k as int].0, change.relative_path@);
                lemma_lex_compare_transitive(bv[i].0, change.relative_path@, bv[k as int].0);
                if j - 1 > k {
                    lemma_lex_compare_transitive(bv[i].0, bv[k as int].0, bv[j - 1].0);
                }
            } else {
                assert(av[i] == bv[i - 1]);
                assert(av[j] == bv[j - 1]);
            }
        }
    }
}

/// No two changes share a path.
pub open spec fn paths_distinct(v: Seq<(Seq<char>, InstanceUpgradeExternalChangeKind)>) -> bool {
    forall|i: int, j: int| 0 <= i < j < v.len() ==> (#[trigger] v[i]).0 != (#[trigger] v[j]).0
}

proof fn lemma_change_position_absent(v: Seq<(Seq<char>, InstanceUpgradeExternalChangeKind)>, path: Seq<char>)
    requires
        change_position(v, path) < 0,
    ensures
        forall|i: int| 0 <= i < v.len() ==> (#[trigger] v[i]).0 != path,
    decreases v.len(),
{
    if v.len() > 0 {
        lemma_change_position_bounds(v.drop_last(), path);
        lemma_change_position_absent(v.drop_last(), path);
        assert forall|i: int| 0 <= i < v.len() implies (#[trigger] v[i]).0 != path by {
            if i < v.len() - 1 {
                assert(v.drop_last()[i] == v[i]);
            }
        }
    }
}

proof fn lemma_merge_all_distinct(
    v: Seq<(Seq<char>, InstanceUpgradeExternalChangeKind)>,
    additional: Seq<(Seq<char>, InstanceUpgradeExternalChangeKind)>,
)
    requires
        paths_distinct(v),
    ensures
        paths_distinct(merge_all(v, additional)),
    decreases additional.len(),
{
    if additional.len() > 0 {
        lemma_merge_all_distinct(v, additional.drop_last());
        let m = merge_all(v, additional.drop_last());
        let c = additional.last();
        lemma_change_position_bounds(m, c.0);
        let k = change_position(m, c.0);
        if k >= 0 {
            let r = m.update(k, (m[k].0, c.1));
            assert forall|i: int, j: int| 0 <= i < j < r.len() implies (#[trigger] r[i]).0 != (#[trigger] r[j]).0 by {
                assert(r[i].0 == m[i].0 && r[j].0 == m[j].0);
            }
        } else {
            lemma_change_position_absent(m, c.0);
            let r = m.push(c);
            assert forall|i: int, j: int| 0 <= i < j < r.len() implies (#[trigger] r[i]).0 != (#[trigger] r[j]).0 by {
                if j < m.len() {
                    assert(r[i] == m[i] && r[j] == m[j]);
                } else {
                    assert(r[i] == m[i]);
                }
            }
        }
    }
}

/// Merges changes noticed later into a list of external changes: a later change at a
/// listed path replaces its kind, any other is added; the list ends ordered by path.
#[verifier::spinoff_prover]
pub fn merge_upgrade_external_changes(
    changes: &mut Vec<InstanceUpgradeExternalChange>,
    additional: Vec<InstanceUpgradeExternalChange>,
)
    ensures
        sorted_by_path(change_views(final(changes)@)),
        change_views(final(changes)@).to_multiset() == merge_all(change_views(old(changes)@), change_views(additional@)).to_multiset(),
        paths_distinct(change_views(old(changes)@)) ==> changes_strictly_sorted(final(changes)@),
{
    let ghost add_views = change_views(additional@);
    let ghost start = change_views(changes@);
    for change in it: additional.into_iter()
        invariant
            it.seq() == additional@,
            add_views == change_views(additional@),
            change_views(changes@) == merge_all(start, add_views.take(it.index() as int)),
    {
        proof {
            assert(add_views.take(it.index() + 1).drop_last() =~= add_views.take(it.index() as int));
            assert(add_views.take(it.index() + 1).last() == change_view(change));
        }
        merge_change(changes, change);
    }
    proof {
        assert(add_views.take(add_views.len() as int) =~= add_views);
    }
    let ghost merged = change_views(changes@);
    proof {
        if paths_distinct(start) {
            lemma_merge_all_distinct(start, add_views);
        }
    }
    let mut unsorted: Vec<InstanceUpgradeExternalChange> = Vec::new();
    std::mem::swap(&mut unsorted, changes);
    let mut sorted: Vec<InstanceUpgradeExternalChange> = Vec::new();
    proof {
        assert(change_views(sorted@).to_multiset() =~= merged.take(0).to_multiset()) by {
            assert(change_views(sorted@) =~= merged.take(0));
        }
    }
    for change in it: unsorted.into_iter()
        invariant
            change_views(it.seq()) == merged,
            sorted_by_path(change_views(sorted@)),
            change_views(sorted@).to_multiset() == merged.take(it.index() as int).to_multiset(),
            paths_distinct(merged) ==> paths_distinct(change_views(sorted@)),
            it.index() <= merged.len(),
    {
        let ghost idx = it.index() as int;
        let ghost before = sorted@;
        let ghost cv = change_view(change);
        proof {
            assert(merged.take(idx + 1) =~= merged.take(idx).push(cv));
            vstd::seq_lib::to_multiset_build(merged.take(idx), cv);
            assert(merged[idx] == cv);
        }
        insert_by_path(&mut sorted, change);
        proof {
            if paths_distinct(merged) {
                let bv = change_views(before);
                assert forall|q: int| 0 <= q < bv.len() implies (#[trigger] bv[q]).0 != cv.0 by {
                    let x = bv[q];
                    assert(bv.contains(x));
                    vstd::seq_lib::to_multiset_contains(bv, x);
                    vstd::seq_lib::to_multiset_contains(merged.take(idx), x);
                    let j = choose|j: int| 0 <= j < merged.take(idx).len() && merged.take(idx)[j] == x;
                    assert(merged[j] == x);
                }
                let k = choose|k: int| 0 <= k <= before.len() && sorted@ == before.insert(k, change);
                let av = change_views(sorted@);
                assert(av =~= bv.insert(k, cv));
                assert forall|i: int, j: int| 0 <= i < j < av.len() implies (#[trigger] av[i]).0 != (#[trigger] av[j]).0 by {
                    if j < k {
                        assert(av[i] == bv[i] && av[j] == bv[j]);
                    } else if j == k {
                        assert(av[i] == bv[i]);
                    } else if i == k {
                        assert(av[j] == bv[j - 1]);
                    } else if i < k {
                        assert(av[i] == bv[i] && av[j] == bv[j - 1]);
                    } else {
                        assert(av[i] == bv[i - 1] && av[j] == bv[j - 1]);
                    }
                }
            }
        }
    }
    proof {
        assert(merged.take(merged.len() as int) =~= merged);
        if paths_distinct(start) {
            let fv = change_views(sorted@);
            assert forall|i: int, j: int| 0 <= i < j < sorted@.len() implies lex_compare(
                #[trigger] sorted@[i].relative_path@,
                #[trigger] sorted@[j].relative_path@,
            ) < 0 by {
                assert(fv[i].0 == sorted@[i].relative_path@ && fv[j].0 == sorted@[j].relative_path@);
                assert(lex_compare(fv[i].0, fv[j].0) <= 0);
                lemma_lex_compare_zero(fv[i].0, fv[j].0);
            }
        }
    }
    *changes = sorted;
}


/// The kind of the last change at `path` among `changes`, if one is there.
pub open spec fn last_kind(
    changes: Seq<(Seq<char>, InstanceUpgradeExternalChangeKind)>,
    path: Seq<char>,
) -> Option<InstanceUpgradeExternalChangeKind>
    decreases changes.len(),
{
    if changes.len() == 0 {
        None
    } else if changes.last().0 == path {
        Some(changes.last().1)
    } else {
        last_kind(changes.drop_last(), path)
    }
}

/// A change after the changes `a`: the kind of the last of them at its path, if any.
pub open spec fn kind_after(
    a: Seq<(Seq<char>, InstanceUpgradeExternalChangeKind)>,
    x: (Seq<char>, InstanceUpgradeExternalChangeKind),
) -> (Seq<char>, InstanceUpgradeExternalChangeKind) {
    match last_kind(a, x.0) {
        Some(k) => (x.0, k),
        None => x,
    }
}

proof fn lemma_last_kind_present(a: Seq<(Seq<char>, InstanceUpgradeExternalChangeKind)>, j: int)
    requires
        0 <= j < a.len(),
    ensures
        last_kind(a, a[j].0) is Some,
    decreases a.len(),
{
    if a.last().0 != a[j].0 {
        assert(j < a.len() - 1);
        assert(a.drop_last()[j] == a[j]);
        lemma_last_kind_present(a.drop_last(), j);
    }
}

proof fn lemma_position_in_distinct(
    w: Seq<(Seq<char>, InstanceUpgradeExternalChangeKind)>,
    q: int,
)
    requires
        paths_distinct(w),
        0 <= q < w.len(),
    ensures
        change_position(w, w[q].0) == q,
{
    lemma_change_position_bounds(w, w[q].0);
    if change_position(w, w[q].0) < 0 {
        lemma_change_position_absent(w, w[q].0);
        assert(w[q].0 != w[q].0);
    }
    let c = change_position(w, w[q].0);
    if c != q {
        if c < q {
            assert(w[c].0 != w[q].0);
        } else {
            assert(w[q].0 != w[c].0);
        }
    }
}

proof fn lemma_merge_covered(
    w: Seq<(Seq<char>, InstanceUpgradeExternalChangeKind)>,
    a: Seq<(Seq<char>, InstanceUpgradeExternalChangeKind)>,
)
    requires
        paths_distinct(w),
        forall|j: int| 0 <= j < a.len() ==> exists|i: int| 0 <= i < w.len() && #[trigger] w[i].0 == #[trigger] a[j].0,
    ensures
        merge_all(w, a).len() == w.len(),
        forall|i: int| 0 <= i < w.len() ==> #[trigger] merge_all(w, a)[i] == kind_after(a, w[i]),
    decreases a.len(),
{
    if a.len() > 0 {
        let a2 = a.drop_last();
        assert forall|j: int| 0 <= j < a2.len() implies exists|i: int| 0 <= i < w.len() && #[trigger] w[i].0
            == #[trigger] a2[j].0 by {
            assert(a2[j] == a[j]);
            let i = choose|i: int| 0 <= i < w.len() && #[trigger] w[i].0 == #[trigger] a[j].0;
            assert(w[i].0 == a2[j].0);
        }
        lemma_merge_covered(w, a2);
        let m = merge_all(w, a2);
        let c = a.last();
        assert(a[a.len() - 1] == c);
        let q = choose|i: int| 0 <= i < w.len() && #[trigger] w[i].0 == #[trigger] a[a.len() - 1].0;
        assert(m[q] == kind_after(a2, w[q]));
        assert forall|i: int, j: int| 0 <= i < j < m.len() implies (#[trigger] m[i]).0 != (#[trigger] m[j]).0 by {
            assert(m[i] == kind_after(a2, w[i]));
            assert(m[j] == kind_after(a2, w[j]));
        }
        lemma_position_in_distinct(m, q);
        assert(m[q].0 == c.0);
        assert forall|i: int| 0 <= i < w.len() implies #[trigger] merge_all(w, a)[i] == kind_after(a, w[i]) by {
            assert(m[i] == kind_after(a2, w[i]));
            if i != q {
                if i < q {
                    assert(w[i].0 != w[q].0);
                } else {
                    assert(w[q].0 != w[i].0);
                }
            }
        }
    }
}

/// The kinds after a merge: when the listed changes have distinct paths, the merged
/// list holds a change exactly when the last additional change at its path has its
/// kind, or when no additional change is at its path and the list held it already.
/// So each path of the additional changes is there with the kind of the last of them,
/// and every other change is kept as it was.
pub proof fn law_merge_kinds(
    v: Seq<(Seq<char>, InstanceUpgradeExternalChangeKind)>,
    a: Seq<(Seq<char>, InstanceUpgradeExternalChangeKind)>,
)
    requires
        paths_distinct(v),
    ensures
        paths_distinct(merge_all(v, a)),
        forall|x: (Seq<char>, InstanceUpgradeExternalChangeKind)|
            #[trigger] merge_all(v, a).contains(x) <==> (last_kind(a, x.0) == Some(x.1) || (last_kind(a, x.0) is None
                && v.contains(x))),
    decreases a.len(),
{
    lemma_merge_all_distinct(v, a);
    if a.len() > 0 {
        let a2 = a.drop_last();
        law_merge_kinds(v, a2);
        let m = merge_all(v, a2);
        let c = a.last();
        lemma_change_position_bounds(m, c.0);
        let k = change_position(m, c.0);
        let r = merge_all(v, a);
        if k >= 0 {
            assert(r == m.update(k, (m[k].0, c.1)));
            assert forall|x: (Seq<char>, InstanceUpgradeExternalChangeKind)| #[trigger] r.contains(x) <==> (
            last_kind(a, x.0) == Some(x.1) || (last_kind(a, x.0) is None && v.contains(x))) by {
                if r.contains(x) {
                    let i = choose|i: int| 0 <= i < r.len() && r[i] == x;
                    if i != k {
                        assert(m[i] == x);
                        assert(m.contains(x));
                        if x.0 == c.0 {
                            if i < k {
                                assert(m[i].0 != m[k].0);
                            } else {
                                assert(m[k].0 != m[i].0);
                            }
                        }
                    }
                }
                if last_kind(a, x.0) == Some(x.1) || (last_kind(a, x.0) is None && v.contains(x)) {
                    if x.0 == c.0 {
                        assert(x == (m[k].0, c.1));
                        assert(r[k] == x);
                    } else {
                        assert(m.contains(x));
                        let i = choose|i: int| 0 <= i < m.len() && m[i] == x;
                        assert(i != k);
                        assert(r[i] == x);
                    }
                }
            }
        } else {
            lemma_change_position_absent(m, c.0);
            assert(r == m.push(c));
            assert forall|x: (Seq<char>, InstanceUpgradeExternalChangeKind)| #[trigger] r.contains(x) <==> (
            last_kind(a, x.0) == Some(x.1) || (last_kind(a, x.0) is None && v.contains(x))) by {
                if r.contains(x) {
                    let i = choose|i: int| 0 <= i < r.len() && r[i] == x;
                    if i < m.len() {
                        assert(m[i] == x);
                        assert(m.contains(x));
                    }
                }
                if last_kind(a, x.0) == Some(x.1) || (last_kind(a, x.0) is None && v.contains(x)) {
                    if x.0 == c.0 {
                        assert(r[m.len() as int] == x);
                    } else {
                        assert(m.contains(x));
                        let i = choose|i: int| 0 <= i < m.len() && m[i] == x;
                        assert(r[i] == x);
                    }
                }
            }
        }
    }
}

/// What a merge leaves, by membership: when the listed changes had distinct paths, the
/// list a merge leaves (holding the merged changes) holds a change exactly when the last
/// additional change at its path has its kind, or when no additional change is at its
/// path and the old list held it.
pub proof fn law_merged_list_kinds(
    old_changes: Seq<InstanceUpgradeExternalChange>,
    additional: Seq<InstanceUpgradeExternalChange>,
    merged: Seq<InstanceUpgradeExternalChange>,
)
    requires
        paths_distinct(change_views(old_changes)),
        change_views(merged).to_multiset() == merge_all(change_views(old_changes), change_views(additional)).to_multiset(),
    ensures
        forall|x: (Seq<char>, InstanceUpgradeExternalChangeKind)|
            #[trigger] change_views(merged).contains(x) <==> (last_kind(change_views(additional), x.0) == Some(x.1) || (
            last_kind(change_views(additional), x.0) is None && change_views(old_changes).contains(x))),
{
    broadcast use vstd::seq_lib::group_to_multiset_ensures;

    let m = merge_all(change_views(old_changes), change_views(additional));
    law_merge_kinds(change_views(old_changes), change_views(additional));
    assert forall|x: (Seq<char>, InstanceUpgradeExternalChangeKind)| #[trigger] change_views(merged).contains(x)
        <==> m.contains(x) by {
        assert(change_views(merged).to_multiset().count(x) == m.to_multiset().count(x));
    }
}

/// Merging the same changes a second time changes nothing: when the listed changes
/// had distinct paths, the list a merge leaves (ordered strictly by path, holding the
/// merged changes) stays as it is when the same additional changes are merged into it
/// again.
pub proof fn law_merge_again_changes_nothing(
    old_changes: Seq<InstanceUpgradeExternalChange>,
    additional: Seq<InstanceUpgradeExternalChange>,
    merged: Seq<InstanceUpgradeExternalChange>,
)
    requires
        paths_distinct(change_views(old_changes)),
        change_views(merged).to_multiset() == merge_all(change_views(old_changes), change_views(additional)).to_multiset(),
        changes_strictly_sorted(merged),
    ensures
        merge_all(change_views(merged), change_views(additional)) == change_views(merged),
{
    broadcast use vstd::seq_lib::group_to_multiset_ensures;

    let v = change_views(old_changes);
    let a = change_views(additional);
    let w = change_views(merged);
    let m = merge_all(v, a);
    law_merge_kinds(v, a);
    assert forall|i: int, j: int| 0 <= i < j < w.len() implies (#[trigger] w[i]).0 != (#[trigger] w[j]).0 by {
        assert(w[i].0 == merged[i].relative_path@ && w[j].0 == merged[j].relative_path@);
        lemma_lex_compare_zero(w[i].0, w[j].0);
    }
    assert forall|j: int| 0 <= j < a.len() implies exists|i: int| 0 <= i < w.len() && #[trigger] w[i].0
        == #[trigger] a[j].0 by {
        lemma_last_kind_present(a, j);
        let k = last_kind(a, a[j].0).unwrap();
        let x = (a[j].0, k);
        assert(m.contains(x));
        assert(m.to_multiset().count(x) > 0);
        assert(w.contains(x));
        let i = choose|i: int| 0 <= i < w.len() && w[i] == x;
        assert(w[i].0 == a[j].0);
    }
    lemma_merge_covered(w, a);
    assert forall|i: int| 0 <= i < w.len() implies #[trigger] merge_all(w, a)[i] == w[i] by {
        assert(w.contains(w[i]));
        assert(w.to_multiset().count(w[i]) > 0);
        assert(m.contains(w[i]));
    }
    assert(merge_all(w, a) =~= w);
}

/// The content folders in which an upgrade leaves linked entries alone.
pub open spec fn is_content_folder(segment: Seq<char>) -> bool {
    segment == "mods"@ || segment == "resourcepacks"@ || segment == "shaderpacks"@ || segment == "datapacks"@
}

/// A path with its backslashes turned into forward slashes.
pub open spec fn forward_slashes(s: Seq<char>) -> Seq<char> {
    s.map_values(|c: char| if c == '\\' { '/' } else { c })
}

/// The first `/`-separated segment of a path.
pub open spec fn first_segment(s: Seq<char>) -> Seq<char> {
    let k = crate::text::index_of_from(s, '/', 0);
    if k < 0 {
        s
    } else {
        s.take(k)
    }
}

/// A linked entry is unsafe to touch when its path (with forward slashes) lies in a
/// content folder.
pub open spec fn unsafe_linked_path(p: Seq<char>) -> bool {
    is_content_folder(first_segment(p))
}

/// The path with forward slashes.
fn forward_slash_string(s: &str) -> (r: String)
    ensures
        r@ == forward_slashes(s@),
{
    let chars = chars_of(s);
    let mut r = String::new();
    let mut i: usize = 0;
    while i < chars.len()
        invariant
            i <= chars.len(),
            chars@ == s@,
            r@ == forward_slashes(chars@.take(i as int)),
        decreases chars.len() - i,
    {
        let c = chars[i];
        crate::text::push_char(&mut r, if c == '\\' { '/' } else { c });
        assert(forward_slashes(chars@.take(i + 1)) =~= forward_slashes(chars@.take(i as int)).push(
            if c == '\\' { '/' } else { c },
        ));
        i = i + 1;
    }
    assert(chars@.take(chars.len() as int) =~= chars@);
    r
}

/// Whether a path (with forward slashes) lies in a content folder.
fn in_content_folder(p: &str) -> (r: bool)
    ensures
        r == unsafe_linked_path(p@),
{
    let chars = chars_of(p);
    proof {
        crate::text::lemma_index_of_from(chars@, '/', 0);
    }
    let segment = match crate::text::find_char_from(&chars, '/', 0) {
        Some(k) => crate::text::string_from_chars(&chars, 0, k),
        None => crate::text::string_from_chars(&chars, 0, chars.len()),
    };
    proof {
        assert(chars@.subrange(0, chars@.len() as int) =~= chars@);
    }
    let seg = segment.as_str();
    str_eq(seg, "mods") || str_eq(seg, "resourcepacks") || str_eq(seg, "shaderpacks") || str_eq(seg, "datapacks")
}

/// The paths, relative to the instance, of its linked entries (symbolic links and
/// reparse points) that an upgrade must not touch: those in a content folder, with
/// forward slashes, sorted, each once.
pub fn unsafe_upgrade_paths(linked_paths: &Vec<String>) -> (r: Vec<String>)
    ensures
        strictly_sorted(r@),
        forall|p: Seq<char>| #[trigger] text_set(r@).contains(p) <==> exists|i: int|
            0 <= i < linked_paths@.len() && p == forward_slashes(linked_paths@[i]@) && unsafe_linked_path(p),
{
    let mut out: Vec<String> = Vec::new();
    let mut i: usize = 0;
    proof {
        assert(text_set(out@) =~= Set::empty());
    }
    while i < linked_paths.len()
        invariant
            i <= linked_paths.len(),
            strictly_sorted(out@),
            forall|p: Seq<char>| #[trigger] text_set(out@).contains(p) <==> exists|j: int|
                0 <= j < i && p == forward_slashes(linked_paths@[j]@) && unsafe_linked_path(p),
        decreases linked_paths.len() - i,
    {
        let normalized = forward_slash_string(linked_paths[i].as_str());
        let ghost before = text_set(out@);
        let ghost n = normalized@;
        if in_content_folder(normalized.as_str()) {
            insert_sorted_unique(&mut out, normalized);
            assert forall|p: Seq<char>| #[trigger] text_set(out@).contains(p) <==> exists|j: int|
                0 <= j < i + 1 && p == forward_slashes(linked_paths@[j]@) && unsafe_linked_path(p) by {
                if p == n {
                    assert(0 <= i < i + 1 && p == forward_slashes(linked_paths@[i as int]@) && unsafe_linked_path(p));
                }
                if exists|j: int| 0 <= j < i + 1 && p == forward_slashes(linked_paths@[j]@) && unsafe_linked_path(p) {
                    let j = choose|j: int| 0 <= j < i + 1 && p == forward_slashes(linked_paths@[j]@) && unsafe_linked_path(p);
                    if j < i {
                        assert(before.contains(p));
                    }
                }
            }
        } else {
            assert forall|p: Seq<char>| #[trigger] text_set(out@).contains(p) <==> exists|j: int|
                0 <= j < i + 1 && p == forward_slashes(linked_paths@[j]@) && unsafe_linked_path(p) by {
                if exists|j: int| 0 <= j < i + 1 && p == forward_slashes(linked_paths@[j]@) && unsafe_linked_path(p) {
                    let j = choose|j: int| 0 <= j < i + 1 && p == forward_slashes(linked_paths@[j]@) && unsafe_linked_path(p);
                    if j < i {
                        assert(before.contains(p));
                    }
                }
                if text_set(out@).contains(p) {
                    let j = choose|j: int| 0 <= j < i && p == forward_slashes(linked_paths@[j]@) && unsafe_linked_path(p);
                    assert(0 <= j < i + 1);
                }
            }
        }
        i = i + 1;
    }
    out
}

/// The record of a file as an upgrade sees it: a file whose name ends in `.disabled`
/// is disabled.
pub fn upgrade_source_file(relative_path: &str, sha1: String, size: u64) -> (r: InstanceUpgradeSourceFile)
    ensures
        r.relative_path@ == relative_path@,
        r.sha1 == sha1,
        r.size == size,
        r.enabled == !crate::text::ends_with_spec(relative_path@, ".disabled"@),
{
    InstanceUpgradeSourceFile {
        relative_path: to_owned_string(relative_path),
        sha1,
        size,
        enabled: !crate::text::str_ends_with(relative_path, ".disabled"),
    }
}

/// Records what the launcher itself left after changing a file: nothing at its old path
/// when it moved, and `current` at its final path.
pub fn record_launcher_expected_file(
    expected: &mut Vec<(String, Option<InstanceUpgradeSourceFile>)>,
    original_path: &str,
    final_path: &str,
    current: Option<InstanceUpgradeSourceFile>,
)
    ensures
        expected_at(final(expected)@, final_path@) == Some(current),
        original_path@ != final_path@ ==> expected_at(final(expected)@, original_path@) == Some(
            None::<InstanceUpgradeSourceFile>,
        ),
        forall|p: Seq<char>|
            p != original_path@ && p != final_path@ ==> #[trigger] expected_at(final(expected)@, p)
                == expected_at(old(expected)@, p),
{
    if !str_eq(original_path, final_path) {
        expected.push((to_owned_string(original_path), None));
    }
    let ghost mid = expected@;
    expected.push((to_owned_string(final_path), current));
    proof {
        assert(expected@.drop_last() == mid);
        if original_path@ != final_path@ {
            assert(mid.drop_last() == old(expected)@);
            assert(expected_at(expected@, original_path@) == expected_at(mid, original_path@));
        } else {
            assert(mid == old(expected)@);
        }
        assert forall|p: Seq<char>|
            p != original_path@ && p != final_path@ implies #[trigger] expected_at(expected@, p) == expected_at(
                old(expected)@,
                p,
            ) by {
            assert(expected_at(expected@, p) == expected_at(mid, p));
            if original_path@ != final_path@ {
                assert(expected_at(mid, p) == expected_at(mid.drop_last(), p));
            }
        }
    }
}

} // verus!
