//! CurseForge lookups: download addresses, file names, class ids and categories.
use vstd::prelude::*;

use crate::cache::ProjectType;
use crate::error::{input_error, ErrorKind};
use crate::text::{chars_of, trim_spec, trim_string};

verus! {

/// The download address CurseForge gave, trimmed, or nothing when it is blank.
pub open spec fn normalized_download_url_spec(url: Option<Seq<char>>) -> Option<Seq<char>> {
    match url {
        Some(u) => if trim_spec(u).len() == 0 {
            None
        } else {
            Some(trim_spec(u))
        },
        None => None,
    }
}

/// The view of an optional string.
pub open spec fn opt_view(s: Option<String>) -> Option<Seq<char>> {
    match s {
        Some(v) => Some(v@),
        None => None,
    }
}

/// Trims a download address and drops it when nothing is left.
pub fn normalized_download_url(url: Option<String>) -> (r: Option<String>)
    ensures
        opt_view(r) == normalized_download_url_spec(opt_view(url)),
{
    match url {
        Some(u) => {
            let t = trim_string(u.as_str());
            if t.as_str().is_empty() {
                None
            } else {
                Some(t)
            }
        },
        None => None,
    }
}

/// Where the address of a CurseForge file comes from.
#[derive(Debug)]
pub enum DownloadUrlPlan {
    /// The author forbids third-party downloads and nothing bypasses that.
    Withheld,
    /// The file record carries a usable address.
    Direct(String),
    /// The address is built from the file id and name.
    Derived,
    /// The address is asked of the CurseForge API.
    Lookup,
}

/// Decides how the download address of a file is found: a withheld file has none unless
/// restrictions are bypassed; otherwise the file's own address wins, then a derived one
/// (when bypassing), then an API lookup.
pub fn download_url_plan(
    bypass_restrictions: bool,
    allow_mod_distribution: Option<bool>,
    download_url: Option<String>,
) -> (p: DownloadUrlPlan)
    ensures
        (!bypass_restrictions && allow_mod_distribution == Some(false)) <==> p is Withheld,
        !(!bypass_restrictions && allow_mod_distribution == Some(false)) ==> match
            normalized_download_url_spec(opt_view(download_url)) {
            Some(u) => p matches DownloadUrlPlan::Direct(d) && d@ == u,
            None => if bypass_restrictions {
                p is Derived
            } else {
                p is Lookup
            },
        },
{
    if !bypass_restrictions && allow_mod_distribution == Some(false) {
        return DownloadUrlPlan::Withheld;
    }
    match normalized_download_url(download_url) {
        Some(u) => DownloadUrlPlan::Direct(u),
        None => if bypass_restrictions {
            DownloadUrlPlan::Derived
        } else {
            DownloadUrlPlan::Lookup
        },
    }
}

/// The launcher's loader slug for a CurseForge mod loader type.
pub open spec fn mod_loader_slug_spec(mod_loader_type: u32) -> Seq<char> {
    if mod_loader_type == 1 {
        "forge"@
    } else if mod_loader_type == 4 {
        "fabric"@
    } else if mod_loader_type == 5 {
        "quilt"@
    } else if mod_loader_type == 6 {
        "neoforge"@
    } else {
        "unknown"@
    }
}

/// Maps a CurseForge mod loader type to the launcher's loader slug.
pub fn mod_loader_to_slug(mod_loader_type: u32) -> (r: &'static str)
    ensures
        r@ == mod_loader_slug_spec(mod_loader_type),
{
    match mod_loader_type {
        1 => "forge",
        4 => "fabric",
        5 => "quilt",
        6 => "neoforge",
        _ => "unknown",
    }
}

/// The launcher's project type name for a CurseForge class id.
pub open spec fn class_project_type_spec(class_id: Option<u32>) -> Seq<char> {
    match class_id {
        Some(5) => "plugin"@,
        Some(6) => "mod"@,
        Some(12) => "resourcepack"@,
        Some(17) => "world"@,
        Some(6945) => "datapack"@,
        Some(4471) => "modpack"@,
        Some(6552) => "shader"@,
        _ => "mod"@,
    }
}

/// Maps a CurseForge class id to a project type name; unknown classes count as mods.
pub fn project_type_for_class(class_id: Option<u32>) -> (r: &'static str)
    ensures
        r@ == class_project_type_spec(class_id),
{
    match class_id {
        Some(5) => "plugin",
        Some(6) => "mod",
        Some(12) => "resourcepack",
        Some(17) => "world",
        Some(6945) => "datapack",
        Some(4471) => "modpack",
        Some(6552) => "shader",
        _ => "mod",
    }
}

/// The installable project type of a CurseForge class id, if the launcher installs it.
pub open spec fn recognized_project_type_spec(class_id: Option<u32>) -> Option<ProjectType> {
    match class_id {
        Some(6) => Some(ProjectType::Mod),
        Some(12) => Some(ProjectType::ResourcePack),
        Some(6552) => Some(ProjectType::ShaderPack),
        Some(6945) => Some(ProjectType::DataPack),
        Some(17) => Some(ProjectType::WorldSave),
        _ => None,
    }
}

/// The installable project type of a CurseForge class id, if the launcher installs it.
pub fn recognized_project_type(class_id: Option<u32>) -> (r: Option<ProjectType>)
    ensures
        r == recognized_project_type_spec(class_id),
{
    match class_id {
        Some(6) => Some(ProjectType::Mod),
        Some(12) => Some(ProjectType::ResourcePack),
        Some(6552) => Some(ProjectType::ShaderPack),
        Some(6945) => Some(ProjectType::DataPack),
        Some(17) => Some(ProjectType::WorldSave),
        _ => None,
    }
}

/// A path separator: `/`, or `\\` as Windows reads it.
pub open spec fn is_separator(c: char) -> bool {
    c == '/' || c == '\\'
}

/// Index of the first separator in `s` at or after `from`, or the length of `s`.
pub open spec fn separator_from(s: Seq<char>, from: int) -> int
    decreases s.len() - from,
{
    if from < 0 || from >= s.len() {
        s.len() as int
    } else if is_separator(s[from]) {
        from
    } else {
        separator_from(s, from + 1)
    }
}

/// End of the first segment of `s`: the index of its first separator, or its length.
pub open spec fn first_segment_end(s: Seq<char>) -> int {
    separator_from(s, 0)
}

/// The path `s`, read with `/` and `\\` as separators, has exactly one component and it is a
/// normal one: a first segment other than `""`, `"."` and `".."`, followed by nothing
/// but separators and `"."` segments (which paths ignore).
pub open spec fn is_single_normal_component(s: Seq<char>) -> bool {
    let k = first_segment_end(s);
    &&& 0 < k
    &&& s.take(k) != seq!['.']
    &&& s.take(k) != seq!['.', '.']
    &&& forall|i: int| k <= i < s.len() ==> #[trigger] ignorable_at(s, i)
}

/// Position `i` of `s` is a separator or a lone `.` segment.
pub open spec fn ignorable_at(s: Seq<char>, i: int) -> bool {
    is_separator(s[i]) || (s[i] == '.' && is_separator(s[i - 1]) && (i + 1 == s.len()
        || is_separator(s[i + 1])))
}

/// Index of the last `c` in `s`, or `-1`.
pub open spec fn last_index_of(s: Seq<char>, c: char) -> int
    decreases s.len(),
{
    if s.len() == 0 {
        -1
    } else if s.last() == c {
        s.len() - 1
    } else {
        last_index_of(s.drop_last(), c)
    }
}

/// The extension of a file name (`Path::extension`): what follows its last dot, unless
/// that dot is the first character or the name is `..`.
pub open spec fn extension_spec(name: Seq<char>) -> Option<Seq<char>> {
    let j = last_index_of(name, '.');
    if j <= 0 || name == seq!['.', '.'] {
        None
    } else {
        Some(name.subrange(j + 1, name.len() as int))
    }
}

/// `e` is `zip` in any ASCII case.
pub open spec fn is_zip_extension(e: Seq<char>) -> bool {
    &&& e.len() == 3
    &&& (e[0] == 'z' || e[0] == 'Z')
    &&& (e[1] == 'i' || e[1] == 'I')
    &&& (e[2] == 'p' || e[2] == 'P')
}

/// A world archive name: a valid file name whose extension is `zip`.
pub open spec fn is_world_archive_name(s: Seq<char>) -> bool {
    &&& is_single_normal_component(s)
    &&& extension_spec(s.take(first_segment_end(s))) matches Some(e) && is_zip_extension(e)
}

/// What `last_index_of` finds.
pub proof fn lemma_last_index_of(s: Seq<char>, c: char)
    ensures
        -1 <= last_index_of(s, c) < s.len(),
        last_index_of(s, c) >= 0 ==> s[last_index_of(s, c)] == c,
        forall|i: int| last_index_of(s, c) < i < s.len() ==> s[i] != c,
    decreases s.len(),
{
    if s.len() > 0 && s.last() != c {
        lemma_last_index_of(s.drop_last(), c);
        assert forall|i: int| last_index_of(s, c) < i < s.len() implies s[i] != c by {
            if i < s.len() - 1 {
                assert(s.drop_last()[i] == s[i]);
            }
        }
    }
}

/// Index of the last `c` in `chars[..to]`.
pub fn find_last_char(chars: &Vec<char>, c: char, to: usize) -> (r: Option<usize>)
    requires
        to <= chars.len(),
    ensures
        r matches Some(j) ==> j as int == last_index_of(chars@.take(to as int), c),
        r is None ==> last_index_of(chars@.take(to as int), c) == -1,
{
    let mut j = to;
    while j > 0
        invariant
            j <= to <= chars.len(),
            last_index_of(chars@.take(to as int), c) == last_index_of(chars@.take(j as int), c),
        decreases j,
    {
        assert(chars@.take(j as int).drop_last() =~= chars@.take(j - 1));
        if chars[j - 1] == c {
            return Some(j - 1);
        }
        j = j - 1;
    }
    None
}

/// The end of the first segment of `chars`.
fn first_segment_end_of(chars: &Vec<char>) -> (k: usize)
    ensures
        k as int == first_segment_end(chars@),
        k <= chars.len(),
        k < chars.len() ==> is_separator(chars@[k as int]),
        forall|i: int| 0 <= i < k ==> !is_separator(chars@[i]),
{
    let mut k: usize = 0;
    while k < chars.len() && chars[k] != '/' && chars[k] != '\\'
        invariant
            k <= chars.len(),
            separator_from(chars@, 0) == separator_from(chars@, k as int),
            forall|i: int| 0 <= i < k ==> !is_separator(chars@[i]),
        decreases chars.len() - k,
    {
        k = k + 1;
    }
    k
}

/// Whether `chars` spells a path of one normal component.
fn single_normal_component(chars: &Vec<char>) -> (r: bool)
    ensures
        r == is_single_normal_component(chars@),
{
    let k = first_segment_end_of(chars);
    if k == 0 {
        return false;
    }
    if k == 1 && chars[0] == '.' {
        assert(chars@.take(1) =~= seq!['.']);
        return false;
    }
    if k == 2 && chars[0] == '.' && chars[1] == '.' {
        assert(chars@.take(2) =~= seq!['.', '.']);
        return false;
    }
    assert(chars@.take(k as int) != seq!['.']) by {
        if k == 1 {
            assert(chars@.take(k as int)[0] == chars@[0]);
        } else {
            assert(chars@.take(k as int).len() != 1);
        }
    }
    assert(chars@.take(k as int) != seq!['.', '.']) by {
        if k == 2 {
            assert(chars@.take(k as int)[0] == chars@[0]);
            assert(chars@.take(k as int)[1] == chars@[1]);
        } else {
            assert(chars@.take(k as int).len() != 2);
        }
    }
    let n = chars.len();
    let mut i = k;
    while i < n
        invariant
            0 < k <= i <= n == chars.len(),
            k as int == first_segment_end(chars@),
            k < n ==> is_separator(chars@[k as int]),
            forall|m: int| k <= m < i ==> #[trigger] ignorable_at(chars@, m),
        decreases n - i,
    {
        let c = chars[i];
        if c != '/' && c != '\\' {
            let before = chars[i - 1];
            if c != '.' || (before != '/' && before != '\\') || (i + 1 < n && chars[i + 1] != '/'
                && chars[i + 1] != '\\') {
                assert(!ignorable_at(chars@, i as int));
                return false;
            }
        }
        i = i + 1;
    }
    true
}

/// Accepts a file name from CurseForge only if, as a path, it is one normal component.
pub fn validate_file_name(file_name: &str) -> (r: Result<(), ErrorKind>)
    ensures
        r is Ok <==> is_single_normal_component(file_name@),
        r matches Err(e) ==> e matches ErrorKind::InputError(m) && m@
            == "CurseForge returned an invalid file name"@,
{
    let chars = chars_of(file_name);
    if file_name.is_empty() || !single_normal_component(&chars) {
        return Err(input_error("CurseForge returned an invalid file name"));
    }
    Ok(())
}

/// Accepts a world download only if its file name is valid and ends in `.zip`
/// (in any ASCII case).
pub fn validate_world_archive_name(file_name: &str) -> (r: Result<(), ErrorKind>)
    ensures
        r is Ok <==> is_world_archive_name(file_name@),
        r matches Err(e) ==> e matches ErrorKind::InputError(m) && (if is_single_normal_component(
            file_name@,
        ) {
            m@ == "CurseForge world downloads must be ZIP archives"@
        } else {
            m@ == "CurseForge returned an invalid file name"@
        }),
{
    validate_file_name(file_name)?;
    let chars = chars_of(file_name);
    let k = first_segment_end_of(&chars);
    proof {
        lemma_last_index_of(chars@.take(k as int), '.');
    }
    let is_zip = match find_last_char(&chars, '.', k) {
        Some(j) => {
            if j == 0 || (k == 2 && chars[0] == '.' && chars[1] == '.') || k - j != 4 {
                false
            } else {
                let a = chars[j + 1];
                let b = chars[j + 2];
                let c = chars[j + 3];
                (a == 'z' || a == 'Z') && (b == 'i' || b == 'I') && (c == 'p' || c == 'P')
            }
        },
        None => false,
    };
    proof {
        let name = chars@.take(k as int);
        if k == 2 && chars@[0] == '.' && chars@[1] == '.' {
            assert(name =~= seq!['.', '.']);
        }
        if name == seq!['.', '.'] {
            assert(name[0] == chars@[0] && name[1] == chars@[1]);
        }
    }
    if is_zip {
        Ok(())
    } else {
        Err(input_error("CurseForge world downloads must be ZIP archives"))
    }
}

/// A CurseForge category, as far as the launcher reads it.
#[derive(Clone, Debug)]
pub struct CurseForgeCategory {
    pub id: u32,
    pub name: String,
    pub class_id: Option<u32>,
}

/// A category belongs to a class when it is the class itself or its parent is the class.
pub open spec fn category_in_class(category: CurseForgeCategory, class_id: u32) -> bool {
    category.id == class_id || category.class_id == Some(class_id)
}

/// The categories that belong to `class_id`, in their order; all of them without a class.
pub open spec fn filter_categories_spec(
    categories: Seq<CurseForgeCategory>,
    class_id: Option<u32>,
) -> Seq<CurseForgeCategory> {
    match class_id {
        Some(c) => categories.filter(|category: CurseForgeCategory| category_in_class(category, c)),
        None => categories,
    }
}

/// Keeps the categories of one class, in order; with no class, keeps all.
pub fn filter_categories(categories: Vec<CurseForgeCategory>, class_id: Option<u32>) -> (r: Vec<
    CurseForgeCategory,
>)
    ensures
        r@ == filter_categories_spec(categories@, class_id),
{
    let class_id = match class_id {
        Some(c) => c,
        None => return categories,
    };
    let ghost pred = |category: CurseForgeCategory| category_in_class(category, class_id);
    let ghost all = categories@;
    let mut kept: Vec<CurseForgeCategory> = Vec::new();
    for category in it: categories.into_iter()
        invariant
            it.seq() == all,
            pred == (|category: CurseForgeCategory| category_in_class(category, class_id)),
            kept@ == all.take(it.index() as int).filter(pred),
    {
        proof {
            reveal(Seq::filter);
            assert(all.take(it.index() + 1).drop_last() =~= all.take(it.index() as int));
        }
        if category.id == class_id || category.class_id == Some(class_id) {
            kept.push(category);
        }
    }
    proof {
        assert(all.take(all.len() as int) =~= all);
    }
    kept
}

/// Appends the query parameter `name=value` when there is a value.
pub fn push_query(query: &mut Vec<(String, String)>, name: &str, value: Option<String>)
    ensures
        match value {
            Some(v) => final(query)@.len() == old(query)@.len() + 1 && final(query)@.take(
                old(query)@.len() as int,
            ) == old(query)@ && final(query)@.last().0@ == name@ && final(query)@.last().1@ == v@,
            None => final(query)@ == old(query)@,
        },
{
    if let Some(value) = value {
        query.push((crate::text::to_owned_string(name), value));
    }
}

/// The outcome of one download, as the metrics read it.
#[derive(Clone, Debug)]
pub struct DownloadResult {
    /// Requests made for the file.
    pub attempts: u32,
    /// Name of the source that served it.
    pub source: String,
    /// Times a fallback source was used.
    pub fallback_count: u64,
}

/// Which source served the downloads of a run, and how often it fell back.
#[derive(Debug)]
pub struct CurseForgeDownloadMetrics {
    pub source: Option<String>,
    pub fallback_count: u64,
}

impl CurseForgeDownloadMetrics {
    /// Metrics of a run that has downloaded nothing yet.
    pub fn new() -> (m: Self)
        ensures
            m.source is None,
            m.fallback_count == 0,
    {
        CurseForgeDownloadMetrics { source: None, fallback_count: 0 }
    }

    /// Counts one download: a download that made requests names the source; fallbacks add
    /// up (wrapping, as the shared counter does).
    pub fn record(&mut self, result: &DownloadResult)
        ensures
            result.attempts > 0 ==> (final(self).source matches Some(s) && s@ == result.source@),
            result.attempts == 0 ==> final(self).source == old(self).source,
            final(self).fallback_count == (old(self).fallback_count + result.fallback_count) % (
            u64::MAX as int + 1),
    {
        if result.attempts > 0 {
            self.source = Some(result.source.clone());
        }
        self.fallback_count = self.fallback_count.wrapping_add(result.fallback_count);
    }

    /// What the run reports at its end: the source and fallback count, if any download
    /// named a source.
    pub fn finish(&self) -> (r: Option<(String, u64)>)
        ensures
            match self.source {
                Some(s) => r matches Some(p) && p.0@ == s@ && p.1 == self.fallback_count,
                None => r is None,
            },
    {
        match &self.source {
            Some(s) => Some((s.clone(), self.fallback_count)),
            None => None,
        }
    }
}

/// A file of a CurseForge project, as far as the launcher reads it.
#[derive(Clone, Debug)]
pub struct CurseForgeFile {
    pub id: u32,
    pub mod_id: u32,
    pub file_name: String,
    pub download_url: Option<String>,
    pub is_available: bool,
    pub game_versions: Vec<String>,
}

/// The file lists `game_version` among its game versions.
pub open spec fn file_supports_version(file: CurseForgeFile, game_version: Seq<char>) -> bool {
    exists|i: int| 0 <= i < file.game_versions@.len() && #[trigger] file.game_versions@[i]@ == game_version
}

/// Whether `versions` holds `game_version`.
pub fn lists_game_version(versions: &Vec<String>, game_version: &str) -> (r: bool)
    ensures
        r == exists|i: int| 0 <= i < versions@.len() && #[trigger] versions@[i]@ == game_version@,
{
    let mut i: usize = 0;
    while i < versions.len()
        invariant
            i <= versions.len(),
            forall|j: int| 0 <= j < i ==> #[trigger] versions@[j]@ != game_version@,
        decreases versions.len() - i,
    {
        if crate::text::str_eq(versions[i].as_str(), game_version) {
            return true;
        }
        i = i + 1;
    }
    false
}

} // verus!
