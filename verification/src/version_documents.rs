//! Merging the version documents of linked launchers along their `inheritsFrom` chain:
//! the generic (Mojang) rules, HMCL's rules (root manifests with patches start empty,
//! patches apply in ascending priority and prepend their libraries) and PCL's rules
//! (HMCL-format patches without an id are skipped, documents merge as JSON).
use vstd::prelude::*;

use crate::json_tree::{
    lemma_array_view, lemma_object_view, member_pos, copy_members, copy_tree, copy_trees, find_member, get_member, has_value, json_view, lemma_member_pos,
    member_of, member_views, members, pcl_merge, pcl_merge_spec, remove_member, set_in, set_member,
    str_member, str_member_of, tree_views, without_key, JsonTree, JsonView,
};
use crate::error::ErrorKind;
use crate::json_tree::{json_parse_result, parse_json_text};
use crate::launcher::LinkedLauncherDialect;
use crate::text::{chars_of, str_eq, to_owned_string};

verus! {

/// The priority of a patch: its `priority` member when that is an integer, else
/// `default`.
pub open spec fn priority_key(p: JsonView, default: int) -> int {
    match get_member(p, "priority"@) {
        Some(JsonView::Number(_, Some(i))) => i as int,
        _ => default,
    }
}

/// Where a patch with priority `k` goes among patches sorted by priority: after every
/// one whose priority is not above `k`.
pub open spec fn insert_pos(s: Seq<JsonView>, k: int, default: int) -> int
    decreases s.len(),
{
    if s.len() == 0 {
        0
    } else if priority_key(s.last(), default) <= k {
        s.len() as int
    } else {
        insert_pos(s.drop_last(), k, default)
    }
}

/// The patches in ascending order of priority, patches of equal priority keeping their
/// order (`sort_by_key`, a stable sort).
pub open spec fn sort_by_priority(s: Seq<JsonView>, default: int) -> Seq<JsonView>
    decreases s.len(),
{
    if s.len() == 0 {
        Seq::empty()
    } else {
        let t = sort_by_priority(s.drop_last(), default);
        t.insert(insert_pos(t, priority_key(s.last(), default), default), s.last())
    }
}

proof fn lemma_insert_pos_bounds(s: Seq<JsonView>, k: int, d: int)
    ensures
        0 <= insert_pos(s, k, d) <= s.len(),
    decreases s.len(),
{
    if s.len() > 0 {
        lemma_insert_pos_bounds(s.drop_last(), k, d);
    }
}

proof fn lemma_sort_len(s: Seq<JsonView>, d: int)
    ensures
        sort_by_priority(s, d).len() == s.len(),
    decreases s.len(),
{
    if s.len() > 0 {
        lemma_sort_len(s.drop_last(), d);
        lemma_insert_pos_bounds(sort_by_priority(s.drop_last(), d), priority_key(s.last(), d), d);
    }
}

/// The priority of a patch (see `priority_key`).
fn patch_priority(p: &JsonTree, default: i64) -> (r: i64)
    ensures
        r == priority_key(json_view(*p), default as int),
{
    match member_of(p, "priority") {
        Some(JsonTree::Number(_, Some(i))) => *i,
        _ => default,
    }
}

/// The patches sorted by priority (see `sort_by_priority`).
pub fn sorted_by_priority(patches: &Vec<JsonTree>, default: i64) -> (r: Vec<JsonTree>)
    ensures
        tree_views(r@) == sort_by_priority(tree_views(patches@), default as int),
{
    let ghost views = tree_views(patches@);
    let mut sorted: Vec<JsonTree> = Vec::new();
    let mut i: usize = 0;
    while i < patches.len()
        invariant
            i <= patches.len(),
            views == tree_views(patches@),
            tree_views(sorted@) == sort_by_priority(views.take(i as int), default as int),
        decreases patches.len() - i,
    {
        let ghost t = tree_views(sorted@);
        assert(views.take(i + 1).drop_last() =~= views.take(i as int));
        assert(views.take(i + 1).last() == views[i as int]);
        let k = patch_priority(&patches[i], default);
        let mut j = sorted.len();
        assert(t.take(j as int) =~= t);
        while j > 0 && patch_priority(&sorted[j - 1], default) > k
            invariant
                j <= sorted.len(),
                t == tree_views(sorted@),
                insert_pos(t, k as int, default as int) == insert_pos(t.take(j as int), k as int, default as int),
            decreases j,
        {
            assert(t.take(j as int).drop_last() =~= t.take(j - 1));
            assert(t.take(j as int).last() == t[j - 1]);
            j = j - 1;
        }
        proof {
            if j > 0 {
                assert(t.take(j as int).last() == t[j - 1]);
            }
        }
        let e = copy_tree(&patches[i]);
        sorted.insert(j, e);
        assert(tree_views(sorted@) =~= t.insert(j as int, views[i as int]));
        i = i + 1;
    }
    assert(views.take(patches.len() as int) =~= views);
    sorted
}

/// A version type HMCL reads (`release`, `snapshot`, `fool`, `old_alpha`, `old-alpha`,
/// `old_beta`, `old-beta`, in any ASCII case); another is read as no type.
pub open spec fn known_version_type(s: Seq<char>) -> bool {
    ||| eq_ignore_ascii_case(s, "release"@)
    ||| eq_ignore_ascii_case(s, "snapshot"@)
    ||| eq_ignore_ascii_case(s, "fool"@)
    ||| eq_ignore_ascii_case(s, "old_alpha"@)
    ||| eq_ignore_ascii_case(s, "old-alpha"@)
    ||| eq_ignore_ascii_case(s, "old_beta"@)
    ||| eq_ignore_ascii_case(s, "old-beta"@)
}

/// `x` is the lower-case letter `y`, or its upper-case form.
pub open spec fn char_matches_lower(x: char, y: char) -> bool {
    x == y || ('a' <= y <= 'z' && (x as u32) == (y as u32) - 32)
}

/// `s` equals the lower-case word `w` when ASCII letters are compared without case.
pub open spec fn eq_ignore_ascii_case(s: Seq<char>, w: Seq<char>) -> bool {
    s.len() == w.len() && forall|i: int| 0 <= i < s.len() ==> char_matches_lower(#[trigger] s[i], w[i])
}

fn matches_word(s: &Vec<char>, w: &str) -> (r: bool)
    ensures
        r == eq_ignore_ascii_case(s@, w@),
{
    let wc = chars_of(w);
    if s.len() != wc.len() {
        return false;
    }
    let mut i: usize = 0;
    while i < s.len()
        invariant
            i <= s.len() == wc.len(),
            wc@ == w@,
            forall|j: int| 0 <= j < i ==> char_matches_lower(#[trigger] s@[j], wc@[j]),
        decreases s.len() - i,
    {
        let x = s[i];
        let y = wc[i];
        if !(x == y || ('a' <= y && y <= 'z' && (x as u32) == (y as u32) - 32)) {
            return false;
        }
        i = i + 1;
    }
    true
}

/// Whether HMCL reads this version type (see `known_version_type`).
pub fn is_known_version_type(s: &str) -> (r: bool)
    ensures
        r == known_version_type(s@),
{
    let c = chars_of(s);
    matches_word(&c, "release") || matches_word(&c, "snapshot") || matches_word(&c, "fool")
        || matches_word(&c, "old_alpha") || matches_word(&c, "old-alpha") || matches_word(&c, "old_beta")
        || matches_word(&c, "old-beta")
}

/// A member of `doc` that overlays a merged version: one that is set, and, for `type`,
/// a type HMCL reads.
pub open spec fn overlays(doc: JsonView, key: Seq<char>) -> bool {
    &&& has_value(doc, key)
    &&& key == "type"@ ==> (get_member(doc, key) matches Some(JsonView::Str(t)) && known_version_type(t))
}

/// The members `m` with each of `keys` that `doc` sets taken from `doc`, in turn.
pub open spec fn overlay_keys(m: Seq<(Seq<char>, JsonView)>, doc: JsonView, keys: Seq<Seq<char>>) -> Seq<(Seq<char>, JsonView)>
    decreases keys.len(),
{
    if keys.len() == 0 {
        m
    } else {
        let prev = overlay_keys(m, doc, keys.drop_last());
        let k = keys.last();
        if overlays(doc, k) {
            set_in(prev, k, get_member(doc, k).unwrap())
        } else {
            prev
        }
    }
}

/// The fields a child document overlays on its parent.
pub open spec fn document_keys() -> Seq<Seq<char>> {
    seq![
        "mainClass"@, "jar"@, "minecraftArguments"@, "assets"@, "assetIndex"@, "javaVersion"@,
        "logging"@, "downloads"@, "type"@, "releaseTime"@, "time"@, "complianceLevel"@,
    ]
}

/// HMCL's per-version settings, each taken from the child when it sets it.
pub open spec fn settings_keys() -> Seq<Seq<char>> {
    seq![
        "javaArgs"@, "minMemory"@, "maxMemory"@, "permSize"@, "width"@, "height"@, "fullscreen"@,
        "serverIp"@, "serverPort"@, "usesGlobal"@, "javaDir"@, "defaultJavaPath"@,
    ]
}

/// The fields an HMCL patch overlays (not `jar`: the parent's jar is kept).
pub open spec fn patch_keys() -> Seq<Seq<char>> {
    seq![
        "minecraftArguments"@, "mainClass"@, "assetIndex"@, "assets"@, "javaVersion"@, "downloads"@,
        "logging"@, "type"@, "time"@, "releaseTime"@,
    ]
}

fn document_key_list() -> (r: Vec<&'static str>)
    ensures
        r@.map_values(|s: &str| s@) == document_keys(),
{
    let r = vec![
        "mainClass", "jar", "minecraftArguments", "assets", "assetIndex", "javaVersion", "logging",
        "downloads", "type", "releaseTime", "time", "complianceLevel",
    ];
    assert(r@.map_values(|s: &str| s@) =~= document_keys());
    r
}

fn settings_key_list() -> (r: Vec<&'static str>)
    ensures
        r@.map_values(|s: &str| s@) == settings_keys(),
{
    let r = vec![
        "javaArgs", "minMemory", "maxMemory", "permSize", "width", "height", "fullscreen", "serverIp",
        "serverPort", "usesGlobal", "javaDir", "defaultJavaPath",
    ];
    assert(r@.map_values(|s: &str| s@) =~= settings_keys());
    r
}

fn patch_key_list() -> (r: Vec<&'static str>)
    ensures
        r@.map_values(|s: &str| s@) == patch_keys(),
{
    let r = vec![
        "minecraftArguments", "mainClass", "assetIndex", "assets", "javaVersion", "downloads", "logging",
        "type", "time", "releaseTime",
    ];
    assert(r@.map_values(|s: &str| s@) =~= patch_keys());
    r
}

/// Whether `doc` overlays member `key` (see `overlays`).
fn overlays_key(doc: &JsonTree, key: &str) -> (r: bool)
    ensures
        r == overlays(json_view(*doc), key@),
{
    match member_of(doc, key) {
        Some(JsonTree::Null) => false,
        Some(v) => {
            if str_eq(key, "type") {
                match v {
                    JsonTree::Str(t) => is_known_version_type(t.as_str()),
                    _ => false,
                }
            } else {
                true
            }
        },
        None => false,
    }
}

/// Takes each of `keys` that `doc` sets from `doc` (see `overlay_keys`).
fn overlay_from(m: &mut Vec<(String, JsonTree)>, doc: &JsonTree, keys: &Vec<&'static str>)
    ensures
        member_views(final(m)@) == overlay_keys(member_views(old(m)@), json_view(*doc), keys@.map_values(|s: &str| s@)),
{
    let ghost start = member_views(m@);
    let ghost kv = keys@.map_values(|s: &str| s@);
    let mut i: usize = 0;
    while i < keys.len()
        invariant
            i <= keys.len(),
            kv == keys@.map_values(|s: &str| s@),
            member_views(m@) == overlay_keys(start, json_view(*doc), kv.take(i as int)),
        decreases keys.len() - i,
    {
        assert(kv.take(i + 1).drop_last() =~= kv.take(i as int));
        assert(kv.take(i + 1).last() == keys@[i as int]@);
        let key = keys[i];
        if overlays_key(doc, key) {
            match member_of(doc, key) {
                Some(v) => {
                    let value = copy_tree(v);
                    set_member(m, key, value);
                },
                None => {},
            }
        }
        i = i + 1;
    }
    assert(kv.take(keys.len() as int) =~= kv);
}

/// An optional member that is set (a `null` reads as not set).
pub open spec fn set_value(v: Option<JsonView>) -> Option<JsonView> {
    match v {
        Some(JsonView::Null) => None,
        other => other,
    }
}

/// Launch arguments merged (`merge_arguments`): where both sides have them, the
/// child's lists are appended to the parent's of the same kind.
pub open spec fn merged_arguments(parent: Option<JsonView>, child: Option<JsonView>) -> Option<JsonView> {
    match (set_value(parent), set_value(child)) {
        (None, None) => None,
        (Some(p), None) => Some(p),
        (None, Some(c)) => Some(c),
        (Some(p), Some(c)) => Some(pcl_merge_spec(p, c)),
    }
}

/// The elements of an array member (none when it is not an array).
pub open spec fn array_member(v: JsonView, key: Seq<char>) -> Seq<JsonView> {
    match get_member(v, key) {
        Some(JsonView::Array(a)) => a,
        _ => Seq::empty(),
    }
}

/// An integer member, if set.
pub open spec fn int_member(v: JsonView, key: Seq<char>) -> Option<JsonView> {
    match get_member(v, key) {
        Some(JsonView::Number(t, Some(i))) => Some(JsonView::Number(t, Some(i))),
        _ => None,
    }
}

/// The larger of two optional versions (no version below any), the second when equal.
pub open spec fn max_version(a: Option<JsonView>, b: Option<JsonView>) -> Option<JsonView> {
    match (a, b) {
        (Some(JsonView::Number(_, Some(x))), Some(JsonView::Number(_, Some(y)))) => if x > y {
            a
        } else {
            b
        },
        (Some(_), None) => a,
        _ => b,
    }
}

/// `m` with `key` set when `v` is.
pub open spec fn set_if(m: Seq<(Seq<char>, JsonView)>, key: Seq<char>, v: Option<JsonView>) -> Seq<(Seq<char>, JsonView)> {
    match v {
        Some(x) => set_in(m, key, x),
        None => m,
    }
}

/// A child document merged onto its resolved parent (`merge_hmcl_document`): the
/// child's fields and settings overlay the parent's, arguments merge, the child's
/// libraries come before the parent's, the minimum launcher version is the larger,
/// and the compliance level is the child's.
pub open spec fn merge_document_spec(parent: JsonView, child: JsonView) -> JsonView {
    let m1 = overlay_keys(members(parent), child, document_keys() + settings_keys());
    let m2 = set_if(m1, "arguments"@, merged_arguments(get_member(parent, "arguments"@), get_member(child, "arguments"@)));
    let m3 = set_in(m2, "libraries"@, JsonView::Array(array_member(child, "libraries"@) + array_member(parent, "libraries"@)));
    let m4 = set_if(m3, "minimumLauncherVersion"@, max_version(int_member(parent, "minimumLauncherVersion"@), int_member(child, "minimumLauncherVersion"@)));
    let m5 = set_in(m4, "complianceLevel"@, match get_member(child, "complianceLevel"@) {
        Some(x) => x,
        None => JsonView::Null,
    });
    JsonView::Object(m5)
}

/// A patch applied to a merged version (`apply_hmcl_patch`): its fields overlay (the jar
/// is kept), arguments merge, its compliance level replaces, its libraries (if any)
/// come first, and the minimum launcher version is the larger.
pub open spec fn apply_patch_spec(merged: JsonView, patch: JsonView) -> JsonView {
    let m1 = overlay_keys(members(merged), patch, patch_keys());
    let m2 = set_if(m1, "arguments"@, merged_arguments(get_member(merged, "arguments"@), get_member(patch, "arguments"@)));
    let m3 = set_in(m2, "complianceLevel"@, match get_member(patch, "complianceLevel"@) {
        Some(x) => x,
        None => JsonView::Null,
    });
    let m4 = if array_member(patch, "libraries"@).len() > 0 {
        set_in(m3, "libraries"@, JsonView::Array(array_member(patch, "libraries"@) + array_member(merged, "libraries"@)))
    } else {
        m3
    };
    JsonView::Object(set_if(m4, "minimumLauncherVersion"@, max_version(int_member(merged, "minimumLauncherVersion"@), int_member(patch, "minimumLauncherVersion"@))))
}

/// The patches applied in turn.
pub open spec fn apply_patches_spec(merged: JsonView, patches: Seq<JsonView>) -> JsonView
    decreases patches.len(),
{
    if patches.len() == 0 {
        merged
    } else {
        apply_patch_spec(apply_patches_spec(merged, patches.drop_last()), patches.last())
    }
}

/// The id of a document (its `id` string; empty when it has none).
pub open spec fn doc_id(doc: JsonView) -> Seq<char> {
    match str_member(doc, "id"@) {
        Some(s) => s,
        None => Seq::empty(),
    }
}

/// A document on its own, as a merged version: its jar defaults to its id.
pub open spec fn from_document_spec(doc: JsonView) -> JsonView {
    if has_value(doc, "jar"@) {
        JsonView::Object(members(doc))
    } else {
        JsonView::Object(set_in(members(doc), "jar"@, JsonView::Str(doc_id(doc))))
    }
}

/// The document is an HMCL root manifest with patches.
pub open spec fn is_root_with_patches(doc: JsonView) -> bool {
    get_member(doc, "root"@) == Some(JsonView::Bool(true)) && has_value(doc, "patches"@)
}

/// One level of a chain: the document merged onto its resolved parent, or on its own
/// (an HMCL root manifest with patches starts empty but for its settings); with HMCL's
/// rules its patches are then applied by ascending priority; a version without a jar
/// takes the document's jar or id; the level has the document's id.
pub open spec fn level_spec(parent: Option<JsonView>, doc: JsonView, hmcl: bool) -> JsonView {
    let base = match parent {
        Some(p) => merge_document_spec(p, doc),
        None => if hmcl && is_root_with_patches(doc) {
            JsonView::Object(overlay_keys(Seq::empty(), doc, settings_keys()))
        } else {
            from_document_spec(doc)
        },
    };
    let patched = if hmcl {
        apply_patches_spec(base, sort_by_priority(array_member(doc, "patches"@), i32::MIN as int))
    } else {
        base
    };
    let jarred = if has_value(patched, "jar"@) {
        members(patched)
    } else {
        set_in(members(patched), "jar"@, JsonView::Str(match str_member(doc, "jar"@) {
            Some(j) => j,
            None => doc_id(doc),
        }))
    };
    JsonView::Object(set_in(jarred, "id"@, JsonView::Str(doc_id(doc))))
}

/// The chain `docs[i..]` resolved, each document onto the resolution of its parent (the
/// next one).
pub open spec fn resolve_from(docs: Seq<JsonView>, i: int, hmcl: bool) -> JsonView
    decreases docs.len() - i,
{
    if i >= docs.len() - 1 {
        level_spec(None, docs[docs.len() - 1], hmcl)
    } else {
        level_spec(Some(resolve_from(docs, i + 1, hmcl)), docs[i], hmcl)
    }
}

/// A copy of the members of a JSON value (none when it is not an object).
pub fn members_copy(v: &JsonTree) -> (r: Vec<(String, JsonTree)>)
    ensures
        member_views(r@) == members(json_view(*v)),
{
    match v {
        JsonTree::Object(m) => {
            proof {
                lemma_object_view(*m);
            }
            copy_members(m)
        },
        _ => {
            let r: Vec<(String, JsonTree)> = Vec::new();
            assert(member_views(r@) =~= Seq::empty());
            r
        },
    }
}

/// A copy of the elements of an array member (none when it is not an array).
fn array_copy(v: &JsonTree, key: &str) -> (r: Vec<JsonTree>)
    ensures
        tree_views(r@) == array_member(json_view(*v), key@),
{
    match member_of(v, key) {
        Some(JsonTree::Array(a)) => {
            proof {
                lemma_array_view(*a);
            }
            copy_trees(a)
        },
        _ => {
            let r: Vec<JsonTree> = Vec::new();
            assert(tree_views(r@) =~= Seq::empty());
            r
        },
    }
}

/// An integer member, if set (see `int_member`).
fn int_copy(v: &JsonTree, key: &str) -> (r: Option<JsonTree>)
    ensures
        match r {
            Some(t) => int_member(json_view(*v), key@) == Some(json_view(t)),
            None => int_member(json_view(*v), key@) is None,
        },
{
    match member_of(v, key) {
        Some(JsonTree::Number(t, Some(i))) => Some(JsonTree::Number(to_owned_string(t.as_str()), Some(*i))),
        _ => None,
    }
}

/// The larger version (see `max_version`).
fn max_of(a: Option<JsonTree>, b: Option<JsonTree>) -> (r: Option<JsonTree>)
    ensures
        match r {
            Some(t) => max_version(
                match a { Some(x) => Some(json_view(x)), None => None },
                match b { Some(x) => Some(json_view(x)), None => None },
            ) == Some(json_view(t)),
            None => max_version(
                match a { Some(x) => Some(json_view(x)), None => None },
                match b { Some(x) => Some(json_view(x)), None => None },
            ) is None,
        },
{
    match (&a, &b) {
        (Some(JsonTree::Number(_, Some(x))), Some(JsonTree::Number(_, Some(y)))) => {
            if *x > *y {
                a
            } else {
                b
            }
        },
        (Some(_), None) => a,
        _ => b,
    }
}

/// Sets `key` when `v` is some (see `set_if`).
fn set_if_some(m: &mut Vec<(String, JsonTree)>, key: &str, v: Option<JsonTree>)
    ensures
        member_views(final(m)@) == set_if(member_views(old(m)@), key@, match v {
            Some(x) => Some(json_view(x)),
            None => None,
        }),
{
    match v {
        Some(x) => set_member(m, key, x),
        None => {},
    }
}

/// An optional member that is set (see `set_value`).
fn set_member_of<'a>(v: &'a JsonTree, key: &str) -> (r: Option<&'a JsonTree>)
    ensures
        match r {
            Some(x) => set_value(get_member(json_view(*v), key@)) == Some(json_view(*x)),
            None => set_value(get_member(json_view(*v), key@)) is None,
        },
{
    match member_of(v, key) {
        Some(JsonTree::Null) => None,
        other => other,
    }
}

/// The merged launch arguments of two versions (see `merged_arguments`).
fn arguments_of(parent: &JsonTree, child: &JsonTree) -> (r: Option<JsonTree>)
    ensures
        match r {
            Some(t) => merged_arguments(get_member(json_view(*parent), "arguments"@), get_member(json_view(*child), "arguments"@))
                == Some(json_view(t)),
            None => merged_arguments(get_member(json_view(*parent), "arguments"@), get_member(json_view(*child), "arguments"@)) is None,
        },
{
    match (set_member_of(parent, "arguments"), set_member_of(child, "arguments")) {
        (None, None) => None,
        (Some(p), None) => Some(copy_tree(p)),
        (None, Some(c)) => Some(copy_tree(c)),
        (Some(p), Some(c)) => Some(pcl_merge(p, c)),
    }
}

/// The compliance level a child or patch sets (`null` when it has none).
fn compliance_of(v: &JsonTree) -> (r: JsonTree)
    ensures
        json_view(r) == match get_member(json_view(*v), "complianceLevel"@) {
            Some(x) => x,
            None => JsonView::Null,
        },
{
    match member_of(v, "complianceLevel") {
        Some(x) => copy_tree(x),
        None => JsonTree::Null,
    }
}

/// A child document merged onto its resolved parent (see `merge_document_spec`).
pub fn merge_document(parent: &JsonTree, child: &JsonTree) -> (r: JsonTree)
    ensures
        json_view(r) == merge_document_spec(json_view(*parent), json_view(*child)),
{
    let mut m = members_copy(parent);
    let mut keys = document_key_list();
    let mut more = settings_key_list();
    let ghost dk = keys@;
    let ghost sk = more@;
    keys.append(&mut more);
    assert(keys@.map_values(|s: &str| s@) =~= document_keys() + settings_keys()) by {
        assert(keys@ == dk + sk);
        assert(dk.map_values(|s: &str| s@) == document_keys());
        assert(sk.map_values(|s: &str| s@) == settings_keys());
    }
    overlay_from(&mut m, child, &keys);
    set_if_some(&mut m, "arguments", arguments_of(parent, child));
    let mut libraries = array_copy(child, "libraries");
    let mut inherited = array_copy(parent, "libraries");
    let ghost a = tree_views(libraries@);
    let ghost b = tree_views(inherited@);
    libraries.append(&mut inherited);
    assert(tree_views(libraries@) =~= a + b);
    proof {
        lemma_array_view(libraries);
    }
    set_member(&mut m, "libraries", JsonTree::Array(libraries));
    set_if_some(&mut m, "minimumLauncherVersion", max_of(int_copy(parent, "minimumLauncherVersion"), int_copy(child, "minimumLauncherVersion")));
    set_member(&mut m, "complianceLevel", compliance_of(child));
    proof {
        lemma_object_view(m);
    }
    JsonTree::Object(m)
}

/// A patch applied to a merged version (see `apply_patch_spec`).
pub fn apply_patch(merged: &JsonTree, patch: &JsonTree) -> (r: JsonTree)
    ensures
        json_view(r) == apply_patch_spec(json_view(*merged), json_view(*patch)),
{
    let mut m = members_copy(merged);
    let keys = patch_key_list();
    overlay_from(&mut m, patch, &keys);
    set_if_some(&mut m, "arguments", arguments_of(merged, patch));
    set_member(&mut m, "complianceLevel", compliance_of(patch));
    let mut libraries = array_copy(patch, "libraries");
    if libraries.len() > 0 {
        let mut inherited = array_copy(merged, "libraries");
        let ghost a = tree_views(libraries@);
        let ghost b = tree_views(inherited@);
        libraries.append(&mut inherited);
        assert(tree_views(libraries@) =~= a + b);
        proof {
            lemma_array_view(libraries);
        }
        set_member(&mut m, "libraries", JsonTree::Array(libraries));
    }
    set_if_some(&mut m, "minimumLauncherVersion", max_of(int_copy(merged, "minimumLauncherVersion"), int_copy(patch, "minimumLauncherVersion")));
    proof {
        lemma_object_view(m);
    }
    JsonTree::Object(m)
}

/// The patches applied in turn (see `apply_patches_spec`).
fn apply_patches(merged: JsonTree, patches: &Vec<JsonTree>) -> (r: JsonTree)
    ensures
        json_view(r) == apply_patches_spec(json_view(merged), tree_views(patches@)),
{
    let ghost start = json_view(merged);
    let ghost pv = tree_views(patches@);
    let mut current = merged;
    let mut i: usize = 0;
    while i < patches.len()
        invariant
            i <= patches.len(),
            pv == tree_views(patches@),
            json_view(current) == apply_patches_spec(start, pv.take(i as int)),
        decreases patches.len() - i,
    {
        assert(pv.take(i + 1).drop_last() =~= pv.take(i as int));
        assert(pv.take(i + 1).last() == pv[i as int]);
        current = apply_patch(&current, &patches[i]);
        i = i + 1;
    }
    assert(pv.take(patches.len() as int) =~= pv);
    current
}

/// The id of a document (see `doc_id`).
fn id_of(doc: &JsonTree) -> (r: String)
    ensures
        r@ == doc_id(json_view(*doc)),
{
    match str_member_of(doc, "id") {
        Some(s) => s,
        None => String::new(),
    }
}

/// One level of a chain (see `level_spec`).
pub fn resolve_level(parent: Option<JsonTree>, doc: &JsonTree, hmcl: bool) -> (r: JsonTree)
    ensures
        json_view(r) == level_spec(match parent {
            Some(p) => Some(json_view(p)),
            None => None,
        }, json_view(*doc), hmcl),
{
    let base = match parent {
        Some(p) => merge_document(&p, doc),
        None => {
            let root = match member_of(doc, "root") {
                Some(JsonTree::Bool(b)) => *b,
                _ => false,
            };
            if hmcl && root && has_value_of(doc, "patches") {
                let mut m: Vec<(String, JsonTree)> = Vec::new();
                let keys = settings_key_list();
                assert(member_views(m@) =~= Seq::empty());
                overlay_from(&mut m, doc, &keys);
                proof {
                    lemma_object_view(m);
                }
                JsonTree::Object(m)
            } else {
                let mut m = members_copy(doc);
                if !has_value_of(doc, "jar") {
                    set_member(&mut m, "jar", JsonTree::Str(id_of(doc)));
                }
                proof {
                    lemma_object_view(m);
                }
                JsonTree::Object(m)
            }
        },
    };
    let patched = if hmcl {
        let patches = array_copy(doc, "patches");
        let sorted = sorted_by_priority(&patches, -2147483648i64);
        apply_patches(base, &sorted)
    } else {
        base
    };
    let mut m = members_copy(&patched);
    if !has_value_of(&patched, "jar") {
        let jar = match str_member_of(doc, "jar") {
            Some(j) => j,
            None => id_of(doc),
        };
        set_member(&mut m, "jar", JsonTree::Str(jar));
    } else {
        proof {
            assert(has_value(json_view(patched), "jar"@));
        }
    }
    set_member(&mut m, "id", JsonTree::Str(id_of(doc)));
    proof {
        lemma_object_view(m);
    }
    JsonTree::Object(m)
}

/// Whether member `key` is set (see `has_value`).
fn has_value_of(v: &JsonTree, key: &str) -> (r: bool)
    ensures
        r == has_value(json_view(*v), key@),
{
    match member_of(v, key) {
        Some(JsonTree::Null) => false,
        Some(_) => true,
        None => false,
    }
}

/// The chain resolved from its last document (the root ancestor) up to the first (see
/// `resolve_from`).
pub fn resolve_chain(docs: &Vec<JsonTree>, hmcl: bool) -> (r: JsonTree)
    requires
        docs.len() > 0,
    ensures
        json_view(r) == resolve_from(tree_views(docs@), 0, hmcl),
{
    let ghost dv = tree_views(docs@);
    let n = docs.len();
    let mut current = resolve_level(None, &docs[n - 1], hmcl);
    let mut i = n - 1;
    while i > 0
        invariant
            0 <= i < n == docs.len(),
            dv == tree_views(docs@),
            json_view(current) == resolve_from(dv, i as int, hmcl),
        decreases i,
    {
        current = resolve_level(Some(current), &docs[i - 1], hmcl);
        i = i - 1;
    }
    current
}

/// The document is in HMCL's format as PCL reads it: it has `patches` and no `time`.
pub open spec fn hmcl_format(child: JsonView) -> bool {
    get_member(child, "patches"@) is Some && get_member(child, "time"@) is None
}

/// A patch PCL applies: its `id` is there and not `null`.
pub open spec fn patch_has_id(p: JsonView) -> bool {
    get_member(p, "id"@) matches Some(x) && !(x is Null)
}

/// The patches PCL applies merged in turn onto `current`.
pub open spec fn pcl_fold_patches(current: JsonView, patches: Seq<JsonView>) -> JsonView
    decreases patches.len(),
{
    if patches.len() == 0 {
        current
    } else {
        let c = pcl_fold_patches(current, patches.drop_last());
        if patch_has_id(patches.last()) {
            pcl_merge_spec(c, patches.last())
        } else {
            c
        }
    }
}

/// A document as PCL reads it: one in HMCL's format becomes its patches (sorted by
/// priority, 0 when absent; those without an id skipped) merged onto an empty object,
/// with the requested id and no `inheritsFrom`; any other stays as it is.
pub open spec fn pcl_normalize_spec(child: JsonView, version_id: Seq<char>) -> JsonView {
    if hmcl_format(child) {
        let merged = pcl_fold_patches(JsonView::Object(Seq::empty()), sort_by_priority(array_member(child, "patches"@), 0));
        JsonView::Object(without_key(set_in(members(merged), "id"@, JsonView::Str(version_id)), "inheritsFrom"@))
    } else {
        child
    }
}

/// The parent PCL reads next: the `inheritsFrom` string, unless it names the document
/// itself.
pub open spec fn pcl_parent_id(child: JsonView, version_id: Seq<char>) -> Option<Seq<char>> {
    match str_member(child, "inheritsFrom"@) {
        Some(p) => if p != version_id {
            Some(p)
        } else {
            None
        },
        None => None,
    }
}

/// A document merged onto its resolved parent as PCL does it: JSON merge; PCL (classic)
/// then puts the child's libraries before the parent's; a result without a `jar` member
/// takes the parent's jar, or else the parent's id.
pub open spec fn pcl_inherit_spec(parent: JsonView, child: JsonView, classic: bool) -> JsonView {
    let inherited_jar = match str_member(parent, "jar"@) {
        Some(j) => Some(j),
        None => str_member(parent, "id"@),
    };
    let libs = array_member(child, "libraries"@) + array_member(parent, "libraries"@);
    let merged = pcl_merge_spec(parent, child);
    let with_libs = if classic && libs.len() > 0 {
        JsonView::Object(set_in(members(merged), "libraries"@, JsonView::Array(libs)))
    } else {
        merged
    };
    if get_member(with_libs, "jar"@) is None && inherited_jar is Some {
        JsonView::Object(set_in(members(with_libs), "jar"@, JsonView::Str(inherited_jar.unwrap())))
    } else {
        with_libs
    }
}

/// The PCL chain `docs[i..]` resolved.
pub open spec fn pcl_resolve_from(docs: Seq<JsonView>, i: int, classic: bool) -> JsonView
    decreases docs.len() - i,
{
    if i >= docs.len() - 1 {
        docs[docs.len() - 1]
    } else {
        pcl_inherit_spec(pcl_resolve_from(docs, i + 1, classic), docs[i], classic)
    }
}

/// A document as PCL reads it (see `pcl_normalize_spec`).
pub fn pcl_normalize(child: JsonTree, version_id: &str) -> (r: JsonTree)
    ensures
        json_view(r) == pcl_normalize_spec(json_view(child), version_id@),
{
    let hmcl = member_of(&child, "patches").is_some() && member_of(&child, "time").is_none();
    if !hmcl {
        return child;
    }
    let patches = array_copy(&child, "patches");
    let sorted = sorted_by_priority(&patches, 0);
    let ghost sv = tree_views(sorted@);
    let empty: Vec<(String, JsonTree)> = Vec::new();
    proof {
        lemma_object_view(empty);
        assert(member_views(empty@) =~= Seq::empty());
    }
    let mut current = JsonTree::Object(empty);
    let ghost start = json_view(current);
    let mut i: usize = 0;
    while i < sorted.len()
        invariant
            i <= sorted.len(),
            sv == tree_views(sorted@),
            json_view(current) == pcl_fold_patches(start, sv.take(i as int)),
        decreases sorted.len() - i,
    {
        assert(sv.take(i + 1).drop_last() =~= sv.take(i as int));
        assert(sv.take(i + 1).last() == sv[i as int]);
        let has_id = match member_of(&sorted[i], "id") {
            Some(JsonTree::Null) => false,
            Some(_) => true,
            None => false,
        };
        if has_id {
            current = pcl_merge(&current, &sorted[i]);
        }
        i = i + 1;
    }
    assert(sv.take(sorted.len() as int) =~= sv);
    let mut m = members_copy(&current);
    set_member(&mut m, "id", JsonTree::Str(to_owned_string(version_id)));
    let m = remove_member(m, "inheritsFrom");
    proof {
        lemma_object_view(m);
    }
    JsonTree::Object(m)
}

/// The parent PCL reads next (see `pcl_parent_id`).
pub fn pcl_parent(child: &JsonTree, version_id: &str) -> (r: Option<String>)
    ensures
        match pcl_parent_id(json_view(*child), version_id@) {
            Some(p) => r matches Some(x) && x@ == p,
            None => r is None,
        },
{
    match str_member_of(child, "inheritsFrom") {
        Some(p) => if str_eq(p.as_str(), version_id) {
            None
        } else {
            Some(p)
        },
        None => None,
    }
}

/// A document merged onto its resolved parent as PCL does it (see `pcl_inherit_spec`).
pub fn pcl_inherit(parent: &JsonTree, child: &JsonTree, classic: bool) -> (r: JsonTree)
    ensures
        json_view(r) == pcl_inherit_spec(json_view(*parent), json_view(*child), classic),
{
    let inherited_jar = match str_member_of(parent, "jar") {
        Some(j) => Some(j),
        None => str_member_of(parent, "id"),
    };
    let mut libs = array_copy(child, "libraries");
    let mut parent_libs = array_copy(parent, "libraries");
    let ghost a = tree_views(libs@);
    let ghost b = tree_views(parent_libs@);
    libs.append(&mut parent_libs);
    assert(tree_views(libs@) =~= a + b);
    let merged = pcl_merge(parent, child);
    let with_libs = if classic && libs.len() > 0 {
        let mut m = members_copy(&merged);
        proof {
            lemma_array_view(libs);
        }
        set_member(&mut m, "libraries", JsonTree::Array(libs));
        proof {
            lemma_object_view(m);
        }
        JsonTree::Object(m)
    } else {
        merged
    };
    if member_of(&with_libs, "jar").is_none() {
        match inherited_jar {
            Some(j) => {
                let mut m = members_copy(&with_libs);
                set_member(&mut m, "jar", JsonTree::Str(j));
                proof {
                    lemma_object_view(m);
                }
                return JsonTree::Object(m);
            },
            None => {},
        }
    }
    with_libs
}

/// The PCL chain resolved from its root ancestor up (see `pcl_resolve_from`).
pub fn pcl_resolve_chain(docs: &Vec<JsonTree>, classic: bool) -> (r: JsonTree)
    requires
        docs.len() > 0,
    ensures
        json_view(r) == pcl_resolve_from(tree_views(docs@), 0, classic),
{
    let ghost dv = tree_views(docs@);
    let n = docs.len();
    let mut current = copy_tree(&docs[n - 1]);
    let mut i = n - 1;
    while i > 0
        invariant
            0 <= i < n == docs.len(),
            dv == tree_views(docs@),
            json_view(current) == pcl_resolve_from(dv, i as int, classic),
        decreases i,
    {
        current = pcl_inherit(&current, &docs[i - 1], classic);
        i = i - 1;
    }
    current
}

/// Where the reading of a version's document chain stands: the version asked for, the
/// id whose document is read next, the ids already read and their documents (the
/// version's own first, then each parent).
#[derive(Debug)]
pub struct VersionChain {
    pub dialect: LinkedLauncherDialect,
    pub version_id: String,
    pub pending: String,
    pub visited: Vec<String>,
    pub documents: Vec<JsonTree>,
}

/// What follows the reading of one document: the parent to read next, or the merged
/// version.
#[derive(Debug)]
pub enum VersionStep {
    ReadParent(String),
    Merged(JsonTree),
}

/// The dialect reads documents as PCL does.
pub open spec fn is_pcl(d: LinkedLauncherDialect) -> bool {
    d == LinkedLauncherDialect::Pcl || d == LinkedLauncherDialect::PclCe
}

/// The ids already read.
pub open spec fn chain_visited(c: VersionChain) -> Seq<Seq<char>> {
    c.visited@.map_values(|s: String| s@)
}

/// The documents already read.
pub open spec fn chain_docs(c: VersionChain) -> Seq<JsonView> {
    tree_views(c.documents@)
}

/// The error of a chain that comes back to an id it has read.
pub open spec fn circular_message(id: Seq<char>) -> Seq<char> {
    "Circular inheritsFrom chain detected at \""@ + id + "\""@
}

/// The error of a document without a string `id`.
pub open spec fn missing_id_message() -> Seq<char> {
    "Version JSON has no string id"@
}

/// The id a document is read as and the document as kept: PCL keeps the id it asked
/// for and reads the document as PCL does; the others take the document's own `id`
/// (the version asked for in place of the first one's), none when it has no string id.
pub open spec fn step_doc(c: VersionChain, v: JsonView) -> Option<(Seq<char>, JsonView)> {
    if is_pcl(c.dialect) {
        Some((c.pending@, pcl_normalize_spec(v, c.pending@)))
    } else {
        match str_member(v, "id"@) {
            None => None,
            Some(own) => {
                let id = if c.documents.len() == 0 {
                    c.version_id@
                } else {
                    own
                };
                Some((id, JsonView::Object(set_in(members(v), "id"@, JsonView::Str(id)))))
            },
        }
    }
}

/// The parent a kept document names.
pub open spec fn step_parent(c: VersionChain, doc: JsonView) -> Option<Seq<char>> {
    if is_pcl(c.dialect) {
        pcl_parent_id(doc, c.pending@)
    } else {
        str_member(doc, "inheritsFrom"@)
    }
}

/// The merged version of a whole chain, with the id asked for.
pub open spec fn chain_result(dialect: LinkedLauncherDialect, version_id: Seq<char>, docs: Seq<JsonView>) -> JsonView {
    if is_pcl(dialect) {
        from_document_spec(JsonView::Object(set_in(members(pcl_resolve_from(docs, 0, dialect == LinkedLauncherDialect::Pcl)), "id"@, JsonView::Str(version_id))))
    } else {
        JsonView::Object(set_in(members(resolve_from(docs, 0, dialect == LinkedLauncherDialect::Hmcl)), "id"@, JsonView::Str(version_id)))
    }
}

/// Whether `s` is among `v`.
fn among(v: &Vec<String>, s: &str) -> (r: bool)
    ensures
        r == v@.map_values(|x: String| x@).contains(s@),
{
    let ghost views = v@.map_values(|x: String| x@);
    let mut i: usize = 0;
    while i < v.len()
        invariant
            i <= v.len(),
            views == v@.map_values(|x: String| x@),
            forall|j: int| 0 <= j < i ==> views[j] != s@,
        decreases v.len() - i,
    {
        if str_eq(v[i].as_str(), s) {
            assert(views[i as int] == s@);
            return true;
        }
        i = i + 1;
    }
    false
}

/// `a`, `b` and `c` one after another.
fn joined3(a: &str, b: &str, c: &str) -> (r: String)
    ensures
        r@ == a@ + b@ + c@,
{
    let mut r = to_owned_string(a);
    r.append(b);
    r.append(c);
    r
}

impl VersionChain {
    /// The chain of `version_id` before any document is read.
    pub fn new(dialect: LinkedLauncherDialect, version_id: &str) -> (c: Self)
        ensures
            c.dialect == dialect,
            c.version_id@ == version_id@,
            c.pending@ == version_id@,
            c.visited@.len() == 0,
            c.documents@.len() == 0,
    {
        VersionChain {
            dialect,
            version_id: to_owned_string(version_id),
            pending: to_owned_string(version_id),
            visited: Vec::new(),
            documents: Vec::new(),
        }
    }

    /// PCL refuses, before reading it, an id it has already read; the others always go
    /// on to read.
    pub fn check_before_read(&self) -> (r: Result<(), ErrorKind>)
        ensures
            r is Err <==> (is_pcl(self.dialect) && chain_visited(*self).contains(self.pending@)),
            r matches Err(e) ==> e matches ErrorKind::InputError(m) && m@ == circular_message(self.pending@),
    {
        let pcl = self.dialect == LinkedLauncherDialect::Pcl || self.dialect == LinkedLauncherDialect::PclCe;
        if pcl && among(&self.visited, self.pending.as_str()) {
            return Err(ErrorKind::InputError(joined3("Circular inheritsFrom chain detected at \"", self.pending.as_str(), "\"")));
        }
        Ok(())
    }

    /// Reads the text of the next document: an unreadable text, a document without a
    /// string id (outside PCL) or an id already read refuses the chain and changes
    /// nothing; otherwise the id and the document are kept, and the step is the parent
    /// the document names, or, when it names none, the merged version of the whole chain
    /// (with the id asked for).
    pub fn next_version_step(&mut self, text: &str) -> (r: Result<VersionStep, ErrorKind>)
        ensures
            match json_parse_result(text@) {
                Err(m) => r matches Err(e) && e matches ErrorKind::JSONError(x) && x@ == m && *final(self) == *old(self),
                Ok(v) => match step_doc(*old(self), v) {
                    None => r matches Err(e) && e matches ErrorKind::JSONError(x) && x@ == missing_id_message()
                        && *final(self) == *old(self),
                    Some((id, doc)) => if chain_visited(*old(self)).contains(id) {
                        r matches Err(e) && e matches ErrorKind::InputError(x) && x@ == circular_message(id)
                            && *final(self) == *old(self)
                    } else {
                        &&& final(self).dialect == old(self).dialect
                        &&& final(self).version_id == old(self).version_id
                        &&& chain_visited(*final(self)) == chain_visited(*old(self)).push(id)
                        &&& chain_docs(*final(self)) == chain_docs(*old(self)).push(doc)
                        &&& match step_parent(*old(self), doc) {
                            Some(p) => r matches Ok(VersionStep::ReadParent(x)) && x@ == p && final(self).pending@ == p,
                            None => r matches Ok(VersionStep::Merged(t)) && json_view(t) == chain_result(
                                old(self).dialect,
                                old(self).version_id@,
                                chain_docs(*final(self)),
                            ) && final(self).pending == old(self).pending,
                        }
                    },
                },
            },
    {
        let tree = match parse_json_text(text) {
            Ok(t) => t,
            Err(m) => {
                return Err(ErrorKind::JSONError(m));
            },
        };
        let pcl = self.dialect == LinkedLauncherDialect::Pcl || self.dialect == LinkedLauncherDialect::PclCe;
        let (id, doc) = if pcl {
            let pending = to_owned_string(self.pending.as_str());
            let doc = pcl_normalize(tree, pending.as_str());
            (pending, doc)
        } else {
            let own = match str_member_of(&tree, "id") {
                Some(own) => own,
                None => {
                    return Err(ErrorKind::JSONError(to_owned_string("Version JSON has no string id")));
                },
            };
            let id = if self.documents.len() == 0 {
                to_owned_string(self.version_id.as_str())
            } else {
                own
            };
            let mut m = members_copy(&tree);
            set_member(&mut m, "id", JsonTree::Str(to_owned_string(id.as_str())));
            proof {
                lemma_object_view(m);
            }
            (id, JsonTree::Object(m))
        };
        if among(&self.visited, id.as_str()) {
            return Err(ErrorKind::InputError(joined3("Circular inheritsFrom chain detected at \"", id.as_str(), "\"")));
        }
        let parent = if pcl {
            pcl_parent(&doc, id.as_str())
        } else {
            str_member_of(&doc, "inheritsFrom")
        };
        let ghost old_visited = chain_visited(*self);
        let ghost old_docs = chain_docs(*self);
        let ghost doc_view = json_view(doc);
        self.visited.push(id);
        self.documents.push(doc);
        assert(chain_visited(*self) =~= old_visited.push(self.visited@.last()@));
        assert(chain_docs(*self) =~= old_docs.push(doc_view));
        match parent {
            Some(p) => {
                self.pending = to_owned_string(p.as_str());
                Ok(VersionStep::ReadParent(p))
            },
            None => {
                let merged = if pcl {
                    let resolved = pcl_resolve_chain(&self.documents, self.dialect == LinkedLauncherDialect::Pcl);
                    let mut m = members_copy(&resolved);
                    let ghost before_id = member_views(m@);
                    set_member(&mut m, "id", JsonTree::Str(to_owned_string(self.version_id.as_str())));
                    proof {
                        lemma_object_view(m);
                        lemma_get_after_set(before_id, "id"@, JsonView::Str(self.version_id@));
                    }
                    let ghost before_jar = member_views(m@);
                    if !has_value_of_members(&m, "jar") {
                        set_member(&mut m, "jar", JsonTree::Str(to_owned_string(self.version_id.as_str())));
                        assert(doc_id(JsonView::Object(before_jar)) == self.version_id@);
                    }
                    proof {
                        lemma_object_view(m);
                    }
                    JsonTree::Object(m)
                } else {
                    let resolved = resolve_chain(&self.documents, self.dialect == LinkedLauncherDialect::Hmcl);
                    let mut m = members_copy(&resolved);
                    set_member(&mut m, "id", JsonTree::Str(to_owned_string(self.version_id.as_str())));
                    proof {
                        lemma_object_view(m);
                    }
                    JsonTree::Object(m)
                };
                Ok(VersionStep::Merged(merged))
            },
        }
    }
}

/// After setting `key`, the member `key` is what was set.
pub proof fn lemma_get_after_set(m: Seq<(Seq<char>, JsonView)>, key: Seq<char>, x: JsonView)
    ensures
        get_member(JsonView::Object(set_in(m, key, x)), key) == Some(x),
{
    lemma_member_pos(m, key);
    let p = member_pos(m, key);
    let r = set_in(m, key, x);
    lemma_member_pos(r, key);
    let q = member_pos(r, key);
    if p >= 0 {
        assert(r[p].0 == key);
        if q >= 0 && q < p {
            assert(r[q] == m[q]);
        }
        assert(q == p);
    } else {
        assert(r[m.len() as int].0 == key);
        if q >= 0 && q < m.len() {
            assert(r[q] == m[q]);
        }
        assert(q == m.len());
    }
}

/// Whether member `key` of `m` is set.
fn has_value_of_members(m: &Vec<(String, JsonTree)>, key: &str) -> (r: bool)
    ensures
        r == has_value(json_view(JsonTree::Object(*m)), key@),
{
    proof {
        lemma_object_view(*m);
    }
    match find_member(m, key) {
        Some(p) => {
            assert(member_views(m@)[p as int].1 == json_view(m@[p as int].1));
            match &m[p].1 {
                JsonTree::Null => false,
                _ => true,
            }
        },
        None => false,
    }
}

/// The patches are in ascending order of priority.
pub open spec fn priorities_ascend(s: Seq<JsonView>, default: int) -> bool {
    forall|a: int, b: int| 0 <= a < b < s.len() ==> priority_key(#[trigger] s[a], default) <= priority_key(#[trigger] s[b], default)
}

proof fn lemma_insert_pos_split(s: Seq<JsonView>, k: int, d: int)
    requires
        priorities_ascend(s, d),
    ensures
        0 <= insert_pos(s, k, d) <= s.len(),
        forall|i: int| 0 <= i < insert_pos(s, k, d) ==> priority_key(#[trigger] s[i], d) <= k,
        forall|i: int| insert_pos(s, k, d) <= i < s.len() ==> priority_key(#[trigger] s[i], d) > k,
    decreases s.len(),
{
    if s.len() > 0 {
        let t = s.drop_last();
        assert(priorities_ascend(t, d)) by {
            assert forall|a: int, b: int| 0 <= a < b < t.len() implies priority_key(#[trigger] t[a], d) <= priority_key(#[trigger] t[b], d) by {
                assert(t[a] == s[a] && t[b] == s[b]);
            }
        }
        lemma_insert_pos_split(t, k, d);
        if priority_key(s.last(), d) <= k {
            assert forall|i: int| 0 <= i < s.len() implies priority_key(#[trigger] s[i], d) <= k by {
                if i < s.len() - 1 {
                    assert(s[i] == t[i]);
                    assert(priority_key(s[i], d) <= priority_key(s[s.len() - 1], d));
                }
            }
        } else {
            assert forall|i: int| insert_pos(s, k, d) <= i < s.len() implies priority_key(#[trigger] s[i], d) > k by {
                if i < s.len() - 1 {
                    assert(s[i] == t[i]);
                }
            }
            assert forall|i: int| 0 <= i < insert_pos(s, k, d) implies priority_key(#[trigger] s[i], d) <= k by {
                assert(s[i] == t[i]);
            }
        }
    }
}

/// Sorting patches by priority leaves them in ascending order of priority, each patch
/// kept as often as it came.
pub proof fn law_patches_sorted_by_priority(patches: Seq<JsonView>, default: int)
    ensures
        priorities_ascend(sort_by_priority(patches, default), default),
        sort_by_priority(patches, default).to_multiset() == patches.to_multiset(),
    decreases patches.len(),
{
    broadcast use vstd::seq_lib::group_to_multiset_ensures;

    if patches.len() > 0 {
        let t = sort_by_priority(patches.drop_last(), default);
        law_patches_sorted_by_priority(patches.drop_last(), default);
        let x = patches.last();
        let k = priority_key(x, default);
        lemma_insert_pos_split(t, k, default);
        let p = insert_pos(t, k, default);
        let r = t.insert(p, x);
        assert forall|a: int, b: int| 0 <= a < b < r.len() implies priority_key(#[trigger] r[a], default) <= priority_key(#[trigger] r[b], default) by {
            if a < p && b < p {
                assert(r[a] == t[a] && r[b] == t[b]);
            } else if a < p && b == p {
                assert(r[a] == t[a]);
            } else if a < p {
                assert(r[a] == t[a] && r[b] == t[b - 1]);
            } else if a == p {
                assert(r[b] == t[b - 1]);
            } else {
                assert(r[a] == t[a - 1] && r[b] == t[b - 1]);
            }
        }
        assert(patches =~= patches.drop_last().push(x));
    }
}

/// PCL applies exactly the patches that have an id: folding all the patches gives what
/// folding only those with an id gives.
pub proof fn law_pcl_skips_patches_without_id(current: JsonView, patches: Seq<JsonView>)
    ensures
        pcl_fold_patches(current, patches) == pcl_fold_patches(current, patches.filter(|p: JsonView| patch_has_id(p))),
    decreases patches.len(),
{
    reveal(Seq::filter);
    if patches.len() > 0 {
        law_pcl_skips_patches_without_id(current, patches.drop_last());
        let f = patches.filter(|p: JsonView| patch_has_id(p));
        let g = patches.drop_last().filter(|p: JsonView| patch_has_id(p));
        if patch_has_id(patches.last()) {
            assert(f == g.push(patches.last()));
            assert(f.drop_last() =~= g);
        } else {
            assert(f == g);
        }
    }
}

/// With HMCL's rules a root manifest with patches starts from nothing but its settings:
/// none of its other fields reach the merged version unless a patch sets them again.
pub proof fn law_hmcl_root_starts_empty(doc: JsonView)
    requires
        is_root_with_patches(doc),
    ensures
        level_spec(None, doc, true) == ({
            let base = JsonView::Object(overlay_keys(Seq::empty(), doc, settings_keys()));
            let patched = apply_patches_spec(base, sort_by_priority(array_member(doc, "patches"@), i32::MIN as int));
            let jarred = if has_value(patched, "jar"@) {
                members(patched)
            } else {
                set_in(members(patched), "jar"@, JsonView::Str(match str_member(doc, "jar"@) {
                    Some(j) => j,
                    None => doc_id(doc),
                }))
            };
            JsonView::Object(set_in(jarred, "id"@, JsonView::Str(doc_id(doc))))
        }),
{
}

/// A patch with libraries puts them before those merged so far; one without leaves them.
pub proof fn law_patch_libraries_come_first(merged: JsonView, patch: JsonView)
    ensures
        array_member(patch, "libraries"@).len() > 0 ==> array_member(apply_patch_spec(merged, patch), "libraries"@)
            == array_member(patch, "libraries"@) + array_member(merged, "libraries"@),
{
    if array_member(patch, "libraries"@).len() > 0 {
        let m1 = overlay_keys(members(merged), patch, patch_keys());
        let m2 = set_if(m1, "arguments"@, merged_arguments(get_member(merged, "arguments"@), get_member(patch, "arguments"@)));
        let m3 = set_in(m2, "complianceLevel"@, match get_member(patch, "complianceLevel"@) {
            Some(x) => x,
            None => JsonView::Null,
        });
        let libs = JsonView::Array(array_member(patch, "libraries"@) + array_member(merged, "libraries"@));
        let m4 = set_in(m3, "libraries"@, libs);
        lemma_get_after_set(m3, "libraries"@, libs);
        let v = max_version(int_member(merged, "minimumLauncherVersion"@), int_member(patch, "minimumLauncherVersion"@));
        match v {
            Some(x) => {
                reveal_strlit("minimumLauncherVersion");
                reveal_strlit("libraries");
                assert("minimumLauncherVersion"@.len() != "libraries"@.len());
                lemma_get_other_after_set(m4, "minimumLauncherVersion"@, x, "libraries"@);
            },
            None => {},
        }
    }
}

/// Setting one member leaves another as it was.
pub proof fn lemma_get_other_after_set(m: Seq<(Seq<char>, JsonView)>, key: Seq<char>, x: JsonView, other: Seq<char>)
    requires
        key != other,
    ensures
        get_member(JsonView::Object(set_in(m, key, x)), other) == get_member(JsonView::Object(m), other),
{
    lemma_member_pos(m, key);
    lemma_member_pos(m, other);
    let r = set_in(m, key, x);
    lemma_member_pos(r, other);
    let p = member_pos(m, key);
    let q = member_pos(m, other);
    let q2 = member_pos(r, other);
    if q >= 0 {
        assert(r[q].0 == other) by {
            if p == q {
                assert(false);
            }
        }
        if q2 >= 0 && q2 < q {
            assert(r[q2] == m[q2] || q2 == p);
        }
        assert(q2 == q);
    } else {
        if q2 >= 0 {
            if q2 < m.len() {
                assert(r[q2] == m[q2] || q2 == p);
            }
        }
        assert(q2 < 0);
    }
}

} // verus!
