//! Version documents of directly linked launchers (HMCL, PCL): library coordinates,
//! version ordering, version types, per-version settings and game directory modes.
use std::cmp::Ordering;
use vstd::prelude::*;

use crate::text::{
    chars_of, find_char_from, index_of_from, lemma_index_of_from, lemma_lex_compare_antisymmetric,
    lemma_lex_compare_bounds, lemma_lex_compare_reflexive, lex_compare, lex_compare_exec, str_eq,
    string_from_chars, to_owned_string,
};
use crate::error::ErrorKind;

verus! {

/// How an external instance keeps its game directory.
/// Where an instance linked from another launcher keeps its game files.
#[derive(PartialEq, Eq, Structural, Clone, Copy, Debug)]
pub enum ExternalGameDirMode {
    Isolated,
    Shared,
    Automatic,
}

/// The launcher whose version folders an instance is linked from.
#[derive(PartialEq, Eq, Structural, Clone, Copy, Debug)]
pub enum LinkedLauncherDialect {
    Pcl,
    PclCe,
    Generic,
    Hmcl,
}

/// Whether a linked instance runs in its own version directory: an explicit mode decides; otherwise every launcher but HMCL isolates versions.
pub open spec fn isolated_spec(mode: Option<ExternalGameDirMode>, dialect: LinkedLauncherDialect) -> bool {
    match mode {
        Some(ExternalGameDirMode::Isolated) => true,
        Some(ExternalGameDirMode::Shared) => false,
        _ => dialect != LinkedLauncherDialect::Hmcl,
    }
}

/// Whether a linked instance runs in its own version directory.
/// Whether a linked version runs in its own game directory.
pub fn uses_isolated_game_dir(mode: Option<ExternalGameDirMode>, dialect: LinkedLauncherDialect) -> (r: bool)
    ensures
        r == isolated_spec(mode, dialect),
{
    match mode {
        Some(ExternalGameDirMode::Isolated) => true,
        Some(ExternalGameDirMode::Shared) => false,
        Some(ExternalGameDirMode::Automatic) | None => match dialect {
            LinkedLauncherDialect::Pcl | LinkedLauncherDialect::PclCe => true,
            LinkedLauncherDialect::Generic => true,
            LinkedLauncherDialect::Hmcl => false,
        },
    }
}

/// The group, artifact and version of a `group:artifact:version[:...]` coordinate: the
/// first three `:`-separated parts, when there are three.
/// The group, artifact and version of a `group:artifact:version[:classifier]`
/// library name.
pub open spec fn coordinate_parts_spec(name: Seq<char>) -> Option<(Seq<char>, Seq<char>, Seq<char>)> {
    let a = index_of_from(name, ':', 0);
    let b = index_of_from(name, ':', a + 1);
    let c = if index_of_from(name, ':', b + 1) == -1 {
        name.len() as int
    } else {
        index_of_from(name, ':', b + 1)
    };
    if a >= 0 && b >= 0 {
        Some((name.subrange(0, a), name.subrange(a + 1, b), name.subrange(b + 1, c)))
    } else {
        None
    }
}

/// Splits a library coordinate into group, artifact and version.
/// Splits a library name into group, artifact and version.
pub fn coordinate_parts(name: &str) -> (r: Option<(String, String, String)>)
    ensures
        match coordinate_parts_spec(name@) {
            Some((g, a, v)) => r matches Some((rg, ra, rv)) && rg@ == g && ra@ == a && rv@ == v,
            None => r is None,
        },
{
    let chars = chars_of(name);
    proof {
        lemma_index_of_from(chars@, ':', 0);
    }
    let a = match find_char_from(&chars, ':', 0) {
        Some(a) => a,
        None => return None,
    };
    proof {
        lemma_index_of_from(chars@, ':', a + 1);
    }
    let b = match find_char_from(&chars, ':', a + 1) {
        Some(b) => b,
        None => return None,
    };
    proof {
        lemma_index_of_from(chars@, ':', b + 1);
    }
    let c = match find_char_from(&chars, ':', b + 1) {
        Some(c) => c,
        None => chars.len(),
    };
    Some((string_from_chars(&chars, 0, a), string_from_chars(&chars, a + 1, b), string_from_chars(&chars, b + 1, c)))
}

/// An ASCII letter or digit.
/// An ASCII letter or digit.
pub open spec fn is_ascii_alnum(c: char) -> bool {
    ('0' <= c && c <= '9') || ('a' <= c && c <= 'z') || ('A' <= c && c <= 'Z')
}

/// The ASCII lower case of a character.
/// The ASCII lower case of a character.
pub open spec fn ascii_lower(c: char) -> char {
    if 'A' <= c && c <= 'Z' {
        ((c as int) + 32) as char
    } else {
        c
    }
}

/// The parts a version is compared by: its runs of ASCII letters and digits, in
/// ASCII lower case.
pub open spec fn version_parts(s: Seq<char>) -> Seq<Seq<char>>
    decreases s.len(),
{
    if s.len() == 0 {
        Seq::empty()
    } else {
        let rest = version_parts(s.drop_last());
        let c = s.last();
        if !is_ascii_alnum(c) {
            rest
        } else if s.len() >= 2 && is_ascii_alnum(s[s.len() - 2]) && rest.len() > 0 {
            rest.update(rest.len() - 1, rest.last().push(ascii_lower(c)))
        } else {
            rest.push(seq![ascii_lower(c)])
        }
    }
}

/// `s` is all decimal digits (and not empty).
pub open spec fn all_digits(s: Seq<char>) -> bool {
    s.len() > 0 && forall|i: int| 0 <= i < s.len() ==> '0' <= #[trigger] s[i] && s[i] <= '9'
}

/// The number a digit string spells.
pub open spec fn digits_value(s: Seq<char>) -> nat
    decreases s.len(),
{
    if s.len() == 0 {
        0
    } else {
        digits_value(s.drop_last()) * 10 + ((s.last() as int - '0' as int) as nat)
    }
}

/// The part reads as a `u64` (`str::parse::<u64>`).
pub open spec fn parses_as_u64(s: Seq<char>) -> bool {
    all_digits(s) && digits_value(s) <= u64::MAX
}

/// How two version parts compare: as numbers when both read as `u64`, else as text.
pub open spec fn part_compare(a: Seq<char>, b: Seq<char>) -> int {
    if parses_as_u64(a) && parses_as_u64(b) {
        if digits_value(a) < digits_value(b) {
            -1
        } else if digits_value(a) > digits_value(b) {
            1
        } else {
            0
        }
    } else {
        lex_compare(a, b)
    }
}

/// How two part lists compare: by the first parts that differ, else by length.
pub open spec fn parts_compare(a: Seq<Seq<char>>, b: Seq<Seq<char>>) -> int
    decreases a.len(),
{
    if a.len() == 0 || b.len() == 0 {
        if a.len() < b.len() {
            -1
        } else if a.len() > b.len() {
            1
        } else {
            0
        }
    } else if part_compare(a[0], b[0]) != 0 {
        part_compare(a[0], b[0])
    } else {
        parts_compare(a.skip(1), b.skip(1))
    }
}

/// How two library versions compare (negative: `left` is older).
pub open spec fn compare_versions_spec(left: Seq<char>, right: Seq<char>) -> int {
    parts_compare(version_parts(left), version_parts(right))
}

fn is_ascii_alnum_exec(c: char) -> (r: bool)
    ensures
        r == is_ascii_alnum(c),
{
    ('0' <= c && c <= '9') || ('a' <= c && c <= 'z') || ('A' <= c && c <= 'Z')
}

fn ascii_lower_exec(c: char) -> (r: char)
    ensures
        r == ascii_lower(c),
{
    if 'A' <= c && c <= 'Z' {
        let code = (c as u8) + 32;
        let lower = code as char;
        proof {
            assert((c as u8) as int == c as int);
        }
        lower
    } else {
        c
    }
}

/// The parts a version is compared by.
pub fn version_parts_of(s: &str) -> (parts: Vec<String>)
    ensures
        parts@.map_values(|p: String| p@) == version_parts(s@),
{
    let chars = chars_of(s);
    let mut parts: Vec<String> = Vec::new();
    let mut i: usize = 0;
    while i < chars.len()
        invariant
            i <= chars.len(),
            chars@ == s@,
            parts@.map_values(|p: String| p@) == version_parts(chars@.take(i as int)),
        decreases chars.len() - i,
    {
        let ghost prefix = chars@.take(i as int);
        let ghost next = chars@.take(i + 1);
        proof {
            assert(next.drop_last() =~= prefix);
            assert(next.last() == chars@[i as int]);
            if i >= 1 {
                assert(next[next.len() - 2] == chars@[i - 1]);
            }
        }
        let c = chars[i];
        if is_ascii_alnum_exec(c) {
            let lower = ascii_lower_exec(c);
            if i >= 1 && is_ascii_alnum_exec(chars[i - 1]) && parts.len() > 0 {
                let ghost before = parts@;
                let mut last = parts.pop().unwrap();
                crate::text::push_char(&mut last, lower);
                parts.push(last);
                proof {
                    assert(parts@.map_values(|p: String| p@) =~= before.map_values(|p: String| p@).update(
                        before.len() - 1,
                        before.map_values(|p: String| p@).last().push(lower),
                    ));
                }
            } else {
                let ghost before = parts@;
                let mut part = String::new();
                crate::text::push_char(&mut part, lower);
                parts.push(part);
                proof {
                    assert(part@ =~= seq![lower]);
                    assert(parts@.map_values(|p: String| p@) =~= before.map_values(|p: String| p@).push(seq![lower]));
                }
            }
        }
        i = i + 1;
    }
    assert(chars@.take(chars.len() as int) =~= chars@);
    parts
}

proof fn lemma_digits_value_prefix(s: Seq<char>, k: int)
    requires
        0 <= k <= s.len(),
    ensures
        digits_value(s.take(k)) <= digits_value(s),
    decreases s.len() - k,
{
    if k < s.len() {
        lemma_digits_value_prefix(s, k + 1);
        assert(s.take(k + 1).drop_last() =~= s.take(k));
    } else {
        assert(s.take(k) =~= s);
    }
}

/// The `u64` a part spells, if it is all digits and not too large.
pub fn parse_u64_digits(s: &str) -> (r: Option<u64>)
    ensures
        parses_as_u64(s@) ==> r == Some(digits_value(s@) as u64),
        !parses_as_u64(s@) ==> r is None,
{
    let chars = chars_of(s);
    if chars.len() == 0 {
        return None;
    }
    let mut value: u64 = 0;
    let mut i: usize = 0;
    while i < chars.len()
        invariant
            i <= chars.len(),
            chars@ == s@,
            chars@.len() > 0,
            value == digits_value(chars@.take(i as int)),
            forall|k: int| 0 <= k < i ==> '0' <= #[trigger] chars@[k] && chars@[k] <= '9',
        decreases chars.len() - i,
    {
        let c = chars[i];
        assert(chars@.take(i + 1).drop_last() =~= chars@.take(i as int));
        assert(chars@.take(i + 1).last() == c);
        if !('0' <= c && c <= '9') {
            return None;
        }
        let d = (c as u32 - '0' as u32) as u64;
        if value > (u64::MAX - d) / 10 {
            proof {
                assert(value * 10 + d > u64::MAX) by (nonlinear_arith)
                    requires
                        value > (u64::MAX - d) / 10,
                        d <= 9,
                ;
                lemma_digits_value_prefix(chars@, i + 1);
            }
            return None;
        }
        proof {
            assert(value * 10 + d <= u64::MAX) by (nonlinear_arith)
                requires
                    value <= (u64::MAX - d) / 10,
                    d <= 9,
            ;
        }
        value = value * 10 + d;
        i = i + 1;
    }
    assert(chars@.take(chars.len() as int) =~= chars@);
    Some(value)
}

/// How two version parts compare.
fn part_compare_exec(a: &String, b: &String) -> (r: i8)
    ensures
        r as int == part_compare(a@, b@),
{
    match (parse_u64_digits(a.as_str()), parse_u64_digits(b.as_str())) {
        (Some(x), Some(y)) => if x < y {
            -1
        } else if x > y {
            1
        } else {
            0
        },
        _ => {
            let ca = chars_of(a.as_str());
            let cb = chars_of(b.as_str());
            lex_compare_exec(&ca, &cb)
        },
    }
}

proof fn lemma_parts_compare_bounds(a: Seq<Seq<char>>, b: Seq<Seq<char>>)
    ensures
        -1 <= parts_compare(a, b) <= 1,
    decreases a.len(),
{
    if a.len() > 0 && b.len() > 0 {
        lemma_lex_compare_bounds(a[0], b[0]);
        if part_compare(a[0], b[0]) == 0 {
            lemma_parts_compare_bounds(a.skip(1), b.skip(1));
        }
    }
}

/// How two lists of version parts compare.
fn parts_compare_exec(a: &Vec<String>, b: &Vec<String>) -> (r: i8)
    ensures
        r as int == parts_compare(a@.map_values(|p: String| p@), b@.map_values(|p: String| p@)),
{
    let ghost va = a@.map_values(|p: String| p@);
    let ghost vb = b@.map_values(|p: String| p@);
    let mut i: usize = 0;
    assert(va.skip(0) =~= va);
    assert(vb.skip(0) =~= vb);
    while i < a.len() && i < b.len()
        invariant
            i <= a.len(),
            i <= b.len(),
            va == a@.map_values(|p: String| p@),
            vb == b@.map_values(|p: String| p@),
            parts_compare(va, vb) == parts_compare(va.skip(i as int), vb.skip(i as int)),
        decreases a.len() - i,
    {
        let c = part_compare_exec(&a[i], &b[i]);
        proof {
            assert(va.skip(i as int)[0] == a@[i as int]@);
            assert(vb.skip(i as int)[0] == b@[i as int]@);
            assert(va.skip(i as int).skip(1) =~= va.skip(i + 1));
            assert(vb.skip(i as int).skip(1) =~= vb.skip(i + 1));
        }
        if c != 0 {
            return c;
        }
        i = i + 1;
    }
    if i < a.len() {
        1
    } else if i < b.len() {
        -1
    } else {
        0
    }
}

/// How two library versions compare, as a sign: negative when `left` is older.
pub fn compare_version_text(left: &str, right: &str) -> (r: i8)
    ensures
        r as int == compare_versions_spec(left@, right@),
        -1 <= r <= 1,
{
    let a = version_parts_of(left);
    let b = version_parts_of(right);
    proof {
        lemma_parts_compare_bounds(version_parts(left@), version_parts(right@));
    }
    parts_compare_exec(&a, &b)
}

/// How two library versions compare: by their runs of letters and digits (numbers as
/// numbers, otherwise as lower-case text), then by the number of runs.
pub fn compare_versions(left: &str, right: &str) -> (r: Ordering)
    ensures
        (r == Ordering::Less) == (compare_versions_spec(left@, right@) < 0),
        (r == Ordering::Greater) == (compare_versions_spec(left@, right@) > 0),
        (r == Ordering::Equal) == (compare_versions_spec(left@, right@) == 0),
{
    let a = version_parts_of(left);
    let b = version_parts_of(right);
    let c = parts_compare_exec(&a, &b);
    if c < 0 {
        Ordering::Less
    } else if c > 0 {
        Ordering::Greater
    } else {
        Ordering::Equal
    }
}

proof fn lemma_parts_compare_antisymmetric(a: Seq<Seq<char>>, b: Seq<Seq<char>>)
    ensures
        parts_compare(a, b) == -parts_compare(b, a),
    decreases a.len(),
{
    if a.len() > 0 && b.len() > 0 {
        lemma_lex_compare_antisymmetric(a[0], b[0]);
        lemma_parts_compare_antisymmetric(a.skip(1), b.skip(1));
    }
}

proof fn lemma_parts_compare_reflexive(a: Seq<Seq<char>>)
    ensures
        parts_compare(a, a) == 0,
    decreases a.len(),
{
    if a.len() > 0 {
        lemma_lex_compare_reflexive(a[0]);
        lemma_parts_compare_reflexive(a.skip(1));
    }
}

/// Version comparison is antisymmetric (swapping the versions reverses the answer)
/// and every version equals itself.
pub proof fn law_compare_versions_antisymmetric(left: Seq<char>, right: Seq<char>)
    ensures
        compare_versions_spec(left, right) == -compare_versions_spec(right, left),
        compare_versions_spec(left, left) == 0,
{
    lemma_parts_compare_antisymmetric(version_parts(left), version_parts(right));
    lemma_parts_compare_reflexive(version_parts(left));
}

/// The kinds of Minecraft version.
#[derive(PartialEq, Eq, Structural, Clone, Copy, Debug)]
pub enum VersionType {
    Release,
    Snapshot,
    OldAlpha,
    OldBeta,
}

/// The ASCII lower case of a text.
pub open spec fn ascii_lower_text(s: Seq<char>) -> Seq<char> {
    s.map_values(|c: char| ascii_lower(c))
}

/// The version type a document names, in any ASCII case; `fool` (April Fools'
/// versions) counts as a snapshot.
pub open spec fn version_type_spec(raw: Seq<char>) -> Option<VersionType> {
    let t = ascii_lower_text(raw);
    if t == "release"@ {
        Some(VersionType::Release)
    } else if t == "snapshot"@ || t == "fool"@ {
        Some(VersionType::Snapshot)
    } else if t == "old_alpha"@ || t == "old-alpha"@ {
        Some(VersionType::OldAlpha)
    } else if t == "old_beta"@ || t == "old-beta"@ {
        Some(VersionType::OldBeta)
    } else {
        None
    }
}

/// The ASCII lower case of a text.
pub fn to_ascii_lowercase(s: &str) -> (r: String)
    ensures
        r@ == ascii_lower_text(s@),
{
    let chars = chars_of(s);
    let mut r = String::new();
    let mut i: usize = 0;
    while i < chars.len()
        invariant
            i <= chars.len(),
            chars@ == s@,
            r@ == ascii_lower_text(chars@.take(i as int)),
        decreases chars.len() - i,
    {
        crate::text::push_char(&mut r, ascii_lower_exec(chars[i]));
        i = i + 1;
        assert(r@ =~= ascii_lower_text(chars@.take(i as int)));
    }
    assert(chars@.take(chars.len() as int) =~= chars@);
    r
}

/// Reads the `type` of a version document.
pub fn version_type_from(raw: Option<&str>) -> (r: Option<VersionType>)
    ensures
        match raw {
            Some(t) => r == version_type_spec(t@),
            None => r is None,
        },
{
    let raw = match raw {
        Some(t) => t,
        None => return None,
    };
    let t = to_ascii_lowercase(raw);
    let t = t.as_str();
    if str_eq(t, "release") {
        Some(VersionType::Release)
    } else if str_eq(t, "snapshot") || str_eq(t, "fool") {
        Some(VersionType::Snapshot)
    } else if str_eq(t, "old_alpha") || str_eq(t, "old-alpha") {
        Some(VersionType::OldAlpha)
    } else if str_eq(t, "old_beta") || str_eq(t, "old-beta") {
        Some(VersionType::OldBeta)
    } else {
        None
    }
}

/// HMCL's per-version launch settings, as written into version documents.
#[derive(Clone, Debug, Default, PartialEq, Eq)]
pub struct HmclVersionSettings {
    pub java_args: Option<String>,
    pub min_memory: Option<i64>,
    pub max_memory: Option<i64>,
    pub perm_size: Option<String>,
    pub width: Option<u32>,
    pub height: Option<u32>,
    pub fullscreen: Option<bool>,
    pub server_ip: Option<String>,
    pub server_port: Option<u16>,
    pub uses_global: Option<bool>,
    pub java_dir: Option<String>,
    pub default_java_path: Option<String>,
}

/// The child's value when it has one, else the parent's.
pub open spec fn or_else<T>(child: Option<T>, parent: Option<T>) -> Option<T> {
    match child {
        Some(v) => Some(v),
        None => parent,
    }
}

/// The settings after a child document is laid over them: every setting the child
/// has replaces the inherited one.
pub open spec fn overlay_spec(parent: HmclVersionSettings, child: HmclVersionSettings) -> HmclVersionSettings {
    HmclVersionSettings {
        java_args: or_else(child.java_args, parent.java_args),
        min_memory: or_else(child.min_memory, parent.min_memory),
        max_memory: or_else(child.max_memory, parent.max_memory),
        perm_size: or_else(child.perm_size, parent.perm_size),
        width: or_else(child.width, parent.width),
        height: or_else(child.height, parent.height),
        fullscreen: or_else(child.fullscreen, parent.fullscreen),
        server_ip: or_else(child.server_ip, parent.server_ip),
        server_port: or_else(child.server_port, parent.server_port),
        uses_global: or_else(child.uses_global, parent.uses_global),
        java_dir: or_else(child.java_dir, parent.java_dir),
        default_java_path: or_else(child.default_java_path, parent.default_java_path),
    }
}

/// The child's string when it has one, else the parent's.
fn or_string(child: &Option<String>, parent: Option<String>) -> (r: Option<String>)
    ensures
        r == or_else(*child, parent),
{
    match child {
        Some(v) => Some(v.clone()),
        None => parent,
    }
}

impl HmclVersionSettings {
    /// Lays a child document's settings over the inherited ones.
    pub fn overlay(&mut self, child: &HmclVersionSettings)
        ensures
            *final(self) == overlay_spec(*old(self), *child),
    {
        let mut parent = HmclVersionSettings {
            java_args: None,
            min_memory: None,
            max_memory: None,
            perm_size: None,
            width: None,
            height: None,
            fullscreen: None,
            server_ip: None,
            server_port: None,
            uses_global: None,
            java_dir: None,
            default_java_path: None,
        };
        std::mem::swap(&mut parent, self);
        *self = HmclVersionSettings {
            java_args: or_string(&child.java_args, parent.java_args),
            min_memory: match child.min_memory {
                Some(v) => Some(v),
                None => parent.min_memory,
            },
            max_memory: match child.max_memory {
                Some(v) => Some(v),
                None => parent.max_memory,
            },
            perm_size: or_string(&child.perm_size, parent.perm_size),
            width: match child.width {
                Some(v) => Some(v),
                None => parent.width,
            },
            height: match child.height {
                Some(v) => Some(v),
                None => parent.height,
            },
            fullscreen: match child.fullscreen {
                Some(v) => Some(v),
                None => parent.fullscreen,
            },
            server_ip: or_string(&child.server_ip, parent.server_ip),
            server_port: match child.server_port {
                Some(v) => Some(v),
                None => parent.server_port,
            },
            uses_global: match child.uses_global {
                Some(v) => Some(v),
                None => parent.uses_global,
            },
            java_dir: or_string(&child.java_dir, parent.java_dir),
            default_java_path: or_string(&child.default_java_path, parent.default_java_path),
        };
    }
}

/// Laying settings over themselves changes nothing, and laying two children in turn
/// is laying the second over the first: the nearer document always wins.
pub proof fn law_overlay_nearest_wins(
    base: HmclVersionSettings,
    first: HmclVersionSettings,
    second: HmclVersionSettings,
)
    ensures
        overlay_spec(base, base) == base,
        overlay_spec(overlay_spec(base, first), second) == overlay_spec(base, overlay_spec(first, second)),
{
}

/// A version document names its version: the JSON text is an object whose `id` is a
/// string that is not blank.
pub open spec fn is_version_document_spec(text: Seq<char>) -> bool {
    match crate::logshare::json_string_at(text, "/id"@) {
        Some(id) => crate::text::trim_spec(id).len() > 0,
        None => false,
    }
}

/// Whether the text of a JSON file is a Minecraft version document.
pub fn is_minecraft_version_document(text: &str) -> (r: bool)
    ensures
        r == is_version_document_spec(text@),
{
    match crate::logshare::json_text_string_at(text, "/id") {
        Some(id) => {
            let trimmed = crate::text::trim_string(id.as_str());
            !trimmed.as_str().is_empty()
        },
        None => false,
    }
}

/// A `.json` file of a version folder: its path and, when it could be read, its text.
#[derive(Clone, Debug)]
pub struct VersionJsonCandidate {
    pub path: String,
    pub text: Option<String>,
}

/// The candidate is a readable version document.
pub open spec fn candidate_is_document(c: VersionJsonCandidate) -> bool {
    match c.text {
        Some(t) => is_version_document_spec(t@),
        None => false,
    }
}

/// The candidates that are version documents, in order.
pub open spec fn document_candidates(cs: Seq<VersionJsonCandidate>) -> Seq<VersionJsonCandidate> {
    cs.filter(|c: VersionJsonCandidate| candidate_is_document(c))
}

/// Which version document a version folder launches with: the conventional
/// `<version>.json` when it is one; otherwise the one document among the folder's JSON
/// files; none, or several, is an input error naming the folder.
pub open spec fn discover_version_json_spec(
    version_dir: Seq<char>,
    conventional: Seq<char>,
    conventional_text: Option<Seq<char>>,
    candidates: Seq<VersionJsonCandidate>,
) -> Result<Seq<char>, Seq<char>> {
    let docs = document_candidates(candidates);
    if conventional_text matches Some(t) && is_version_document_spec(t) {
        Ok(conventional)
    } else if docs.len() == 1 {
        Ok(docs[0].path@)
    } else if docs.len() == 0 {
        Err("No version JSON found in "@ + version_dir)
    } else {
        Err("Multiple version JSON files found in "@ + version_dir + "; expected "@ + conventional
            + " or one unique fallback"@)
    }
}

/// Picks the version document of a version folder (see `discover_version_json_spec`).
pub fn discover_version_json(
    version_dir: &str,
    conventional: &str,
    conventional_text: Option<&str>,
    candidates: &Vec<VersionJsonCandidate>,
) -> (r: Result<String, ErrorKind>)
    ensures
        match discover_version_json_spec(
            version_dir@,
            conventional@,
            match conventional_text {
                Some(t) => Some(t@),
                None => None,
            },
            candidates@,
        ) {
            Ok(p) => r matches Ok(q) && q@ == p,
            Err(m) => r matches Err(ErrorKind::InputError(e)) && e@ == m,
        },
{
    if let Some(t) = conventional_text {
        if is_minecraft_version_document(t) {
            return Ok(to_owned_string(conventional));
        }
    }
    let ghost docs = document_candidates(candidates@);
    let mut count: usize = 0;
    let mut first: usize = 0;
    let mut i: usize = 0;
    while i < candidates.len()
        invariant
            i <= candidates.len(),
            count == document_candidates(candidates@.take(i as int)).len(),
            count <= i,
            count > 0 ==> first < candidates.len() && document_candidates(candidates@.take(i as int))[0]
                == candidates@[first as int],
        decreases candidates.len() - i,
    {
        let ghost prefix = candidates@.take(i as int);
        proof {
            assert(candidates@.take(i + 1) =~= prefix.push(candidates@[i as int]));
            prefix.lemma_filter_push(candidates@[i as int], |c: VersionJsonCandidate| candidate_is_document(c));
        }
        let is_doc = match &candidates[i].text {
            Some(t) => is_minecraft_version_document(t.as_str()),
            None => false,
        };
        if is_doc {
            if count == 0 {
                first = i;
            }
            count = count + 1;
        }
        i = i + 1;
    }
    assert(candidates@.take(candidates.len() as int) =~= candidates@);
    if count == 1 {
        Ok(candidates[first].path.clone())
    } else if count == 0 {
        let mut m = to_owned_string("No version JSON found in ");
        m.append(version_dir);
        Err(ErrorKind::InputError(m))
    } else {
        let mut m = to_owned_string("Multiple version JSON files found in ");
        m.append(version_dir);
        m.append("; expected ");
        m.append(conventional);
        m.append(" or one unique fallback");
        Err(ErrorKind::InputError(m))
    }
}

} // verus!
