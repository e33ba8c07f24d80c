//! How HMCL collapses the libraries of a merged version: one entry per library
//! coordinate and rule set, the newest version winning.
use vstd::prelude::*;

use crate::launcher::{compare_version_text, compare_versions_spec, coordinate_parts, coordinate_parts_spec};
use crate::text::{str_eq, str_starts_with, starts_with_spec};

verus! {

/// What deduplication reads of a library declaration.
#[derive(Clone, Debug)]
pub struct HmclLibraryKey {
    /// The `group:artifact:version[:classifier]` name.
    pub name: String,
    /// The library's `rules` as compact JSON text (UTF-8 bytes), if they serialize.
    pub rules: Option<Vec<u8>>,
    /// The whole declaration as compact JSON text (UTF-8 bytes), if it serializes.
    pub declaration: Option<Vec<u8>>,
    /// The declaration carries native payloads.
    pub is_native: bool,
}

/// The bytes of optional serialized JSON.
pub open spec fn json_view(j: Option<Vec<u8>>) -> Option<Seq<u8>> {
    match j {
        Some(v) => Some(v@),
        None => None,
    }
}

/// One serialized declaration is longer than another; a missing one is shorter than any.
pub open spec fn longer_declaration(a: Option<Seq<u8>>, b: Option<Seq<u8>>) -> bool {
    match (a, b) {
        (Some(x), Some(y)) => x.len() > y.len(),
        (Some(_), None) => true,
        (None, _) => false,
    }
}

/// Where library `k` goes, given the kept slots from position `j` on: the first kept
/// library with the same group, artifact and rules decides. A newer version replaces
/// it; an equal version is a duplicate when the declarations are equal, is skipped
/// when the names or native payloads differ, and otherwise replaces it when its
/// declaration is longer; an older version is dropped. With no such slot, `k` is added.
pub open spec fn place_library(libs: Seq<HmclLibraryKey>, kept: Seq<usize>, k: int, j: int) -> Seq<usize>
    decreases kept.len() - j,
{
    if j < 0 || j >= kept.len() {
        kept.push(k as usize)
    } else {
        let lib = libs[k];
        let other = libs[kept[j] as int];
        match (coordinate_parts_spec(lib.name@), coordinate_parts_spec(other.name@)) {
            (Some((g, a, v)), Some((og, oa, ov))) => if g != og || a != oa || json_view(lib.rules) != json_view(
                other.rules,
            ) {
                place_library(libs, kept, k, j + 1)
            } else if compare_versions_spec(v, ov) > 0 {
                kept.update(j, k as usize)
            } else if compare_versions_spec(v, ov) == 0 {
                if json_view(lib.declaration) == json_view(other.declaration) {
                    kept
                } else if lib.name@ != other.name@ || lib.is_native != other.is_native {
                    place_library(libs, kept, k, j + 1)
                } else if longer_declaration(json_view(lib.declaration), json_view(other.declaration)) {
                    kept.update(j, k as usize)
                } else {
                    kept
                }
            } else {
                kept
            },
            (None, _) => kept.push(k as usize),
            (Some(_), None) => place_library(libs, kept, k, j + 1),
        }
    }
}

/// The kept slots after the first `n` libraries, as positions in `libs`.
pub open spec fn unique_library_slots(libs: Seq<HmclLibraryKey>, n: int) -> Seq<usize>
    decreases n,
{
    if n <= 0 {
        Seq::empty()
    } else {
        place_library(libs, unique_library_slots(libs, n - 1), n - 1, 0)
    }
}

/// Whether a library declares native payloads: it has `natives`, or a download
/// classifier whose name starts with `native`.
pub open spec fn library_is_native_spec(has_natives: bool, classifiers: Seq<String>) -> bool {
    has_natives || exists|i: int| 0 <= i < classifiers.len() && starts_with_spec(#[trigger] classifiers[i]@, "native"@)
}

/// Whether a library declares native payloads.
pub fn hmcl_library_is_native(has_natives: bool, classifiers: &Vec<String>) -> (r: bool)
    ensures
        r == library_is_native_spec(has_natives, classifiers@),
{
    if has_natives {
        return true;
    }
    let mut i: usize = 0;
    while i < classifiers.len()
        invariant
            i <= classifiers.len(),
            forall|j: int| 0 <= j < i ==> !starts_with_spec(#[trigger] classifiers@[j]@, "native"@),
        decreases classifiers.len() - i,
    {
        if str_starts_with(classifiers[i].as_str(), "native") {
            return true;
        }
        i = i + 1;
    }
    false
}

/// Whether two optional byte strings are equal.
fn json_eq(a: &Option<Vec<u8>>, b: &Option<Vec<u8>>) -> (r: bool)
    ensures
        r == (json_view(*a) == json_view(*b)),
{
    match (a, b) {
        (Some(x), Some(y)) => {
            if x.len() != y.len() {
                return false;
            }
            let mut i: usize = 0;
            while i < x.len()
                invariant
                    i <= x.len() == y.len(),
                    json_view(*a) == Some(x@),
                    json_view(*b) == Some(y@),
                    forall|j: int| 0 <= j < i ==> x@[j] == y@[j],
                decreases x.len() - i,
            {
                if x[i] != y[i] {
                    assert(x@[i as int] != y@[i as int]);
                    return false;
                }
                i = i + 1;
            }
            assert(x@ =~= y@);
            true
        },
        (None, None) => true,
        _ => false,
    }
}

/// Whether one serialized declaration is longer than another.
fn is_longer(a: &Option<Vec<u8>>, b: &Option<Vec<u8>>) -> (r: bool)
    ensures
        r == longer_declaration(json_view(*a), json_view(*b)),
{
    match (a, b) {
        (Some(x), Some(y)) => x.len() > y.len(),
        (Some(_), None) => true,
        (None, _) => false,
    }
}

/// Places library `k` among the kept slots (see `place_library`).
fn place_library_exec(libs: &Vec<HmclLibraryKey>, kept: &mut Vec<usize>, k: usize)
    requires
        k < libs.len(),
        forall|j: int| 0 <= j < old(kept)@.len() ==> #[trigger] old(kept)@[j] < libs.len(),
    ensures
        final(kept)@ == place_library(libs@, old(kept)@, k as int, 0),
        forall|j: int| 0 <= j < final(kept)@.len() ==> #[trigger] final(kept)@[j] < libs.len(),
{
    let lib = &libs[k];
    let (g, a, v) = match coordinate_parts(lib.name.as_str()) {
        Some(parts) => parts,
        None => {
            kept.push(k);
            return;
        },
    };
    let mut j: usize = 0;
    while j < kept.len()
        invariant
            j <= kept.len(),
            k < libs.len(),
            *lib == libs@[k as int],
            kept@ == old(kept)@,
            forall|i: int| 0 <= i < kept@.len() ==> #[trigger] kept@[i] < libs.len(),
            coordinate_parts_spec(libs@[k as int].name@) == Some((g@, a@, v@)),
            place_library(libs@, kept@, k as int, 0) == place_library(libs@, kept@, k as int, j as int),
        decreases kept.len() - j,
    {
        let other = &libs[kept[j]];
        let ghost other_v = libs@[kept@[j as int] as int];
        assert(*other == other_v);
        let (og, oa, ov) = match coordinate_parts(other.name.as_str()) {
            Some(parts) => parts,
            None => {
                assert(coordinate_parts_spec(other_v.name@) is None);
                j = j + 1;
                continue;
            },
        };
        assert(coordinate_parts_spec(other_v.name@) == Some((og@, oa@, ov@)));
        if !str_eq(g.as_str(), og.as_str()) || !str_eq(a.as_str(), oa.as_str()) || !json_eq(&lib.rules, &other.rules) {
            j = j + 1;
            continue;
        }
        let c = compare_version_text(v.as_str(), ov.as_str());
        if c > 0 {
            kept.set(j, k);
            return;
        }
        if c == 0 {
            if json_eq(&lib.declaration, &other.declaration) {
                return;
            }
            if !str_eq(lib.name.as_str(), other.name.as_str()) || lib.is_native != other.is_native {
                j = j + 1;
                continue;
            }
            if is_longer(&lib.declaration, &other.declaration) {
                kept.set(j, k);
            }
            return;
        }
        return;
    }
    kept.push(k);
}

/// The libraries HMCL keeps, as positions in `libs`, in the order of their slots: each
/// library either takes a new slot or is settled against the first kept library with
/// its group, artifact and rules (see `place_library`).
pub fn hmcl_unique_libraries(libs: &Vec<HmclLibraryKey>) -> (r: Vec<usize>)
    ensures
        r@ == unique_library_slots(libs@, libs@.len() as int),
        forall|j: int| 0 <= j < r@.len() ==> #[trigger] r@[j] < libs@.len(),
{
    let mut kept: Vec<usize> = Vec::new();
    let mut k: usize = 0;
    while k < libs.len()
        invariant
            k <= libs.len(),
            kept@ == unique_library_slots(libs@, k as int),
            forall|j: int| 0 <= j < kept@.len() ==> #[trigger] kept@[j] < libs.len(),
        decreases libs.len() - k,
    {
        place_library_exec(libs, &mut kept, k);
        k = k + 1;
    }
    kept
}

} // verus!
