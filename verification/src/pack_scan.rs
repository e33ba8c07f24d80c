//! The decisions of importing a local pack file whose format is not recognized: it is
//! scanned for packs nested inside it, a few levels deep, and refused when none is
//! found.
use vstd::prelude::*;

use crate::cache::{to_lowercase_string, unicode_lowercase};
use crate::error::{input_error, ErrorKind};
use crate::text::{decimal_spec, decimal_string, ends_with_spec, str_ends_with, to_owned_string};

verus! {

/// How many levels of nested archives are scanned.
pub const MAX_PACK_SCAN_DEPTH: u64 = 3;

/// An archive entry that may be a nested pack: its lower-cased name ends in `.zip` or
/// `.mrpack`.
pub open spec fn is_nested_pack_name(name: Seq<char>) -> bool {
    let lower = unicode_lowercase(name);
    ends_with_spec(lower, ".zip"@) || ends_with_spec(lower, ".mrpack"@)
}

/// Positions of the entries that may be nested packs, in archive order.
pub open spec fn nested_pack_entries_spec(names: Seq<String>) -> Seq<int>
    decreases names.len(),
{
    if names.len() == 0 {
        Seq::empty()
    } else {
        nested_pack_entries_spec(names.drop_last()) + if is_nested_pack_name(names.last()@) {
            seq![names.len() - 1]
        } else {
            Seq::<int>::empty()
        }
    }
}

/// The entries of an archive that may be nested packs (see `is_nested_pack_name`).
pub fn nested_pack_entries(names: &Vec<String>) -> (r: Vec<usize>)
    ensures
        r@.map_values(|i: usize| i as int) == nested_pack_entries_spec(names@),
{
    let mut out: Vec<usize> = Vec::new();
    let mut i: usize = 0;
    while i < names.len()
        invariant
            i <= names.len(),
            out@.map_values(|x: usize| x as int) == nested_pack_entries_spec(names@.take(i as int)),
        decreases names.len() - i,
    {
        assert(names@.take(i + 1).drop_last() =~= names@.take(i as int));
        assert(names@.take(i + 1).last() == names@[i as int]);
        let ghost before = out@;
        let lower = to_lowercase_string(names[i].as_str());
        if str_ends_with(lower.as_str(), ".zip") || str_ends_with(lower.as_str(), ".mrpack") {
            out.push(i);
            assert(out@.map_values(|x: usize| x as int) =~= before.map_values(|x: usize| x as int) + seq![i as int]);
        } else {
            assert(out@.map_values(|x: usize| x as int) =~= before.map_values(|x: usize| x as int)
                + Seq::<int>::empty());
        }
        i = i + 1;
    }
    assert(names@.take(names.len() as int) =~= names@);
    out
}

/// Whether a pack at `current_depth` is scanned for nested packs.
pub fn scans_deeper(current_depth: u64) -> (r: bool)
    ensures
        r == (current_depth < MAX_PACK_SCAN_DEPTH),
{
    current_depth < MAX_PACK_SCAN_DEPTH
}

/// The title shown while a pack is scanned: `Scanning {file} (level {depth}/{max})`.
pub fn scanning_title(filename: &str, current_depth: u64) -> (r: String)
    ensures
        r@ == "Scanning "@ + filename@ + " (level "@ + decimal_spec(current_depth as nat) + "/"@
            + decimal_spec(MAX_PACK_SCAN_DEPTH as nat) + ")"@,
{
    let mut r = to_owned_string("Scanning ");
    r.append(filename);
    r.append(" (level ");
    let depth = decimal_string(current_depth);
    r.append(depth.as_str());
    r.append("/");
    let max = decimal_string(MAX_PACK_SCAN_DEPTH);
    r.append(max.as_str());
    r.append(")");
    r
}

/// The error of a pack in which no known manifest was found, at any level.
pub fn unrecognized_pack_error() -> (e: ErrorKind)
    ensures
        e matches ErrorKind::InputError(m) && m@
            == "Unrecognized modpack format: no known pack manifest was found in the archive"@,
{
    input_error("Unrecognized modpack format: no known pack manifest was found in the archive")
}

} // verus!
