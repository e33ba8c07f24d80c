//! Modrinth modpack (`.mrpack`) installs: grouping of override files, staging paths,
//! required-file failures and the manifest's place in the archive.
use vstd::prelude::*;
use vstd::multiset::Multiset;

use crate::install::InstallPauseReason;
use crate::text::{
    chars_of, find_char_from, index_of_from, lemma_index_of_from, decimal_spec, decimal_string, join_spec, join_strings, str_eq, string_from_chars,
    to_owned_string,
};

verus! {

/// Required-file paths an aggregate failure shows.
pub const AGGREGATE_FAILURE_PATH_LIMIT: usize = 3;

/// Characters of a failed path that are kept.
pub const AGGREGATE_FAILURE_PATH_CHAR_LIMIT: usize = 160;

/// Characters of a failure reason that are kept.
pub const ITEM_FAILURE_REASON_CHAR_LIMIT: usize = 1024;

/// Override files extracted at the same time.
pub const OVERRIDE_EXTRACTION_CONCURRENCY: usize = 4;

/// One override file of a pack to extract.
#[derive(Clone, Debug)]
pub struct OverrideExtractionSpec {
    /// Position of the entry in the archive.
    pub index: usize,
    pub entry_name: String,
    pub crc32: u32,
    pub uncompressed_size: u64,
    pub relative_path: String,
    /// Where the file lands in the instance.
    pub target_path: String,
}

/// Index of the first group whose first file lands on `target`, or `-1`.
pub open spec fn group_position(groups: Seq<Seq<OverrideExtractionSpec>>, target: Seq<char>) -> int
    decreases groups.len(),
{
    if groups.len() == 0 {
        -1
    } else if group_position(groups.drop_last(), target) >= 0 {
        group_position(groups.drop_last(), target)
    } else if groups.last().len() > 0 && groups.last()[0].target_path@ == target {
        groups.len() - 1
    } else {
        -1
    }
}

/// The override files grouped by target: one group per target, in order of first
/// appearance, each holding its files in their original order.
pub open spec fn override_groups_spec(specs: Seq<OverrideExtractionSpec>) -> Seq<Seq<OverrideExtractionSpec>>
    decreases specs.len(),
{
    if specs.len() == 0 {
        Seq::empty()
    } else {
        let groups = override_groups_spec(specs.drop_last());
        let spec = specs.last();
        let k = group_position(groups, spec.target_path@);
        if k >= 0 {
            groups.update(k, groups[k].push(spec))
        } else {
            groups.push(seq![spec])
        }
    }
}

/// The groups are well shaped: none is empty, all files of a group share its target,
/// and no two groups share one.
pub open spec fn groups_well_shaped(groups: Seq<Seq<OverrideExtractionSpec>>) -> bool {
    &&& forall|k: int| 0 <= k < groups.len() ==> #[trigger] groups[k].len() > 0
    &&& forall|k: int, j: int|
        0 <= k < groups.len() && 0 <= j < groups[k].len() ==> #[trigger] groups[k][j].target_path@
            == groups[k][0].target_path@
    &&& forall|k: int, l: int|
        0 <= k < l < groups.len() ==> #[trigger] groups[k][0].target_path@
            != #[trigger] groups[l][0].target_path@
}

/// The number of files in the groups.
pub open spec fn grouped_count(groups: Seq<Seq<OverrideExtractionSpec>>) -> int
    decreases groups.len(),
{
    if groups.len() == 0 {
        0
    } else {
        grouped_count(groups.drop_last()) + groups.last().len()
    }
}

proof fn lemma_group_position(groups: Seq<Seq<OverrideExtractionSpec>>, target: Seq<char>)
    ensures
        -1 <= group_position(groups, target) < groups.len(),
        group_position(groups, target) >= 0 ==> groups[group_position(groups, target)].len() > 0
            && groups[group_position(groups, target)][0].target_path@ == target,
        group_position(groups, target) < 0 ==> forall|k: int|
            0 <= k < groups.len() && groups[k].len() > 0 ==> #[trigger] groups[k][0].target_path@
                != target,
    decreases groups.len(),
{
    if groups.len() > 0 {
        lemma_group_position(groups.drop_last(), target);
        if group_position(groups, target) < 0 {
            assert forall|k: int|
                0 <= k < groups.len() && groups[k].len() > 0 implies #[trigger] groups[k][0].target_path@
                != target by {
                if k < groups.len() - 1 {
                    assert(groups.drop_last()[k] == groups[k]);
                    assert(groups.drop_last()[k].len() > 0);
                    assert(groups.drop_last()[k][0].target_path@ != target);
                } else {
                    assert(groups.last() == groups[k]);
                }
            }
        }
    }
}

proof fn lemma_grouped_count_update(groups: Seq<Seq<OverrideExtractionSpec>>, k: int, g: Seq<OverrideExtractionSpec>)
    requires
        0 <= k < groups.len(),
    ensures
        grouped_count(groups.update(k, g)) == grouped_count(groups) - groups[k].len() + g.len(),
    decreases groups.len(),
{
    if k < groups.len() - 1 {
        assert(groups.update(k, g).drop_last() =~= groups.drop_last().update(k, g));
        lemma_grouped_count_update(groups.drop_last(), k, g);
    } else {
        assert(groups.update(k, g).drop_last() =~= groups.drop_last());
    }
}

/// Grouping override files by target keeps every file exactly once and gives well
/// shaped groups: files that land on one path are extracted in one group, in order,
/// and different paths never share a group.
pub proof fn law_override_groups_well_shaped(specs: Seq<OverrideExtractionSpec>)
    ensures
        groups_well_shaped(override_groups_spec(specs)),
        grouped_count(override_groups_spec(specs)) == specs.len(),
    decreases specs.len(),
{
    if specs.len() > 0 {
        law_override_groups_well_shaped(specs.drop_last());
        let groups = override_groups_spec(specs.drop_last());
        let spec = specs.last();
        lemma_group_position(groups, spec.target_path@);
        let k = group_position(groups, spec.target_path@);
        if k >= 0 {
            let next = groups.update(k, groups[k].push(spec));
            lemma_grouped_count_update(groups, k, groups[k].push(spec));
            assert forall|a: int, j: int|
                0 <= a < next.len() && 0 <= j < next[a].len() implies #[trigger] next[a][j].target_path@
                == next[a][0].target_path@ by {
                if a == k {
                    assert(next[a] == groups[k].push(spec));
                    assert(next[a][0] == groups[k][0]);
                    if j < groups[k].len() {
                        assert(next[a][j] == groups[k][j]);
                        assert(groups[k][j].target_path@ == groups[k][0].target_path@);
                    } else {
                        assert(next[a][j] == spec);
                    }
                } else {
                    assert(next[a] == groups[a]);
                    assert(groups[a][j].target_path@ == groups[a][0].target_path@);
                }
            }
            assert forall|a: int, b: int|
                0 <= a < b < next.len() implies #[trigger] next[a][0].target_path@
                != #[trigger] next[b][0].target_path@ by {
                assert(groups[a].len() > 0);
                assert(groups[b].len() > 0);
                if a == k {
                    assert(next[a] == groups[k].push(spec));
                }
                if b == k {
                    assert(next[b] == groups[k].push(spec));
                }
                assert(next[a][0] == groups[a][0]);
                assert(next[b][0] == groups[b][0]);
                assert(groups[a][0].target_path@ != groups[b][0].target_path@);
            }
        } else {
            let next = groups.push(seq![spec]);
            assert(next.drop_last() =~= groups);
            assert forall|a: int, b: int|
                0 <= a < b < next.len() implies #[trigger] next[a][0].target_path@
                != #[trigger] next[b][0].target_path@ by {
                if b == groups.len() {
                    assert(next[b][0] == spec);
                    assert(next[a] == groups[a]);
                }
            }
            assert forall|a: int, j: int|
                0 <= a < next.len() && 0 <= j < next[a].len() implies #[trigger] next[a][j].target_path@
                == next[a][0].target_path@ by {
                if a < groups.len() {
                    assert(next[a] == groups[a]);
                    assert(groups[a][j].target_path@ == groups[a][0].target_path@);
                } else {
                    assert(next[a] == seq![spec]);
                }
            }
        }
    }
}

/// The files of a list of groups, counted with multiplicity.
pub open spec fn grouped_multiset(groups: Seq<Seq<OverrideExtractionSpec>>) -> Multiset<OverrideExtractionSpec>
    decreases groups.len(),
{
    if groups.len() == 0 {
        Multiset::empty()
    } else {
        grouped_multiset(groups.drop_last()).add(groups.last().to_multiset())
    }
}

/// The override file lands on `target`.
pub open spec fn lands_on(target: Seq<char>) -> spec_fn(OverrideExtractionSpec) -> bool {
    |s: OverrideExtractionSpec| s.target_path@ == target
}

proof fn lemma_grouped_multiset_push_into(
    groups: Seq<Seq<OverrideExtractionSpec>>,
    k: int,
    spec: OverrideExtractionSpec,
)
    requires
        0 <= k < groups.len(),
    ensures
        grouped_multiset(groups.update(k, groups[k].push(spec))) == grouped_multiset(groups).insert(spec),
    decreases groups.len(),
{
    broadcast use vstd::seq_lib::group_to_multiset_ensures, vstd::multiset::group_multiset_axioms;

    let next = groups.update(k, groups[k].push(spec));
    if k < groups.len() - 1 {
        assert(next.drop_last() =~= groups.drop_last().update(k, groups.drop_last()[k].push(spec)));
        lemma_grouped_multiset_push_into(groups.drop_last(), k, spec);
        assert(next.last() == groups.last());
        assert(grouped_multiset(next) =~= grouped_multiset(groups).insert(spec));
    } else {
        assert(next.drop_last() =~= groups.drop_last());
        assert(next.last() == groups[k].push(spec));
        assert(grouped_multiset(next) =~= grouped_multiset(groups).insert(spec));
    }
}

/// Grouping override files keeps every file, each as often as it comes, and makes each
/// group exactly the files that land on its target, in their original order; every
/// file's target has a group, and the groups come in the order in which their targets
/// first occur.
pub proof fn law_override_groups_by_target(specs: Seq<OverrideExtractionSpec>)
    ensures
        grouped_multiset(override_groups_spec(specs)) == specs.to_multiset(),
        forall|k: int|
            0 <= k < override_groups_spec(specs).len() ==> #[trigger] override_groups_spec(specs)[k]
                == specs.filter(lands_on(override_groups_spec(specs)[k][0].target_path@)),
        forall|i: int|
            0 <= i < specs.len() ==> group_position(override_groups_spec(specs), #[trigger] specs[i].target_path@)
                >= 0,
        forall|k: int, l: int|
            0 <= k < l < override_groups_spec(specs).len() ==> first_index_where(
                specs,
                lands_on(#[trigger] override_groups_spec(specs)[k][0].target_path@),
            ) < first_index_where(specs, lands_on(#[trigger] override_groups_spec(specs)[l][0].target_path@)),
    decreases specs.len(),
{
    broadcast use vstd::seq_lib::group_to_multiset_ensures, vstd::multiset::group_multiset_axioms;

    reveal(Seq::filter);
    let groups = override_groups_spec(specs);
    if specs.len() == 0 {
        assert(specs.to_multiset() =~= Multiset::empty());
    } else {
        let prev = specs.drop_last();
        law_override_groups_by_target(prev);
        law_override_groups_well_shaped(prev);
        law_override_groups_well_shaped(specs);
        let g = override_groups_spec(prev);
        let spec = specs.last();
        let t = spec.target_path@;
        lemma_group_position(g, t);
        let k = group_position(g, t);
        assert(specs =~= prev.push(spec));
        assert(specs.to_multiset() =~= prev.to_multiset().insert(spec));
        // every earlier group keeps its first occurrence
        assert forall|a: int| 0 <= a < g.len() implies first_index_where(prev, lands_on(g[a][0].target_path@)) >= 0
            && first_index_where(specs, lands_on(#[trigger] g[a][0].target_path@)) == first_index_where(
            prev,
            lands_on(g[a][0].target_path@),
        ) by {
            let p = lands_on(g[a][0].target_path@);
            assert(g[a] == prev.filter(p));
            assert(prev.filter(p).len() > 0);
            prev.lemma_filter_pred(p, 0);
            assert(prev.filter(p).contains(g[a][0]));
            prev.lemma_filter_contains_rev(p, g[a][0]);
            lemma_first_index_where(prev, p, prev.len() as int);
            assert(prev.take(prev.len() as int) =~= prev);
            lemma_first_index_where(specs, p, prev.len() as int);
            assert(specs.take(prev.len() as int) =~= prev);
        }
        if k >= 0 {
            lemma_grouped_multiset_push_into(g, k, spec);
            assert forall|a: int| 0 <= a < groups.len() implies #[trigger] groups[a] == specs.filter(
                lands_on(groups[a][0].target_path@),
            ) by {
                let p = lands_on(groups[a][0].target_path@);
                if a == k {
                    assert(groups[a] == g[k].push(spec));
                    assert(groups[a][0] == g[k][0]);
                } else {
                    assert(groups[a] == g[a]);
                    assert(g[a][0].target_path@ != g[k][0].target_path@);
                }
            }
            assert forall|i: int| 0 <= i < specs.len() implies group_position(groups, #[trigger] specs[i].target_path@)
                >= 0 by {
                lemma_group_position(groups, specs[i].target_path@);
                if i < prev.len() {
                    assert(prev[i] == specs[i]);
                    lemma_group_position(g, prev[i].target_path@);
                    let b = group_position(g, prev[i].target_path@);
                    assert(groups[b][0] == g[b][0]);
                } else {
                    assert(groups[k][0] == g[k][0]);
                }
            }
            assert forall|a: int, b: int| 0 <= a < b < groups.len() implies first_index_where(
                specs,
                lands_on(#[trigger] groups[a][0].target_path@),
            ) < first_index_where(specs, lands_on(#[trigger] groups[b][0].target_path@)) by {
                assert(groups[a][0] == g[a][0]);
                assert(groups[b][0] == g[b][0]);
                assert(first_index_where(specs, lands_on(g[a][0].target_path@)) == first_index_where(prev, lands_on(g[a][0].target_path@)));
                assert(first_index_where(specs, lands_on(g[b][0].target_path@)) == first_index_where(prev, lands_on(g[b][0].target_path@)));
            }
        } else {
            // no earlier file lands on `t`
            assert forall|i: int| 0 <= i < prev.len() implies #[trigger] prev[i].target_path@ != t by {
                lemma_group_position(g, prev[i].target_path@);
                let b = group_position(g, prev[i].target_path@);
                assert(b >= 0);
                assert(g[b].len() > 0);
                assert(g[b][0].target_path@ != t);
            }
            let pt = lands_on(t);
            lemma_first_index_where(prev, pt, prev.len() as int);
            assert(prev.take(prev.len() as int) =~= prev);
            assert(prev.filter(pt) =~= Seq::empty()) by {
                if prev.filter(pt).len() > 0 {
                    prev.lemma_filter_pred(pt, 0);
                    assert(prev.filter(pt).contains(prev.filter(pt)[0]));
                    prev.lemma_filter_contains_rev(pt, prev.filter(pt)[0]);
                }
            }
            assert(groups =~= g.push(seq![spec]));
            assert(groups.drop_last() =~= g);
            assert(seq![spec].to_multiset() =~= Multiset::empty().insert(spec)) by {
                assert(Seq::<OverrideExtractionSpec>::empty().push(spec) =~= seq![spec]);
                assert(Seq::<OverrideExtractionSpec>::empty().to_multiset() =~= Multiset::empty());
            }
            assert(grouped_multiset(groups) =~= specs.to_multiset());
            assert forall|a: int| 0 <= a < groups.len() implies #[trigger] groups[a] == specs.filter(
                lands_on(groups[a][0].target_path@),
            ) by {
                if a < g.len() {
                    assert(groups[a] == g[a]);
                    assert(g[a].len() > 0);
                    assert(g[a][0].target_path@ != t);
                } else {
                    assert(groups[a] == seq![spec]);
                    assert(specs.filter(pt) =~= Seq::<OverrideExtractionSpec>::empty().push(spec));
                }
            }
            assert forall|i: int| 0 <= i < specs.len() implies group_position(groups, #[trigger] specs[i].target_path@)
                >= 0 by {
                lemma_group_position(groups, specs[i].target_path@);
                if i < prev.len() {
                    assert(prev[i] == specs[i]);
                    lemma_group_position(g, prev[i].target_path@);
                    let b = group_position(g, prev[i].target_path@);
                    assert(groups[b] == g[b]);
                } else {
                    assert(groups[g.len() as int][0] == spec);
                }
            }
            lemma_first_index_where(specs, pt, prev.len() as int);
            lemma_first_index_where(specs, pt, specs.len() as int);
            assert(specs.take(specs.len() as int) =~= specs);
            assert(specs.take(prev.len() as int) =~= prev);
            assert(first_index_where(specs, pt) == specs.len() - 1) by {
                assert(first_index_where(specs, pt) == first_index_where(specs.take(specs.len() as int), pt));
            }
            assert forall|a: int, b: int| 0 <= a < b < groups.len() implies first_index_where(
                specs,
                lands_on(#[trigger] groups[a][0].target_path@),
            ) < first_index_where(specs, lands_on(#[trigger] groups[b][0].target_path@)) by {
                assert(groups[a][0] == g[a][0]);
                lemma_first_index_where(prev, lands_on(g[a][0].target_path@), prev.len() as int);
                if b < g.len() {
                    assert(groups[b][0] == g[b][0]);
                } else {
                    assert(groups[b][0] == spec);
                }
            }
        }
    }
}

/// The views of a list of groups.
pub open spec fn group_views(groups: Seq<Vec<OverrideExtractionSpec>>) -> Seq<Seq<OverrideExtractionSpec>> {
    groups.map_values(|g: Vec<OverrideExtractionSpec>| g@)
}

/// Groups override files by target path (see `override_groups_spec`), so that files
/// with the same target are written one after another and different targets in parallel.
pub fn override_extraction_groups(specs: Vec<OverrideExtractionSpec>) -> (groups: Vec<
    Vec<OverrideExtractionSpec>,
>)
    ensures
        group_views(groups@) == override_groups_spec(specs@),
{
    let ghost all = specs@;
    let mut groups: Vec<Vec<OverrideExtractionSpec>> = Vec::new();
    for spec in it: specs.into_iter()
        invariant
            it.seq() == all,
            group_views(groups@) == override_groups_spec(all.take(it.index() as int)),
            groups_well_shaped(group_views(groups@)),
    {
        let ghost done = all.take(it.index() as int);
        proof {
            assert(all.take(it.index() + 1).drop_last() =~= done);
            assert(all.take(it.index() + 1).last() == spec);
            law_override_groups_well_shaped(all.take(it.index() + 1));
            lemma_group_position(group_views(groups@), spec.target_path@);
        }
        let found = find_group(&groups, &spec.target_path);
        match found {
            Some(k) => {
                let ghost before = groups@;
                let mut group = groups.remove(k);
                group.push(spec);
                groups.insert(k, group);
                proof {
                    assert(groups@ =~= before.update(k as int, group));
                    assert(group_views(groups@) =~= group_views(before).update(
                        k as int,
                        group_views(before)[k as int].push(spec),
                    ));
                }
            },
            None => {
                let ghost before = groups@;
                let mut group: Vec<OverrideExtractionSpec> = Vec::new();
                group.push(spec);
                groups.push(group);
                proof {
                    assert(group@ =~= seq![spec]);
                    assert(group_views(groups@) =~= group_views(before).push(seq![spec]));
                }
            },
        }
    }
    proof {
        assert(all.take(all.len() as int) =~= all);
    }
    groups
}

/// The group whose files land on `target`.
fn find_group(groups: &Vec<Vec<OverrideExtractionSpec>>, target: &String) -> (r: Option<usize>)
    requires
        groups_well_shaped(group_views(groups@)),
    ensures
        r matches Some(k) ==> k as int == group_position(group_views(groups@), target@),
        r is None ==> group_position(group_views(groups@), target@) == -1,
{
    let mut i: usize = 0;
    while i < groups.len()
        invariant
            i <= groups.len(),
            groups_well_shaped(group_views(groups@)),
            group_position(group_views(groups@).take(i as int), target@) == -1,
        decreases groups.len() - i,
    {
        proof {
            assert(group_views(groups@).take(i + 1).drop_last() =~= group_views(groups@).take(i as int));
            assert(group_views(groups@)[i as int].len() > 0);
        }
        if str_eq(groups[i][0].target_path.as_str(), target.as_str()) {
            proof {
                assert(group_views(groups@).take(i + 1).last() == group_views(groups@)[i as int]);
                lemma_group_position_prefix(group_views(groups@), target@, i + 1);
            }
            return Some(i);
        }
        i = i + 1;
    }
    assert(group_views(groups@).take(groups.len() as int) =~= group_views(groups@));
    None
}

proof fn lemma_group_position_prefix(groups: Seq<Seq<OverrideExtractionSpec>>, target: Seq<char>, n: int)
    requires
        0 <= n <= groups.len(),
        group_position(groups.take(n), target) >= 0,
    ensures
        group_position(groups, target) == group_position(groups.take(n), target),
    decreases groups.len() - n,
{
    if n < groups.len() {
        assert(groups.take(n + 1).drop_last() =~= groups.take(n));
        lemma_group_position_prefix(groups, target, n + 1);
    } else {
        assert(groups.take(n) =~= groups);
    }
}

/// `target` with `suffix` appended.
fn with_suffix(target: &str, suffix: &str) -> (r: String)
    ensures
        r@ == target@ + suffix@,
{
    let mut r = to_owned_string(target);
    r.append(suffix);
    r
}

/// Where a pack file is downloaded before it replaces its target.
pub fn mrpack_staged_download_path(target_path: &str) -> (r: String)
    ensures
        r@ == target_path@ + ".installing.download"@,
{
    with_suffix(target_path, ".installing.download")
}

/// Where an override file is extracted before it replaces its target.
pub fn mrpack_override_staging_path(target_path: &str) -> (r: String)
    ensures
        r@ == target_path@ + ".installing"@,
{
    with_suffix(target_path, ".installing")
}

/// `value` cut to `max_chars` characters, with `...` when something was cut.
pub open spec fn bounded_text_spec(value: Seq<char>, max_chars: nat) -> Seq<char> {
    if value.len() > max_chars {
        value.take(max_chars as int) + "..."@
    } else {
        value
    }
}

/// Cuts `value` to `max_chars` characters, marking the cut with `...`.
pub fn bounded_text(value: &str, max_chars: usize) -> (r: String)
    ensures
        r@ == bounded_text_spec(value@, max_chars as nat),
{
    let chars = chars_of(value);
    if chars.len() > max_chars {
        let mut r = string_from_chars(&chars, 0, max_chars);
        r.append("...");
        proof {
            assert(chars@.subrange(0, max_chars as int) =~= value@.take(max_chars as int));
        }
        r
    } else {
        to_owned_string(value)
    }
}

/// A required pack file that could not be installed.
#[derive(Clone, Debug, PartialEq, Eq)]
pub struct RequiredFileFailure {
    pub manifest_index: usize,
    pub path: String,
    pub reason: String,
}

impl RequiredFileFailure {
    /// A failure with its path and reason cut to their limits.
    pub fn new(manifest_index: usize, path: &str, reason: &str) -> (f: Self)
        ensures
            f.manifest_index == manifest_index,
            f.path@ == bounded_text_spec(path@, AGGREGATE_FAILURE_PATH_CHAR_LIMIT as nat),
            f.reason@ == bounded_text_spec(reason@, ITEM_FAILURE_REASON_CHAR_LIMIT as nat),
    {
        RequiredFileFailure {
            manifest_index,
            path: bounded_text(path, AGGREGATE_FAILURE_PATH_CHAR_LIMIT),
            reason: bounded_text(reason, ITEM_FAILURE_REASON_CHAR_LIMIT),
        }
    }
}

/// How many failures an aggregate shows: at most three.
pub open spec fn shown_failures(n: nat) -> nat {
    if n < AGGREGATE_FAILURE_PATH_LIMIT {
        n
    } else {
        AGGREGATE_FAILURE_PATH_LIMIT as nat
    }
}

/// The paths of failures.
pub open spec fn failure_paths(failures: Seq<RequiredFileFailure>) -> Seq<Seq<char>> {
    failures.map_values(|f: RequiredFileFailure| f.path@)
}

/// The summary of failed required files: how many failed, the first three paths, and
/// how many more there are.
pub open spec fn failures_message(failures: Seq<RequiredFileFailure>) -> Seq<char> {
    let n = failures.len();
    let shown = shown_failures(n);
    let head = decimal_spec(n) + " required modpack file"@ + (if n == 1 {
        ""@
    } else {
        "s"@
    }) + " failed"@;
    let with_paths = if shown > 0 {
        head + ": "@ + join_spec(failure_paths(failures.take(shown as int)), ", "@)
    } else {
        head
    };
    if n > shown {
        with_paths + " (+"@ + decimal_spec((n - shown) as nat) + " more)"@
    } else {
        with_paths
    }
}

/// The paths of the first `count` failures.
fn first_failure_paths(failures: &[RequiredFileFailure], count: usize) -> (paths: Vec<String>)
    requires
        count <= failures@.len(),
    ensures
        paths@.map_values(|p: String| p@) == failure_paths(failures@.take(count as int)),
{
    let mut paths: Vec<String> = Vec::new();
    let mut i: usize = 0;
    while i < count
        invariant
            i <= count <= failures@.len(),
            paths@.len() == i,
            forall|j: int| 0 <= j < i ==> #[trigger] paths@[j]@ == failures@[j].path@,
        decreases count - i,
    {
        paths.push(failures[i].path.clone());
        i = i + 1;
    }
    assert(paths@.map_values(|p: String| p@) =~= failure_paths(failures@.take(count as int)));
    paths
}

/// A list of failed required files, summarised for the user.
pub struct RequiredFileFailures<'a>(pub &'a [RequiredFileFailure]);

impl<'a> RequiredFileFailures<'a> {
    /// The summary (see `failures_message`).
    pub fn to_string(&self) -> (r: String)
        ensures
            r@ == failures_message(self.0@),
    {
        let failures = self.0;
        let n = failures.len();
        let ghost all = failures@;
        let ghost count = all.len();
        let ghost shown_spec = shown_failures(count);
        let ghost head = decimal_spec(count) + " required modpack file"@ + (if count == 1 {
            ""@
        } else {
            "s"@
        }) + " failed"@;
        let mut r = decimal_string(n as u64);
        r.append(" required modpack file");
        if n != 1 {
            r.append("s");
        } else {
            proof {
                reveal_strlit("");
                assert(r@ + ""@ =~= r@);
            }
        }
        r.append(" failed");
        assert(r@ == head);
        let shown: usize = if n < AGGREGATE_FAILURE_PATH_LIMIT {
            n
        } else {
            AGGREGATE_FAILURE_PATH_LIMIT
        };
        assert(shown == shown_spec);
        let paths = first_failure_paths(failures, shown);
        if shown > 0 {
            r.append(": ");
            let slice = paths.as_slice();
            assert(slice@ == paths@);
            let joined = join_strings(slice, ", ");
            r.append(joined.as_str());
        }
        let ghost with_paths = r@;
        if n > shown {
            r.append(" (+");
            let more = decimal_string((n - shown) as u64);
            r.append(more.as_str());
            r.append(" more)");
            assert(r@ == with_paths + " (+"@ + decimal_spec((count - shown_spec) as nat) + " more)"@);
        }
        r
    }
}

/// The pause a pack install needs for its failed required files: none without
/// failures, else a missing-content pause with their number and first three paths.
pub fn missing_required_content_pause(failures: &[RequiredFileFailure]) -> (r: Option<InstallPauseReason>)
    ensures
        failures@.len() == 0 ==> r is None,
        failures@.len() > 0 ==> (r matches Some(InstallPauseReason::MissingRequiredContent {
            failed_files,
            paths,
        }) && failed_files == failures@.len() && paths@.map_values(|p: String| p@) == failure_paths(
            failures@.take(shown_failures(failures@.len()) as int),
        )),
{
    if failures.len() == 0 {
        return None;
    }
    let n = failures.len();
    let shown: usize = if n < AGGREGATE_FAILURE_PATH_LIMIT {
        n
    } else {
        AGGREGATE_FAILURE_PATH_LIMIT
    };
    let paths = first_failure_paths(failures, shown);
    Some(InstallPauseReason::MissingRequiredContent { failed_files: n as u64, paths })
}

/// A file listed in a pack manifest, as far as the install reads it.
#[derive(Clone, Debug)]
pub struct PackFile {
    pub path: String,
    /// Addresses the file can be downloaded from.
    pub downloads: Vec<String>,
}

/// The attempts a pack file may take: two per address, at least one.
pub fn estimated_file_max_attempts(file: &PackFile) -> (r: usize)
    ensures
        r == if file.downloads@.len() * 2 > usize::MAX {
            usize::MAX as int
        } else if file.downloads@.len() == 0 {
            1int
        } else {
            file.downloads@.len() * 2 as int
        },
{
    let n = file.downloads.len();
    if n > usize::MAX / 2 {
        usize::MAX
    } else if n == 0 {
        1
    } else {
        n * 2
    }
}

/// Where a pack comes from: bytes that were downloaded, or a file on disk.
#[derive(Clone, Debug)]
pub enum CreatePackFile {
    Bytes(Vec<u8>),
    Path(String),
}

/// How a pack's source is named in messages.
pub fn pack_source_path(file: &CreatePackFile) -> (r: String)
    ensures
        match file {
            CreatePackFile::Bytes(_) => r@ == "downloaded mrpack bytes"@,
            CreatePackFile::Path(p) => r@ == p@,
        },
{
    match file {
        CreatePackFile::Bytes(_) => to_owned_string("downloaded mrpack bytes"),
        CreatePackFile::Path(path) => path.clone(),
    }
}

/// Where installed content came from.
#[derive(PartialEq, Eq, Structural, Clone, Copy, Debug)]
pub enum ContentSourceKind {
    ModrinthModpack,
    ImportedModpack,
}

/// A pack with a Modrinth version is a Modrinth modpack; any other was imported.
pub fn modpack_source_kind(version_id: Option<&str>) -> (r: ContentSourceKind)
    ensures
        version_id is Some <==> r == ContentSourceKind::ModrinthModpack,
        version_id is None <==> r == ContentSourceKind::ImportedModpack,
{
    if version_id.is_some() {
        ContentSourceKind::ModrinthModpack
    } else {
        ContentSourceKind::ImportedModpack
    }
}

/// Index of the first element of `s` satisfying `p`, or `-1`.
pub open spec fn first_index_where<A>(s: Seq<A>, p: spec_fn(A) -> bool) -> int
    decreases s.len(),
{
    if s.len() == 0 {
        -1
    } else if first_index_where(s.drop_last(), p) >= 0 {
        first_index_where(s.drop_last(), p)
    } else if p(s.last()) {
        s.len() - 1
    } else {
        -1
    }
}

/// What `first_index_where` finds, and that an element found in a prefix is the one found.
pub proof fn lemma_first_index_where<A>(s: Seq<A>, p: spec_fn(A) -> bool, n: int)
    requires
        0 <= n <= s.len(),
    ensures
        first_index_where(s.take(n), p) >= 0 ==> first_index_where(s, p) == first_index_where(s.take(n), p),
        -1 <= first_index_where(s, p) < s.len(),
        first_index_where(s, p) >= 0 ==> p(s[first_index_where(s, p)]),
        first_index_where(s, p) < 0 ==> forall|i: int| 0 <= i < s.len() ==> !p(#[trigger] s[i]),
    decreases s.len() - n,
{
    if n < s.len() {
        assert(s.take(n + 1).drop_last() =~= s.take(n));
        lemma_first_index_where(s, p, n + 1);
    } else {
        assert(s.take(n) =~= s);
        lemma_first_index_where_bounds(s, p);
    }
}

proof fn lemma_first_index_where_bounds<A>(s: Seq<A>, p: spec_fn(A) -> bool)
    ensures
        -1 <= first_index_where(s, p) < s.len(),
        first_index_where(s, p) >= 0 ==> p(s[first_index_where(s, p)]),
        first_index_where(s, p) < 0 ==> forall|i: int| 0 <= i < s.len() ==> !p(#[trigger] s[i]),
    decreases s.len(),
{
    if s.len() > 0 {
        lemma_first_index_where_bounds(s.drop_last(), p);
        if first_index_where(s, p) < 0 {
            assert forall|i: int| 0 <= i < s.len() implies !p(#[trigger] s[i]) by {
                if i < s.len() - 1 {
                    assert(s.drop_last()[i] == s[i]);
                }
            }
        }
    }
}

/// The entry is the manifest at the archive's root.
pub open spec fn is_root_manifest(name: Option<String>) -> bool {
    name matches Some(n) && n@ == "modrinth.index.json"@
}

/// The folder (with its `/`) of an entry that is the manifest one folder deep.
pub open spec fn nested_manifest_base(name: Option<String>) -> Option<Seq<char>> {
    match name {
        Some(n) => {
            let k = index_of_from(n@, '/', 0);
            if k >= 0 && n@.subrange(k + 1, n@.len() as int) == "modrinth.index.json"@ {
                Some(n@.take(k + 1))
            } else {
                None
            }
        },
        None => None,
    }
}

/// Where the manifest of a pack is: the root entry `modrinth.index.json` if there is
/// one, else the first such entry one folder deep, with that folder as archive base.
pub open spec fn manifest_location(entries: Seq<Option<String>>) -> Option<(int, Seq<char>)> {
    let root = first_index_where(entries, |e: Option<String>| is_root_manifest(e));
    let nested = first_index_where(entries, |e: Option<String>| nested_manifest_base(e) is Some);
    if root >= 0 {
        Some((root, Seq::empty()))
    } else if nested >= 0 {
        Some((nested, nested_manifest_base(entries[nested]).unwrap()))
    } else {
        None
    }
}

/// The folder of an entry name that is the manifest one folder deep.
fn nested_base_of(name: &Option<String>) -> (r: Option<String>)
    ensures
        match nested_manifest_base(*name) {
            Some(b) => r matches Some(v) && v@ == b,
            None => r is None,
        },
{
    match name {
        Some(n) => {
            let chars = chars_of(n.as_str());
            proof {
                lemma_index_of_from(chars@, '/', 0);
            }
            match find_char_from(&chars, '/', 0) {
                Some(k) => {
                    let rest = string_from_chars(&chars, k + 1, chars.len());
                    if str_eq(rest.as_str(), "modrinth.index.json") {
                        proof {
                            assert(chars@.subrange(0, k + 1) =~= n@.take(k + 1));
                        }
                        Some(string_from_chars(&chars, 0, k + 1))
                    } else {
                        None
                    }
                },
                None => None,
            }
        },
        None => None,
    }
}

/// Finds the manifest entry of a pack and its archive base (see `manifest_location`);
/// an entry whose name is not UTF-8 is `None`.
pub fn locate_mrpack_manifest(entry_names: &[Option<String>]) -> (r: Option<(usize, String)>)
    ensures
        match manifest_location(entry_names@) {
            Some((i, base)) => r matches Some((j, b)) && j == i && b@ == base,
            None => r is None,
        },
{
    let ghost root_p = |e: Option<String>| is_root_manifest(e);
    let ghost nested_p = |e: Option<String>| nested_manifest_base(e) is Some;
    let mut i: usize = 0;
    while i < entry_names.len()
        invariant
            i <= entry_names.len(),
            first_index_where(entry_names@.take(i as int), root_p) == -1,
            root_p == (|e: Option<String>| is_root_manifest(e)),
        decreases entry_names.len() - i,
    {
        assert(entry_names@.take(i + 1).drop_last() =~= entry_names@.take(i as int));
        let is_root = match &entry_names[i] {
            Some(n) => str_eq(n.as_str(), "modrinth.index.json"),
            None => false,
        };
        if is_root {
            proof {
                assert(entry_names@.take(i + 1).last() == entry_names@[i as int]);
                lemma_first_index_where(entry_names@, root_p, i + 1);
            }
            return Some((i, String::new()));
        }
        i = i + 1;
    }
    proof {
        lemma_first_index_where(entry_names@, root_p, entry_names@.len() as int);
        assert(entry_names@.take(entry_names@.len() as int) =~= entry_names@);
    }
    let mut j: usize = 0;
    while j < entry_names.len()
        invariant
            j <= entry_names.len(),
            first_index_where(entry_names@.take(j as int), nested_p) == -1,
            first_index_where(entry_names@, root_p) == -1,
            root_p == (|e: Option<String>| is_root_manifest(e)),
            nested_p == (|e: Option<String>| nested_manifest_base(e) is Some),
        decreases entry_names.len() - j,
    {
        assert(entry_names@.take(j + 1).drop_last() =~= entry_names@.take(j as int));
        match nested_base_of(&entry_names[j]) {
            Some(base) => {
                proof {
                    assert(entry_names@.take(j + 1).last() == entry_names@[j as int]);
                    lemma_first_index_where(entry_names@, nested_p, j + 1);
                }
                return Some((j, base));
            },
            None => {},
        }
        j = j + 1;
    }
    proof {
        assert(entry_names@.take(entry_names@.len() as int) =~= entry_names@);
    }
    None
}

/// A failure as plain values.
pub open spec fn failure_view(f: RequiredFileFailure) -> (usize, Seq<char>, Seq<char>) {
    (f.manifest_index, f.path@, f.reason@)
}

/// Failures as plain values.
pub open spec fn failure_views(v: Seq<RequiredFileFailure>) -> Seq<(usize, Seq<char>, Seq<char>)> {
    v.map_values(|f: RequiredFileFailure| failure_view(f))
}

/// The failures are in manifest order.
pub open spec fn in_manifest_order(v: Seq<RequiredFileFailure>) -> bool {
    forall|i: int, j: int| 0 <= i < j < v.len() ==> #[trigger] v[i].manifest_index <= #[trigger] v[j].manifest_index
}

/// Adds a failure to failures in manifest order, after those with the same index.
fn insert_in_manifest_order(sorted: &mut Vec<RequiredFileFailure>, failure: RequiredFileFailure)
    requires
        in_manifest_order(old(sorted)@),
    ensures
        in_manifest_order(final(sorted)@),
        failure_views(final(sorted)@).to_multiset() == failure_views(old(sorted)@).to_multiset().insert(
            failure_view(failure),
        ),
{
    let mut k: usize = 0;
    while k < sorted.len()
        invariant
            k <= sorted.len(),
            sorted@ == old(sorted)@,
            forall|j: int| 0 <= j < k ==> #[trigger] sorted@[j].manifest_index <= failure.manifest_index,
        ensures
            k <= sorted.len(),
            sorted@ == old(sorted)@,
            forall|j: int| 0 <= j < k ==> #[trigger] sorted@[j].manifest_index <= failure.manifest_index,
            k < sorted.len() ==> sorted@[k as int].manifest_index > failure.manifest_index,
        decreases sorted.len() - k,
    {
        if sorted[k].manifest_index > failure.manifest_index {
            break;
        }
        k = k + 1;
    }
    let ghost before = sorted@;
    let ghost fv = failure_view(failure);
    sorted.insert(k, failure);
    proof {
        let bv = failure_views(before);
        assert(failure_views(sorted@) =~= bv.insert(k as int, fv));
        vstd::seq_lib::to_multiset_insert(bv, k as int, fv);
        assert forall|i: int, j: int| 0 <= i < j < sorted@.len() implies #[trigger] sorted@[i].manifest_index
            <= #[trigger] sorted@[j].manifest_index by {
            if j < k {
                assert(sorted@[i] == before[i] && sorted@[j] == before[j]);
            } else if j == k {
                assert(sorted@[i] == before[i]);
            } else if i == k {
                assert(sorted@[j] == before[j - 1]);
                if j - 1 > k {
                    assert(before[k as int].manifest_index <= before[j - 1].manifest_index);
                }
            } else if i < k {
                assert(sorted@[i] == before[i]);
                assert(sorted@[j] == before[j - 1]);
            } else {
                assert(sorted@[i] == before[i - 1]);
                assert(sorted@[j] == before[j - 1]);
            }
        }
    }
}

/// The failures gathered from concurrent tasks, put in manifest order (failures with the
/// same index in no particular order).
pub fn order_required_file_failures(failures: Vec<RequiredFileFailure>) -> (r: Vec<RequiredFileFailure>)
    ensures
        in_manifest_order(r@),
        failure_views(r@).to_multiset() == failure_views(failures@).to_multiset(),
{
    let ghost all = failure_views(failures@);
    let mut sorted: Vec<RequiredFileFailure> = Vec::new();
    proof {
        assert(failure_views(sorted@) =~= all.take(0));
    }
    for failure in it: failures.into_iter()
        invariant
            failure_views(it.seq()) == all,
            in_manifest_order(sorted@),
            failure_views(sorted@).to_multiset() == all.take(it.index() as int).to_multiset(),
    {
        proof {
            assert(all.take(it.index() + 1) =~= all.take(it.index() as int).push(failure_view(failure)));
            vstd::seq_lib::to_multiset_build(all.take(it.index() as int), failure_view(failure));
        }
        insert_in_manifest_order(&mut sorted, failure);
    }
    proof {
        assert(all.take(all.len() as int) =~= all);
    }
    sorted
}

} // verus!
