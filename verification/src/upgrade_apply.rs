//! What applying an upgrade does with its staged changes and its dependency changes:
//! which staged changes are applied and which skipped, and which dependencies are
//! removed or switched on or off.
use vstd::prelude::*;

use crate::text::{str_eq, to_owned_string};
use crate::upgrade::{lists_path, path_listed, upgrade_mutation_conflicts, StagedUpgradeMutation};
use crate::upgrade_warnings::{InstanceUpgradeDependencyChange, InstanceUpgradeDependencyChangeKind, InstanceUpgradeItem};

verus! {

/// What is done for one dependency change.
#[derive(Clone, Debug)]
pub enum DependencyAction {
    /// Nothing: the change adds or upgrades, names no installed content, or its file
    /// was changed outside the launcher.
    Nothing,
    /// The dependency's file is removed.
    Remove(String),
    /// The dependency's file is kept, switched on or off.
    SetEnabled(String, bool),
}

/// A dependency action as plain values.
pub enum DependencyActionView {
    Nothing,
    Remove(Seq<char>),
    SetEnabled(Seq<char>, bool),
}

/// The view of a dependency action.
pub open spec fn action_view(a: DependencyAction) -> DependencyActionView {
    match a {
        DependencyAction::Nothing => DependencyActionView::Nothing,
        DependencyAction::Remove(p) => DependencyActionView::Remove(p@),
        DependencyAction::SetEnabled(p, e) => DependencyActionView::SetEnabled(p@, e),
    }
}

/// The views of dependency actions.
pub open spec fn action_views(v: Seq<DependencyAction>) -> Seq<DependencyActionView> {
    v.map_values(|a: DependencyAction| action_view(a))
}

/// What an upgrade applies: the staged changes applied (by index), the paths left
/// alone, and one action per dependency change.
#[derive(Clone, Debug)]
pub struct UpgradeApplyPlan {
    pub applied: Vec<usize>,
    pub skipped: Vec<String>,
    pub dependency_actions: Vec<DependencyAction>,
}

/// A staged change is skipped when it conflicts with an external change, or when the
/// file it replaces changed after staging.
pub open spec fn mutation_skipped(m: StagedUpgradeMutation, changed: bool, external: Seq<String>) -> bool {
    ||| path_listed(external, m.target_path@)
    ||| (m.existing_path matches Some(p) && path_listed(external, p@))
    ||| changed
}

/// Indices of the staged changes that are applied, in order.
pub open spec fn applied_indices(ms: Seq<StagedUpgradeMutation>, changed: Seq<bool>, external: Seq<String>) -> Seq<int>
    decreases ms.len(),
{
    if ms.len() == 0 {
        Seq::empty()
    } else {
        applied_indices(ms.drop_last(), changed.drop_last(), external) + if mutation_skipped(
            ms.last(),
            changed.last(),
            external,
        ) {
            Seq::<int>::empty()
        } else {
            seq![ms.len() - 1]
        }
    }
}

/// Targets of the staged changes that are skipped, in order.
pub open spec fn skipped_targets(ms: Seq<StagedUpgradeMutation>, changed: Seq<bool>, external: Seq<String>) -> Seq<Seq<char>>
    decreases ms.len(),
{
    if ms.len() == 0 {
        Seq::empty()
    } else {
        skipped_targets(ms.drop_last(), changed.drop_last(), external) + if mutation_skipped(
            ms.last(),
            changed.last(),
            external,
        ) {
            seq![ms.last().target_path@]
        } else {
            Seq::<Seq<char>>::empty()
        }
    }
}

/// The path of the installed content with id `id`: that of the last item with it.
pub open spec fn item_path_for(items: Seq<InstanceUpgradeItem>, id: Seq<char>) -> Option<Seq<char>>
    decreases items.len(),
{
    if items.len() == 0 {
        None
    } else if items.last().content_id@ == id {
        Some(items.last().relative_path@)
    } else {
        item_path_for(items.drop_last(), id)
    }
}

/// The installed file a dependency change is about, if any.
pub open spec fn change_path(items: Seq<InstanceUpgradeItem>, c: InstanceUpgradeDependencyChange) -> Option<Seq<char>> {
    match c.existing_content_id {
        Some(id) => item_path_for(items, id@),
        None => None,
    }
}

/// The actions for the dependency changes and the skipped paths after them, starting
/// from the paths `skipped` of the staged changes; `changed` says, per change, whether
/// its file changed after staging.
pub open spec fn dependency_plan(
    items: Seq<InstanceUpgradeItem>,
    changes: Seq<InstanceUpgradeDependencyChange>,
    changed: Seq<bool>,
    external: Seq<String>,
    skipped: Seq<Seq<char>>,
) -> (Seq<DependencyActionView>, Seq<Seq<char>>)
    decreases changes.len(),
{
    if changes.len() == 0 {
        (Seq::empty(), skipped)
    } else {
        let (acts, sk) = dependency_plan(items, changes.drop_last(), changed.drop_last(), external, skipped);
        let c = changes.last();
        match change_path(items, c) {
            None => (acts.push(DependencyActionView::Nothing), sk),
            Some(p) => if path_listed(external, p) || changed.last() {
                (
                    acts.push(DependencyActionView::Nothing),
                    if c.kind == InstanceUpgradeDependencyChangeKind::Remove && !sk.contains(p) {
                        sk.push(p)
                    } else {
                        sk
                    },
                )
            } else {
                match c.kind {
                    InstanceUpgradeDependencyChangeKind::Remove => (acts.push(DependencyActionView::Remove(p)), sk),
                    InstanceUpgradeDependencyChangeKind::Keep => (
                        acts.push(DependencyActionView::SetEnabled(p, c.enabled)),
                        sk,
                    ),
                    _ => (acts.push(DependencyActionView::Nothing), sk),
                }
            },
        }
    }
}

/// The installed file a dependency change is about (the last item with its content id).
pub fn dependency_change_path(items: &Vec<InstanceUpgradeItem>, change: &InstanceUpgradeDependencyChange) -> (r: Option<String>)
    ensures
        match change_path(items@, *change) {
            Some(p) => r matches Some(v) && v@ == p,
            None => r is None,
        },
{
    let id = match &change.existing_content_id {
        Some(id) => id,
        None => {
            return None;
        },
    };
    let mut j = items.len();
    assert(items@.take(j as int) =~= items@);
    while j > 0
        invariant
            j <= items.len(),
            item_path_for(items@, id@) == item_path_for(items@.take(j as int), id@),
            change.existing_content_id == Some(*id),
        decreases j,
    {
        assert(items@.take(j as int).drop_last() =~= items@.take(j - 1));
        assert(items@.take(j as int).last() == items@[j - 1]);
        if str_eq(items[j - 1].content_id.as_str(), id.as_str()) {
            assert(item_path_for(items@.take(j as int), id@) == Some(items@[j - 1].relative_path@));
            return Some(to_owned_string(items[j - 1].relative_path.as_str()));
        }
        j = j - 1;
    }
    None
}

/// Whether `v` holds `s`.
fn holds_path(v: &Vec<String>, s: &String) -> (r: bool)
    ensures
        r == v@.map_values(|x: String| x@).contains(s@),
{
    let ghost views = v@.map_values(|x: String| x@);
    let mut i: usize = 0;
    while i < v.len()
        invariant
            i <= v.len(),
            views == v@.map_values(|x: String| x@),
            forall|j: int| 0 <= j < i ==> views[j] != s@,
        decreases v.len() - i,
    {
        if str_eq(v[i].as_str(), s.as_str()) {
            assert(views[i as int] == s@);
            return true;
        }
        i = i + 1;
    }
    false
}

/// Plans how an upgrade is applied. A staged change is applied unless its target or
/// the file it replaces was changed outside the launcher, or the file it replaces
/// changed after staging (`mutation_changed`); the targets of the others are skipped.
/// Each dependency change about an installed file then removes that file (`Remove`) or
/// switches it on or off (`Keep`), unless the file was changed outside the launcher or
/// after staging (`change_changed`), in which case a removal adds the file to the
/// skipped paths (once).
pub fn plan_upgrade_apply(
    mutations: &Vec<StagedUpgradeMutation>,
    mutation_changed: &Vec<bool>,
    external: &Vec<String>,
    items: &Vec<InstanceUpgradeItem>,
    changes: &Vec<InstanceUpgradeDependencyChange>,
    change_changed: &Vec<bool>,
) -> (r: UpgradeApplyPlan)
    requires
        mutation_changed.len() == mutations.len(),
        change_changed.len() == changes.len(),
    ensures
        r.applied@.map_values(|i: usize| i as int) == applied_indices(mutations@, mutation_changed@, external@),
        ({
            let (acts, sk) = dependency_plan(
                items@,
                changes@,
                change_changed@,
                external@,
                skipped_targets(mutations@, mutation_changed@, external@),
            );
            &&& action_views(r.dependency_actions@) == acts
            &&& r.skipped@.map_values(|s: String| s@) == sk
        }),
{
    let mut applied: Vec<usize> = Vec::new();
    let mut skipped: Vec<String> = Vec::new();
    let mut i: usize = 0;
    while i < mutations.len()
        invariant
            i <= mutations.len() == mutation_changed.len(),
            applied@.map_values(|x: usize| x as int) == applied_indices(
                mutations@.take(i as int),
                mutation_changed@.take(i as int),
                external@,
            ),
            skipped@.map_values(|s: String| s@) == skipped_targets(
                mutations@.take(i as int),
                mutation_changed@.take(i as int),
                external@,
            ),
        decreases mutations.len() - i,
    {
        assert(mutations@.take(i + 1).drop_last() =~= mutations@.take(i as int));
        assert(mutation_changed@.take(i + 1).drop_last() =~= mutation_changed@.take(i as int));
        assert(mutations@.take(i + 1).last() == mutations@[i as int]);
        assert(mutation_changed@.take(i + 1).last() == mutation_changed@[i as int]);
        let ghost before_applied = applied@;
        let ghost before_skipped = skipped@;
        let m = &mutations[i];
        if upgrade_mutation_conflicts(m, external) || mutation_changed[i] {
            skipped.push(to_owned_string(m.target_path.as_str()));
            assert(applied@.map_values(|x: usize| x as int) =~= before_applied.map_values(|x: usize| x as int)
                + Seq::<int>::empty());
            assert(skipped@.map_values(|s: String| s@) =~= before_skipped.map_values(|s: String| s@) + seq![
                m.target_path@,
            ]);
        } else {
            applied.push(i);
            assert(applied@.map_values(|x: usize| x as int) =~= before_applied.map_values(|x: usize| x as int)
                + seq![i as int]);
            assert(skipped@.map_values(|s: String| s@) =~= before_skipped.map_values(|s: String| s@)
                + Seq::<Seq<char>>::empty());
        }
        i = i + 1;
    }
    assert(mutations@.take(i as int) =~= mutations@);
    assert(mutation_changed@.take(i as int) =~= mutation_changed@);
    let ghost skipped0 = skipped@.map_values(|s: String| s@);
    let mut actions: Vec<DependencyAction> = Vec::new();
    let mut k: usize = 0;
    while k < changes.len()
        invariant
            k <= changes.len() == change_changed.len(),
            skipped0 == skipped_targets(mutations@, mutation_changed@, external@),
            ({
                let (acts, sk) = dependency_plan(
                    items@,
                    changes@.take(k as int),
                    change_changed@.take(k as int),
                    external@,
                    skipped0,
                );
                &&& action_views(actions@) == acts
                &&& skipped@.map_values(|s: String| s@) == sk
            }),
        decreases changes.len() - k,
    {
        assert(changes@.take(k + 1).drop_last() =~= changes@.take(k as int));
        assert(change_changed@.take(k + 1).drop_last() =~= change_changed@.take(k as int));
        assert(changes@.take(k + 1).last() == changes@[k as int]);
        assert(change_changed@.take(k + 1).last() == change_changed@[k as int]);
        let ghost before_actions = actions@;
        let ghost before_skipped = skipped@;
        let change = &changes[k];
        let action = match dependency_change_path(items, change) {
            None => DependencyAction::Nothing,
            Some(path) => {
                if lists_path(external, &path) || change_changed[k] {
                    if change.kind == InstanceUpgradeDependencyChangeKind::Remove && !holds_path(&skipped, &path) {
                        skipped.push(path);
                        assert(skipped@.map_values(|s: String| s@) =~= before_skipped.map_values(
                            |s: String| s@,
                        ).push(skipped@.last()@));
                    }
                    DependencyAction::Nothing
                } else {
                    match change.kind {
                        InstanceUpgradeDependencyChangeKind::Remove => DependencyAction::Remove(path),
                        InstanceUpgradeDependencyChangeKind::Keep => DependencyAction::SetEnabled(path, change.enabled),
                        _ => DependencyAction::Nothing,
                    }
                }
            },
        };
        actions.push(action);
        assert(action_views(actions@) =~= action_views(before_actions).push(action_view(actions@.last())));
        k = k + 1;
    }
    assert(changes@.take(k as int) =~= changes@);
    assert(change_changed@.take(k as int) =~= change_changed@);
    UpgradeApplyPlan { applied, skipped, dependency_actions: actions }
}

} // verus!
