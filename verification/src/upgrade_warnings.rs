//! The compatibility warnings an upgrade shows: which content they concern, and the
//! warnings a piece of content's own state calls for.
use vstd::prelude::*;

use crate::install::copy_opt_string;
use crate::text::str_eq;

verus! {

/// Where a piece of content comes from.
#[derive(PartialEq, Eq, Structural, Clone, Copy, Debug)]
pub enum ContentProvider {
    Modrinth,
    CurseForge,
    McArchive,
    Local,
}

/// What an upgrade does with a piece of content.
#[derive(PartialEq, Eq, Structural, Clone, Copy, Debug)]
pub enum InstanceUpgradeAction {
    Keep,
    Upgrade,
}

/// How a piece of content fares in the target environment.
#[derive(PartialEq, Eq, Structural, Clone, Copy, Debug)]
pub enum InstanceUpgradeItemStatus {
    Compatible,
    UpgradeAvailable,
    NoCompatibleRelease,
    Unidentified,
    UnsupportedContentType,
    NoCompatibleShaderRuntime,
    ShaderRuntimeMissing,
    ShaderRuntimeUnknown,
}

/// The kinds of upgrade warning.
#[derive(PartialEq, Eq, Structural, Clone, Copy, Debug)]
pub enum InstanceUpgradeIssueCode {
    Unidentified,
    UnsupportedContentType,
    KeepIncompatible,
    NoCompatibleShaderRuntime,
    ShaderRuntimeMissing,
    ShaderRuntimeUnknown,
    DependencyConflict,
}

/// The planned action for a piece of content.
#[derive(Clone, Debug)]
pub struct InstanceUpgradeResolution {
    pub action: InstanceUpgradeAction,
}

/// A piece of content of the instance being upgraded.
#[derive(Clone, Debug)]
pub struct InstanceUpgradeItem {
    pub content_id: String,
    pub relative_path: String,
    pub provider: ContentProvider,
    pub project_id: Option<String>,
    pub status: InstanceUpgradeItemStatus,
    pub resolution: InstanceUpgradeResolution,
}

/// The user's choice for a piece of content, with the release it is upgraded to.
#[derive(Clone, Debug)]
pub struct InstanceUpgradeSelection {
    pub content_id: String,
    pub action: InstanceUpgradeAction,
    pub provider: Option<ContentProvider>,
    pub project_id: Option<String>,
    pub target_release_id: Option<String>,
    pub enabled: bool,
}

/// What an upgrade does to a dependency.
#[derive(PartialEq, Eq, Structural, Clone, Copy, Debug)]
pub enum InstanceUpgradeDependencyChangeKind {
    Add,
    Upgrade,
    Remove,
    Keep,
}

/// A change to a dependency that the upgrade's solution calls for.
#[derive(Clone, Debug)]
pub struct InstanceUpgradeDependencyChange {
    pub kind: InstanceUpgradeDependencyChangeKind,
    pub existing_content_id: Option<String>,
    pub provider: ContentProvider,
    pub project_id: String,
    pub target_release_id: Option<String>,
    pub enabled: bool,
}

/// The user's choices and the dependency changes they call for.
#[derive(Clone, Debug)]
pub struct InstanceUpgradeSolution {
    pub selections: Vec<InstanceUpgradeSelection>,
    pub dependency_changes: Vec<InstanceUpgradeDependencyChange>,
}

/// A warning the upgrade plan raised.
#[derive(Clone, Debug)]
pub struct InstanceUpgradeWarning {
    pub code: InstanceUpgradeIssueCode,
    pub content_id: Option<String>,
    pub provider: ContentProvider,
    pub project_id: Option<String>,
    pub conflicting_project_id: Option<String>,
}

/// An upgrade as it is carried out.
#[derive(Clone, Debug)]
pub struct InstanceUpgradeExecution {
    pub items: Vec<InstanceUpgradeItem>,
    pub warnings: Vec<InstanceUpgradeWarning>,
    pub solution: InstanceUpgradeSolution,
}

/// A warning shown to the user, tied to a file where possible.
#[derive(Clone, Debug, PartialEq, Eq)]
pub struct InstanceUpgradeCompatibilityWarning {
    pub code: InstanceUpgradeIssueCode,
    pub relative_path: Option<String>,
    pub content_id: Option<String>,
    pub provider: ContentProvider,
    pub project_id: Option<String>,
    pub conflicting_project_id: Option<String>,
}

/// The view of an optional string.
pub open spec fn ov(s: Option<String>) -> Option<Seq<char>> {
    match s {
        Some(v) => Some(v@),
        None => None,
    }
}

/// The action the user chose for `content_id` (the first choice), if any.
pub open spec fn selected_action(selections: Seq<InstanceUpgradeSelection>, content_id: Seq<char>) -> Option<InstanceUpgradeAction>
    decreases selections.len(),
{
    if selections.len() == 0 {
        None
    } else {
        match selected_action(selections.drop_last(), content_id) {
            Some(a) => Some(a),
            None => if selections.last().content_id@ == content_id {
                Some(selections.last().action)
            } else {
                None
            },
        }
    }
}

/// The action that applies to an item: the user's choice, else the planned one.
pub open spec fn effective_action(execution: InstanceUpgradeExecution, item: InstanceUpgradeItem) -> InstanceUpgradeAction {
    match selected_action(execution.solution.selections@, item.content_id@) {
        Some(a) => a,
        None => item.resolution.action,
    }
}

/// The warning an item's own state calls for: unidentified and unsupported content
/// always; content that has no compatible release (or has an upgrade), or whose shader
/// runtime is missing, unknown or incompatible, when it is kept.
pub open spec fn physical_code_spec(execution: InstanceUpgradeExecution, item: InstanceUpgradeItem) -> Option<InstanceUpgradeIssueCode> {
    let keep = effective_action(execution, item) == InstanceUpgradeAction::Keep;
    match item.status {
        InstanceUpgradeItemStatus::Unidentified => Some(InstanceUpgradeIssueCode::Unidentified),
        InstanceUpgradeItemStatus::UnsupportedContentType => Some(InstanceUpgradeIssueCode::UnsupportedContentType),
        InstanceUpgradeItemStatus::NoCompatibleRelease | InstanceUpgradeItemStatus::UpgradeAvailable => if keep {
            Some(InstanceUpgradeIssueCode::KeepIncompatible)
        } else {
            None
        },
        InstanceUpgradeItemStatus::NoCompatibleShaderRuntime => if keep {
            Some(InstanceUpgradeIssueCode::NoCompatibleShaderRuntime)
        } else {
            None
        },
        InstanceUpgradeItemStatus::ShaderRuntimeMissing => if keep {
            Some(InstanceUpgradeIssueCode::ShaderRuntimeMissing)
        } else {
            None
        },
        InstanceUpgradeItemStatus::ShaderRuntimeUnknown => if keep {
            Some(InstanceUpgradeIssueCode::ShaderRuntimeUnknown)
        } else {
            None
        },
        InstanceUpgradeItemStatus::Compatible => None,
    }
}

/// The action the user chose for `content_id`.
fn find_selected_action(selections: &Vec<InstanceUpgradeSelection>, content_id: &String) -> (r: Option<InstanceUpgradeAction>)
    ensures
        r == selected_action(selections@, content_id@),
{
    let mut i: usize = 0;
    while i < selections.len()
        invariant
            i <= selections.len(),
            selected_action(selections@.take(i as int), content_id@) is None,
        decreases selections.len() - i,
    {
        assert(selections@.take(i + 1).drop_last() =~= selections@.take(i as int));
        if str_eq(selections[i].content_id.as_str(), content_id.as_str()) {
            proof {
                lemma_selected_prefix(selections@, content_id@, i + 1);
            }
            return Some(selections[i].action);
        }
        i = i + 1;
    }
    assert(selections@.take(selections.len() as int) =~= selections@);
    None
}

proof fn lemma_selected_prefix(selections: Seq<InstanceUpgradeSelection>, content_id: Seq<char>, n: int)
    requires
        0 <= n <= selections.len(),
        selected_action(selections.take(n), content_id) is Some,
    ensures
        selected_action(selections, content_id) == selected_action(selections.take(n), content_id),
    decreases selections.len() - n,
{
    if n < selections.len() {
        assert(selections.take(n + 1).drop_last() =~= selections.take(n));
        lemma_selected_prefix(selections, content_id, n + 1);
    } else {
        assert(selections.take(n) =~= selections);
    }
}

/// The warning an item's own state calls for (see `physical_code_spec`).
pub fn physical_upgrade_warning_code(execution: &InstanceUpgradeExecution, item: &InstanceUpgradeItem) -> (r: Option<InstanceUpgradeIssueCode>)
    ensures
        r == physical_code_spec(*execution, *item),
{
    let action = match find_selected_action(&execution.solution.selections, &item.content_id) {
        Some(a) => a,
        None => item.resolution.action,
    };
    let keep = action == InstanceUpgradeAction::Keep;
    match item.status {
        InstanceUpgradeItemStatus::Unidentified => Some(InstanceUpgradeIssueCode::Unidentified),
        InstanceUpgradeItemStatus::UnsupportedContentType => Some(InstanceUpgradeIssueCode::UnsupportedContentType),
        InstanceUpgradeItemStatus::NoCompatibleRelease | InstanceUpgradeItemStatus::UpgradeAvailable => if keep {
            Some(InstanceUpgradeIssueCode::KeepIncompatible)
        } else {
            None
        },
        InstanceUpgradeItemStatus::NoCompatibleShaderRuntime => if keep {
            Some(InstanceUpgradeIssueCode::NoCompatibleShaderRuntime)
        } else {
            None
        },
        InstanceUpgradeItemStatus::ShaderRuntimeMissing => if keep {
            Some(InstanceUpgradeIssueCode::ShaderRuntimeMissing)
        } else {
            None
        },
        InstanceUpgradeItemStatus::ShaderRuntimeUnknown => if keep {
            Some(InstanceUpgradeIssueCode::ShaderRuntimeUnknown)
        } else {
            None
        },
        InstanceUpgradeItemStatus::Compatible => None,
    }
}

/// Whether two optional strings hold the same text.
pub fn opt_text_eq(a: &Option<String>, b: &Option<String>) -> (r: bool)
    ensures
        r == (ov(*a) == ov(*b)),
{
    match (a, b) {
        (Some(x), Some(y)) => str_eq(x.as_str(), y.as_str()),
        (None, None) => true,
        _ => false,
    }
}

/// Whether some warning of the plan has this code.
pub open spec fn code_warned(warnings: Seq<InstanceUpgradeWarning>, code: InstanceUpgradeIssueCode) -> bool {
    exists|i: int| 0 <= i < warnings.len() && #[trigger] warnings[i].code == code
}

/// Whether some detail has this code.
pub open spec fn detail_code_present(details: Seq<InstanceUpgradeCompatibilityWarning>, code: InstanceUpgradeIssueCode) -> bool {
    exists|i: int| 0 <= i < details.len() && #[trigger] details[i].code == code
}

/// The detail for an item whose own state calls for `code`.
pub open spec fn item_detail(item: InstanceUpgradeItem, code: InstanceUpgradeIssueCode) -> InstanceUpgradeCompatibilityWarning {
    InstanceUpgradeCompatibilityWarning {
        code,
        relative_path: Some(item.relative_path),
        content_id: Some(item.content_id),
        provider: item.provider,
        project_id: item.project_id,
        conflicting_project_id: None,
    }
}

/// The details the items' own states call for, in item order, keeping only those
/// whose code the plan also warned of.
pub open spec fn physical_details_spec(execution: InstanceUpgradeExecution, items: Seq<InstanceUpgradeItem>) -> Seq<InstanceUpgradeCompatibilityWarning>
    decreases items.len(),
{
    if items.len() == 0 {
        Seq::empty()
    } else {
        let prev = physical_details_spec(execution, items.drop_last());
        match physical_code_spec(execution, items.last()) {
            Some(code) => if code_warned(execution.warnings@, code) {
                prev.push(item_detail(items.last(), code))
            } else {
                prev
            },
            None => prev,
        }
    }
}

/// The position of the first item with this content id.
pub open spec fn first_content_match(items: Seq<InstanceUpgradeItem>, content_id: Seq<char>) -> Option<int>
    decreases items.len(),
{
    if items.len() == 0 {
        None
    } else {
        match first_content_match(items.drop_last(), content_id) {
            Some(i) => Some(i),
            None => if items.last().content_id@ == content_id {
                Some(items.len() - 1)
            } else {
                None
            },
        }
    }
}

/// Whether an item comes from this provider and project.
pub open spec fn project_matches(item: InstanceUpgradeItem, provider: ContentProvider, project_id: Option<Seq<char>>) -> bool {
    item.provider == provider && ov(item.project_id) == project_id
}

/// How many items come from this provider and project.
pub open spec fn project_match_count(items: Seq<InstanceUpgradeItem>, provider: ContentProvider, project_id: Option<Seq<char>>) -> nat
    decreases items.len(),
{
    if items.len() == 0 {
        0
    } else {
        project_match_count(items.drop_last(), provider, project_id)
            + if project_matches(items.last(), provider, project_id) { 1nat } else { 0nat }
    }
}

/// The position of the first item from this provider and project.
pub open spec fn first_project_match(items: Seq<InstanceUpgradeItem>, provider: ContentProvider, project_id: Option<Seq<char>>) -> Option<int>
    decreases items.len(),
{
    if items.len() == 0 {
        None
    } else {
        match first_project_match(items.drop_last(), provider, project_id) {
            Some(i) => Some(i),
            None => if project_matches(items.last(), provider, project_id) {
                Some(items.len() - 1)
            } else {
                None
            },
        }
    }
}

/// The item a warning concerns: the first with its content id, else the only one
/// from its provider and project.
pub open spec fn warning_item(items: Seq<InstanceUpgradeItem>, warning: InstanceUpgradeWarning) -> Option<int> {
    let by_content = match warning.content_id {
        Some(c) => first_content_match(items, c@),
        None => None,
    };
    match by_content {
        Some(i) => Some(i),
        None => if project_match_count(items, warning.provider, ov(warning.project_id)) == 1 {
            first_project_match(items, warning.provider, ov(warning.project_id))
        } else {
            None
        },
    }
}

/// The detail shown for a warning of the plan; none for a warning that concerns no
/// item when an item's own state already stands for its code.
pub open spec fn warning_detail(
    items: Seq<InstanceUpgradeItem>,
    physical: Seq<InstanceUpgradeCompatibilityWarning>,
    warning: InstanceUpgradeWarning,
) -> Option<InstanceUpgradeCompatibilityWarning> {
    match warning_item(items, warning) {
        Some(i) => Some(InstanceUpgradeCompatibilityWarning {
            code: warning.code,
            relative_path: Some(items[i].relative_path),
            content_id: Some(items[i].content_id),
            provider: warning.provider,
            project_id: warning.project_id,
            conflicting_project_id: warning.conflicting_project_id,
        }),
        None => if detail_code_present(physical, warning.code) {
            None
        } else {
            Some(InstanceUpgradeCompatibilityWarning {
                code: warning.code,
                relative_path: None,
                content_id: warning.content_id,
                provider: warning.provider,
                project_id: warning.project_id,
                conflicting_project_id: warning.conflicting_project_id,
            })
        },
    }
}

/// The details for the plan's warnings, in order.
pub open spec fn warning_details_spec(
    items: Seq<InstanceUpgradeItem>,
    physical: Seq<InstanceUpgradeCompatibilityWarning>,
    warnings: Seq<InstanceUpgradeWarning>,
) -> Seq<InstanceUpgradeCompatibilityWarning>
    decreases warnings.len(),
{
    if warnings.len() == 0 {
        Seq::empty()
    } else {
        let prev = warning_details_spec(items, physical, warnings.drop_last());
        match warning_detail(items, physical, warnings.last()) {
            Some(d) => prev.push(d),
            None => prev,
        }
    }
}

/// Whether two details share code, content id and path.
pub open spec fn same_detail_key(a: InstanceUpgradeCompatibilityWarning, b: InstanceUpgradeCompatibilityWarning) -> bool {
    a.code == b.code && ov(a.content_id) == ov(b.content_id) && ov(a.relative_path) == ov(b.relative_path)
}

/// Whether some detail shares the key of `d`.
pub open spec fn has_detail_key(details: Seq<InstanceUpgradeCompatibilityWarning>, d: InstanceUpgradeCompatibilityWarning) -> bool {
    exists|i: int| 0 <= i < details.len() && same_detail_key(#[trigger] details[i], d)
}

/// `details` with each of `extra` appended, in order, unless one with its key is already there.
pub open spec fn merge_details_spec(
    details: Seq<InstanceUpgradeCompatibilityWarning>,
    extra: Seq<InstanceUpgradeCompatibilityWarning>,
) -> Seq<InstanceUpgradeCompatibilityWarning>
    decreases extra.len(),
{
    if extra.len() == 0 {
        details
    } else {
        let merged = merge_details_spec(details, extra.drop_last());
        if has_detail_key(merged, extra.last()) {
            merged
        } else {
            merged.push(extra.last())
        }
    }
}

/// The compatibility warnings an upgrade shows: one per warning of the plan, tied to
/// the item it concerns, then those that items' own states call for and that are not
/// already shown.
pub open spec fn compatibility_warning_details_spec(execution: InstanceUpgradeExecution) -> Seq<InstanceUpgradeCompatibilityWarning> {
    let physical = physical_details_spec(execution, execution.items@);
    merge_details_spec(warning_details_spec(execution.items@, physical, execution.warnings@), physical)
}

/// An index as an integer.
pub open spec fn opt_index(r: Option<usize>) -> Option<int> {
    match r {
        Some(i) => Some(i as int),
        None => None,
    }
}

proof fn lemma_first_content_prefix(items: Seq<InstanceUpgradeItem>, content_id: Seq<char>, n: int)
    requires
        0 <= n <= items.len(),
        first_content_match(items.take(n), content_id) is Some,
    ensures
        first_content_match(items, content_id) == first_content_match(items.take(n), content_id),
    decreases items.len() - n,
{
    if n < items.len() {
        assert(items.take(n + 1).drop_last() =~= items.take(n));
        lemma_first_content_prefix(items, content_id, n + 1);
    } else {
        assert(items.take(n) =~= items);
    }
}

proof fn lemma_first_content_bound(items: Seq<InstanceUpgradeItem>, content_id: Seq<char>)
    ensures
        first_content_match(items, content_id) matches Some(i) ==> 0 <= i < items.len()
            && items[i].content_id@ == content_id,
    decreases items.len(),
{
    if items.len() > 0 {
        lemma_first_content_bound(items.drop_last(), content_id);
    }
}

/// The position of the first item with this content id.
fn find_content_item(items: &Vec<InstanceUpgradeItem>, content_id: &String) -> (r: Option<usize>)
    ensures
        opt_index(r) == first_content_match(items@, content_id@),
        r matches Some(i) ==> i < items.len(),
{
    let mut i: usize = 0;
    while i < items.len()
        invariant
            i <= items.len(),
            first_content_match(items@.take(i as int), content_id@) is None,
        decreases items.len() - i,
    {
        assert(items@.take(i + 1).drop_last() =~= items@.take(i as int));
        if str_eq(items[i].content_id.as_str(), content_id.as_str()) {
            proof {
                lemma_first_content_prefix(items@, content_id@, i + 1);
            }
            return Some(i);
        }
        i = i + 1;
    }
    assert(items@.take(items.len() as int) =~= items@);
    None
}

proof fn lemma_first_project_bound(items: Seq<InstanceUpgradeItem>, provider: ContentProvider, project_id: Option<Seq<char>>)
    ensures
        first_project_match(items, provider, project_id) matches Some(i) ==> 0 <= i < items.len(),
        project_match_count(items, provider, project_id) <= items.len(),
    decreases items.len(),
{
    if items.len() > 0 {
        lemma_first_project_bound(items.drop_last(), provider, project_id);
    }
}

/// How many items come from this provider and project, and the first of them.
fn project_item_matches(items: &Vec<InstanceUpgradeItem>, provider: ContentProvider, project_id: &Option<String>) -> (r: (usize, Option<usize>))
    ensures
        r.0 == project_match_count(items@, provider, ov(*project_id)),
        opt_index(r.1) == first_project_match(items@, provider, ov(*project_id)),
        r.1 matches Some(i) ==> i < items.len(),
{
    let mut count: usize = 0;
    let mut first: Option<usize> = None;
    let mut i: usize = 0;
    while i < items.len()
        invariant
            i <= items.len(),
            count == project_match_count(items@.take(i as int), provider, ov(*project_id)),
            opt_index(first) == first_project_match(items@.take(i as int), provider, ov(*project_id)),
            first matches Some(k) ==> k < i,
        decreases items.len() - i,
    {
        assert(items@.take(i + 1).drop_last() =~= items@.take(i as int));
        proof {
            lemma_first_project_bound(items@.take(i as int), provider, ov(*project_id));
        }
        if items[i].provider == provider && opt_text_eq(&items[i].project_id, project_id) {
            count = count + 1;
            if first.is_none() {
                first = Some(i);
            }
        }
        i = i + 1;
    }
    assert(items@.take(items.len() as int) =~= items@);
    (count, first)
}

/// The item a warning concerns (see `warning_item`).
fn find_warning_item(items: &Vec<InstanceUpgradeItem>, warning: &InstanceUpgradeWarning) -> (r: Option<usize>)
    ensures
        opt_index(r) == warning_item(items@, *warning),
        r matches Some(i) ==> i < items.len(),
{
    let by_content = match &warning.content_id {
        Some(c) => find_content_item(items, c),
        None => None,
    };
    match by_content {
        Some(i) => Some(i),
        None => {
            let (count, first) = project_item_matches(items, warning.provider, &warning.project_id);
            if count == 1 {
                first
            } else {
                None
            }
        },
    }
}

/// Whether some warning of the plan has this code.
fn any_warning_has_code(warnings: &Vec<InstanceUpgradeWarning>, code: InstanceUpgradeIssueCode) -> (r: bool)
    ensures
        r == code_warned(warnings@, code),
{
    let mut i: usize = 0;
    while i < warnings.len()
        invariant
            i <= warnings.len(),
            forall|j: int| 0 <= j < i ==> #[trigger] warnings@[j].code != code,
        decreases warnings.len() - i,
    {
        if warnings[i].code == code {
            assert(warnings@[i as int].code == code);
            return true;
        }
        i = i + 1;
    }
    false
}

/// Whether some detail has this code.
fn any_detail_has_code(details: &Vec<InstanceUpgradeCompatibilityWarning>, code: InstanceUpgradeIssueCode) -> (r: bool)
    ensures
        r == detail_code_present(details@, code),
{
    let mut i: usize = 0;
    while i < details.len()
        invariant
            i <= details.len(),
            forall|j: int| 0 <= j < i ==> #[trigger] details@[j].code != code,
        decreases details.len() - i,
    {
        if details[i].code == code {
            assert(details@[i as int].code == code);
            return true;
        }
        i = i + 1;
    }
    false
}

/// Whether some detail shares the key of `d`.
fn any_detail_has_key(details: &Vec<InstanceUpgradeCompatibilityWarning>, d: &InstanceUpgradeCompatibilityWarning) -> (r: bool)
    ensures
        r == has_detail_key(details@, *d),
{
    let mut i: usize = 0;
    while i < details.len()
        invariant
            i <= details.len(),
            forall|j: int| 0 <= j < i ==> !same_detail_key(#[trigger] details@[j], *d),
        decreases details.len() - i,
    {
        let e = &details[i];
        if e.code == d.code && opt_text_eq(&e.content_id, &d.content_id) && opt_text_eq(&e.relative_path, &d.relative_path) {
            assert(same_detail_key(details@[i as int], *d));
            return true;
        }
        i = i + 1;
    }
    false
}

impl InstanceUpgradeCompatibilityWarning {
    /// A copy of this warning.
    pub fn duplicate(&self) -> (r: Self)
        ensures
            r == *self,
    {
        InstanceUpgradeCompatibilityWarning {
            code: self.code,
            relative_path: copy_opt_string(&self.relative_path),
            content_id: copy_opt_string(&self.content_id),
            provider: self.provider,
            project_id: copy_opt_string(&self.project_id),
            conflicting_project_id: copy_opt_string(&self.conflicting_project_id),
        }
    }
}

/// The details the items' own states call for (see `physical_details_spec`).
fn physical_details(execution: &InstanceUpgradeExecution) -> (r: Vec<InstanceUpgradeCompatibilityWarning>)
    ensures
        r@ == physical_details_spec(*execution, execution.items@),
{
    let items = &execution.items;
    let mut out: Vec<InstanceUpgradeCompatibilityWarning> = Vec::new();
    let mut i: usize = 0;
    while i < items.len()
        invariant
            i <= items.len(),
            items == &execution.items,
            out@ == physical_details_spec(*execution, items@.take(i as int)),
        decreases items.len() - i,
    {
        assert(items@.take(i + 1).drop_last() =~= items@.take(i as int));
        let item = &items[i];
        match physical_upgrade_warning_code(execution, item) {
            Some(code) => {
                if any_warning_has_code(&execution.warnings, code) {
                    out.push(InstanceUpgradeCompatibilityWarning {
                        code,
                        relative_path: Some(item.relative_path.clone()),
                        content_id: Some(item.content_id.clone()),
                        provider: item.provider,
                        project_id: copy_opt_string(&item.project_id),
                        conflicting_project_id: None,
                    });
                }
            },
            None => {},
        }
        i = i + 1;
    }
    assert(items@.take(items.len() as int) =~= items@);
    out
}

/// The details for the plan's warnings (see `warning_details_spec`).
fn warning_details(
    items: &Vec<InstanceUpgradeItem>,
    physical: &Vec<InstanceUpgradeCompatibilityWarning>,
    warnings: &Vec<InstanceUpgradeWarning>,
) -> (r: Vec<InstanceUpgradeCompatibilityWarning>)
    ensures
        r@ == warning_details_spec(items@, physical@, warnings@),
{
    let mut out: Vec<InstanceUpgradeCompatibilityWarning> = Vec::new();
    let mut i: usize = 0;
    while i < warnings.len()
        invariant
            i <= warnings.len(),
            out@ == warning_details_spec(items@, physical@, warnings@.take(i as int)),
        decreases warnings.len() - i,
    {
        assert(warnings@.take(i + 1).drop_last() =~= warnings@.take(i as int));
        let warning = &warnings[i];
        match find_warning_item(items, warning) {
            Some(k) => {
                out.push(InstanceUpgradeCompatibilityWarning {
                    code: warning.code,
                    relative_path: Some(items[k].relative_path.clone()),
                    content_id: Some(items[k].content_id.clone()),
                    provider: warning.provider,
                    project_id: copy_opt_string(&warning.project_id),
                    conflicting_project_id: copy_opt_string(&warning.conflicting_project_id),
                });
            },
            None => {
                if !any_detail_has_code(physical, warning.code) {
                    out.push(InstanceUpgradeCompatibilityWarning {
                        code: warning.code,
                        relative_path: None,
                        content_id: copy_opt_string(&warning.content_id),
                        provider: warning.provider,
                        project_id: copy_opt_string(&warning.project_id),
                        conflicting_project_id: copy_opt_string(&warning.conflicting_project_id),
                    });
                }
            },
        }
        i = i + 1;
    }
    assert(warnings@.take(warnings.len() as int) =~= warnings@);
    out
}

/// The compatibility warnings an upgrade shows (see `compatibility_warning_details_spec`).
pub fn upgrade_compatibility_warning_details(execution: &InstanceUpgradeExecution) -> (r: Vec<InstanceUpgradeCompatibilityWarning>)
    ensures
        r@ == compatibility_warning_details_spec(*execution),
{
    let physical = physical_details(execution);
    let mut details = warning_details(&execution.items, &physical, &execution.warnings);
    let ghost initial = details@;
    let mut i: usize = 0;
    while i < physical.len()
        invariant
            i <= physical.len(),
            details@ == merge_details_spec(initial, physical@.take(i as int)),
        decreases physical.len() - i,
    {
        assert(physical@.take(i + 1).drop_last() =~= physical@.take(i as int));
        if !any_detail_has_key(&details, &physical[i]) {
            details.push(physical[i].duplicate());
        }
        i = i + 1;
    }
    assert(physical@.take(physical.len() as int) =~= physical@);
    details
}

/// Every code a list of details carries is one some warning of the plan has.
pub open spec fn codes_warned(
    details: Seq<InstanceUpgradeCompatibilityWarning>,
    warnings: Seq<InstanceUpgradeWarning>,
) -> bool {
    forall|i: int| 0 <= i < details.len() ==> code_warned(warnings, #[trigger] details[i].code)
}

proof fn lemma_warning_details_codes(
    items: Seq<InstanceUpgradeItem>,
    physical: Seq<InstanceUpgradeCompatibilityWarning>,
    warnings: Seq<InstanceUpgradeWarning>,
)
    ensures
        codes_warned(warning_details_spec(items, physical, warnings), warnings),
    decreases warnings.len(),
{
    if warnings.len() > 0 {
        let prev = warnings.drop_last();
        lemma_warning_details_codes(items, physical, prev);
        let d = warning_details_spec(items, physical, warnings);
        let p = warning_details_spec(items, physical, prev);
        assert forall|i: int| 0 <= i < d.len() implies code_warned(warnings, #[trigger] d[i].code) by {
            if i < p.len() {
                assert(d[i] == p[i]);
                assert(code_warned(prev, p[i].code));
                let j = choose|j: int| 0 <= j < prev.len() && #[trigger] prev[j].code == p[i].code;
                assert(warnings[j] == prev[j]);
            } else {
                assert(d[i].code == warnings.last().code);
                assert(warnings[warnings.len() - 1] == warnings.last());
            }
        }
    }
}

proof fn lemma_physical_details_codes(execution: InstanceUpgradeExecution, items: Seq<InstanceUpgradeItem>)
    ensures
        codes_warned(physical_details_spec(execution, items), execution.warnings@),
    decreases items.len(),
{
    if items.len() > 0 {
        lemma_physical_details_codes(execution, items.drop_last());
    }
}

proof fn lemma_merge_details(
    details: Seq<InstanceUpgradeCompatibilityWarning>,
    extra: Seq<InstanceUpgradeCompatibilityWarning>,
    warnings: Seq<InstanceUpgradeWarning>,
)
    ensures
        merge_details_spec(details, extra).len() >= details.len(),
        merge_details_spec(details, extra).take(details.len() as int) == details,
        forall|i: int, j: int|
            0 <= i < j < merge_details_spec(details, extra).len() && j >= details.len() ==> !same_detail_key(
                #[trigger] merge_details_spec(details, extra)[i],
                #[trigger] merge_details_spec(details, extra)[j],
            ),
        codes_warned(details, warnings) && codes_warned(extra, warnings) ==> codes_warned(
            merge_details_spec(details, extra),
            warnings,
        ),
    decreases extra.len(),
{
    if extra.len() == 0 {
        assert(details.take(details.len() as int) =~= details);
    } else {
        let e = extra.last();
        let m = merge_details_spec(details, extra.drop_last());
        lemma_merge_details(details, extra.drop_last(), warnings);
        if codes_warned(extra, warnings) {
            assert forall|i: int| 0 <= i < extra.drop_last().len() implies code_warned(
                warnings,
                #[trigger] extra.drop_last()[i].code,
            ) by {
                assert(extra.drop_last()[i] == extra[i]);
            }
            assert(code_warned(warnings, extra[extra.len() - 1].code));
        }
        if !has_detail_key(m, e) {
            let r = m.push(e);
            assert(r.take(details.len() as int) =~= m.take(details.len() as int));
            assert forall|i: int, j: int| 0 <= i < j < r.len() && j >= details.len() implies !same_detail_key(
                #[trigger] r[i],
                #[trigger] r[j],
            ) by {
                if j == m.len() {
                    assert(r[i] == m[i]);
                    assert(!same_detail_key(m[i], e));
                } else {
                    assert(r[i] == m[i] && r[j] == m[j]);
                }
            }
        }
    }
}

/// Every compatibility warning shown carries the code of some warning of the plan (so a
/// plan without warnings shows none), the warnings of the plan come first, in order,
/// and a detail called for by an item's own state is added after them only when no
/// detail shown before it has its code, content id and path.
pub proof fn law_compatibility_details_from_warnings(execution: InstanceUpgradeExecution)
    ensures
        codes_warned(compatibility_warning_details_spec(execution), execution.warnings@),
        ({
            let physical = physical_details_spec(execution, execution.items@);
            let shown = warning_details_spec(execution.items@, physical, execution.warnings@);
            let all = compatibility_warning_details_spec(execution);
            &&& all.take(shown.len() as int) == shown
            &&& forall|i: int, j: int|
                0 <= i < j < all.len() && j >= shown.len() ==> !same_detail_key(#[trigger] all[i], #[trigger] all[j])
        }),
{
    let physical = physical_details_spec(execution, execution.items@);
    let shown = warning_details_spec(execution.items@, physical, execution.warnings@);
    lemma_warning_details_codes(execution.items@, physical, execution.warnings@);
    lemma_physical_details_codes(execution, execution.items@);
    lemma_merge_details(shown, physical, execution.warnings@);
}

} // verus!
