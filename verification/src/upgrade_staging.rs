//! The releases an upgrade downloads: one request per upgraded selection and per added
//! or upgraded dependency, each release once.
use vstd::prelude::*;

use crate::error::ErrorKind;
use crate::install::copy_opt_string;
use crate::text::{str_eq, to_owned_string};
use crate::upgrade_warnings::{
    ov, ContentProvider, InstanceUpgradeAction, InstanceUpgradeDependencyChange,
    InstanceUpgradeDependencyChangeKind, InstanceUpgradeExecution, InstanceUpgradeSelection,
};

verus! {

/// A release to download for an upgrade.
#[derive(Clone, Debug, PartialEq, Eq)]
pub struct UpgradeStagingRequest {
    /// The content it replaces, if any.
    pub content_id: Option<String>,
    pub provider: ContentProvider,
    pub project_id: String,
    pub release_id: String,
    /// Whether it is a dependency the upgrade brings in.
    pub auto_dependency: bool,
    pub enabled: bool,
}

/// A request as plain values.
pub type RequestView = (Option<Seq<char>>, ContentProvider, Seq<char>, Seq<char>, bool, bool);

/// A request as plain values.
pub open spec fn request_view(r: UpgradeStagingRequest) -> RequestView {
    (ov(r.content_id), r.provider, r.project_id@, r.release_id@, r.auto_dependency, r.enabled)
}

/// Requests as plain values.
pub open spec fn request_views(v: Seq<UpgradeStagingRequest>) -> Seq<RequestView> {
    v.map_values(|r: UpgradeStagingRequest| request_view(r))
}

/// What a selection asks for: nothing unless it upgrades content of a known provider;
/// an error when it names no project or no target release.
pub open spec fn selection_request(sel: InstanceUpgradeSelection) -> Option<Result<RequestView, Seq<char>>> {
    if sel.action != InstanceUpgradeAction::Upgrade {
        None
    } else {
        match sel.provider {
            None => None,
            Some(p) => match (sel.project_id, sel.target_release_id) {
                (None, _) => Some(Err("Upgrade selection "@ + sel.content_id@ + " has no project id"@)),
                (Some(_), None) => Some(Err("Upgrade selection "@ + sel.content_id@ + " has no target release"@)),
                (Some(project), Some(release)) => Some(
                    Ok((Some(sel.content_id@), p, project@, release@, false, sel.enabled)),
                ),
            },
        }
    }
}

/// What a dependency change asks for: a download when it adds or upgrades the
/// dependency, an error when it names no target release.
pub open spec fn change_request(change: InstanceUpgradeDependencyChange) -> Option<Result<RequestView, Seq<char>>> {
    if !(change.kind == InstanceUpgradeDependencyChangeKind::Add || change.kind
        == InstanceUpgradeDependencyChangeKind::Upgrade) {
        None
    } else {
        match change.target_release_id {
            None => Some(Err("Dependency "@ + change.project_id@ + " has no target release"@)),
            Some(release) => Some(
                Ok((ov(change.existing_content_id), change.provider, change.project_id@, release@, true, change.enabled)),
            ),
        }
    }
}

/// The requests of the selections, in order; the first error stops.
pub open spec fn selection_requests(sels: Seq<InstanceUpgradeSelection>) -> Result<Seq<RequestView>, Seq<char>>
    decreases sels.len(),
{
    if sels.len() == 0 {
        Ok(Seq::empty())
    } else {
        match selection_requests(sels.drop_last()) {
            Err(e) => Err(e),
            Ok(prev) => match selection_request(sels.last()) {
                None => Ok(prev),
                Some(Err(e)) => Err(e),
                Some(Ok(r)) => Ok(prev.push(r)),
            },
        }
    }
}

/// The requests of the dependency changes, in order; the first error stops.
pub open spec fn change_requests(changes: Seq<InstanceUpgradeDependencyChange>) -> Result<Seq<RequestView>, Seq<char>>
    decreases changes.len(),
{
    if changes.len() == 0 {
        Ok(Seq::empty())
    } else {
        match change_requests(changes.drop_last()) {
            Err(e) => Err(e),
            Ok(prev) => match change_request(changes.last()) {
                None => Ok(prev),
                Some(Err(e)) => Err(e),
                Some(Ok(r)) => Ok(prev.push(r)),
            },
        }
    }
}

/// What makes two requests the same download: the content they replace (`new` for
/// none), provider, project and release.
pub open spec fn request_key(r: RequestView) -> (Seq<char>, ContentProvider, Seq<char>, Seq<char>) {
    (
        match r.0 {
            Some(c) => c,
            None => "new"@,
        },
        r.1,
        r.2,
        r.3,
    )
}

/// Whether some request has the key of `r`.
pub open spec fn key_taken(reqs: Seq<RequestView>, r: RequestView) -> bool {
    exists|i: int| 0 <= i < reqs.len() && request_key(#[trigger] reqs[i]) == request_key(r)
}

/// The first request of each key, in order.
pub open spec fn first_of_each_key(reqs: Seq<RequestView>) -> Seq<RequestView>
    decreases reqs.len(),
{
    if reqs.len() == 0 {
        Seq::empty()
    } else {
        let prev = first_of_each_key(reqs.drop_last());
        if key_taken(prev, reqs.last()) {
            prev
        } else {
            prev.push(reqs.last())
        }
    }
}

/// The downloads an upgrade stages: the requests of the upgraded selections, then of the
/// added or upgraded dependencies, the first of each download kept.
pub open spec fn staging_requests_spec(execution: InstanceUpgradeExecution) -> Result<Seq<RequestView>, Seq<char>> {
    match selection_requests(execution.solution.selections@) {
        Err(e) => Err(e),
        Ok(a) => match change_requests(execution.solution.dependency_changes@) {
            Err(e) => Err(e),
            Ok(b) => Ok(first_of_each_key(a + b)),
        },
    }
}

/// `prefix`, the text, then `suffix`.
fn framed(prefix: &str, text: &str, suffix: &str) -> (r: String)
    ensures
        r@ == prefix@ + text@ + suffix@,
{
    let mut r = to_owned_string(prefix);
    r.append(text);
    r.append(suffix);
    r
}

/// The request of one selection (see `selection_request`).
fn request_of_selection(sel: &InstanceUpgradeSelection) -> (r: Option<Result<UpgradeStagingRequest, String>>)
    ensures
        match selection_request(*sel) {
            None => r is None,
            Some(Err(m)) => r matches Some(Err(e)) && e@ == m,
            Some(Ok(v)) => r matches Some(Ok(q)) && request_view(q) == v,
        },
{
    if sel.action != InstanceUpgradeAction::Upgrade {
        return None;
    }
    let provider = match sel.provider {
        Some(p) => p,
        None => return None,
    };
    let project_id = match &sel.project_id {
        Some(p) => p.clone(),
        None => return Some(Err(framed("Upgrade selection ", sel.content_id.as_str(), " has no project id"))),
    };
    let release_id = match &sel.target_release_id {
        Some(t) => t.clone(),
        None => return Some(Err(framed("Upgrade selection ", sel.content_id.as_str(), " has no target release"))),
    };
    Some(
        Ok(
            UpgradeStagingRequest {
                content_id: Some(sel.content_id.clone()),
                provider,
                project_id,
                release_id,
                auto_dependency: false,
                enabled: sel.enabled,
            },
        ),
    )
}

/// The request of one dependency change (see `change_request`).
fn request_of_change(change: &InstanceUpgradeDependencyChange) -> (r: Option<Result<UpgradeStagingRequest, String>>)
    ensures
        match change_request(*change) {
            None => r is None,
            Some(Err(m)) => r matches Some(Err(e)) && e@ == m,
            Some(Ok(v)) => r matches Some(Ok(q)) && request_view(q) == v,
        },
{
    if !(change.kind == InstanceUpgradeDependencyChangeKind::Add || change.kind
        == InstanceUpgradeDependencyChangeKind::Upgrade) {
        return None;
    }
    let release_id = match &change.target_release_id {
        Some(t) => t.clone(),
        None => return Some(Err(framed("Dependency ", change.project_id.as_str(), " has no target release"))),
    };
    Some(
        Ok(
            UpgradeStagingRequest {
                content_id: copy_opt_string(&change.existing_content_id),
                provider: change.provider,
                project_id: change.project_id.clone(),
                release_id,
                auto_dependency: true,
                enabled: change.enabled,
            },
        ),
    )
}

/// The key text of a request's replaced content: its id, or `new`.
fn content_key(content_id: &Option<String>) -> (r: String)
    ensures
        r@ == match ov(*content_id) {
            Some(c) => c,
            None => "new"@,
        },
{
    match content_id {
        Some(c) => c.clone(),
        None => to_owned_string("new"),
    }
}

/// Whether two requests are the same download.
fn same_request_key(a: &UpgradeStagingRequest, b: &UpgradeStagingRequest) -> (r: bool)
    ensures
        r == (request_key(request_view(*a)) == request_key(request_view(*b))),
{
    let ka = content_key(&a.content_id);
    let kb = content_key(&b.content_id);
    str_eq(ka.as_str(), kb.as_str()) && a.provider == b.provider && str_eq(a.project_id.as_str(), b.project_id.as_str())
        && str_eq(a.release_id.as_str(), b.release_id.as_str())
}

/// A copy of a request.
fn copy_request(r: &UpgradeStagingRequest) -> (c: UpgradeStagingRequest)
    ensures
        c == *r,
{
    UpgradeStagingRequest {
        content_id: copy_opt_string(&r.content_id),
        provider: r.provider,
        project_id: r.project_id.clone(),
        release_id: r.release_id.clone(),
        auto_dependency: r.auto_dependency,
        enabled: r.enabled,
    }
}

/// The first request of each download, in order.
fn first_requests(reqs: &Vec<UpgradeStagingRequest>) -> (r: Vec<UpgradeStagingRequest>)
    ensures
        request_views(r@) == first_of_each_key(request_views(reqs@)),
{
    let ghost all = request_views(reqs@);
    let mut out: Vec<UpgradeStagingRequest> = Vec::new();
    let mut i: usize = 0;
    while i < reqs.len()
        invariant
            i <= reqs.len(),
            all == request_views(reqs@),
            request_views(out@) == first_of_each_key(all.take(i as int)),
        decreases reqs.len() - i,
    {
        assert(all.take(i + 1).drop_last() =~= all.take(i as int));
        assert(all.take(i + 1).last() == request_view(reqs@[i as int]));
        let mut taken = false;
        let mut j: usize = 0;
        while j < out.len()
            invariant
                j <= out.len(),
                i < reqs.len(),
                taken == exists|k: int| 0 <= k < j && request_key(request_view(#[trigger] out@[k])) == request_key(
                    request_view(reqs@[i as int]),
                ),
            decreases out.len() - j,
        {
            if same_request_key(&out[j], &reqs[i]) {
                taken = true;
            }
            j = j + 1;
        }
        proof {
            let prev = request_views(out@);
            assert(taken == key_taken(prev, request_view(reqs@[i as int]))) by {
                if taken {
                    let k = choose|k: int| 0 <= k < out.len() && request_key(request_view(#[trigger] out@[k])) == request_key(
                        request_view(reqs@[i as int]),
                    );
                    assert(prev[k] == request_view(out@[k]));
                }
                if key_taken(prev, request_view(reqs@[i as int])) {
                    let k = choose|k: int| 0 <= k < prev.len() && request_key(#[trigger] prev[k]) == request_key(
                        request_view(reqs@[i as int]),
                    );
                    assert(prev[k] == request_view(out@[k]));
                }
            }
        }
        if !taken {
            let ghost before = out@;
            out.push(copy_request(&reqs[i]));
            assert(request_views(out@) =~= request_views(before).push(request_view(reqs@[i as int])));
        }
        i = i + 1;
    }
    assert(all.take(reqs.len() as int) =~= all);
    out
}

/// The downloads an upgrade stages (see `staging_requests_spec`); a selection or a
/// dependency that lacks what it needs is an input error.
pub fn upgrade_staging_requests(execution: &InstanceUpgradeExecution) -> (r: Result<Vec<UpgradeStagingRequest>, ErrorKind>)
    ensures
        match staging_requests_spec(*execution) {
            Ok(v) => r matches Ok(reqs) && request_views(reqs@) == v,
            Err(m) => r matches Err(ErrorKind::InputError(e)) && e@ == m,
        },
{
    let sels = &execution.solution.selections;
    let changes = &execution.solution.dependency_changes;
    let mut reqs: Vec<UpgradeStagingRequest> = Vec::new();
    let mut i: usize = 0;
    assert(sels@.take(0) =~= Seq::<InstanceUpgradeSelection>::empty());
    assert(request_views(reqs@) =~= Seq::<RequestView>::empty());
    while i < sels.len()
        invariant
            i <= sels.len(),
            sels == &execution.solution.selections,
            selection_requests(sels@.take(i as int)) == Ok::<Seq<RequestView>, Seq<char>>(request_views(reqs@)),
        decreases sels.len() - i,
    {
        assert(sels@.take(i + 1).drop_last() =~= sels@.take(i as int));
        match request_of_selection(&sels[i]) {
            None => {},
            Some(Err(e)) => {
                proof {
                    lemma_selection_error_sticks(sels@, i as int + 1);
                }
                return Err(ErrorKind::InputError(e));
            },
            Some(Ok(q)) => {
                let ghost before = reqs@;
                reqs.push(q);
                assert(request_views(reqs@) =~= request_views(before).push(request_view(reqs@.last())));
            },
        }
        i = i + 1;
    }
    assert(sels@.take(sels.len() as int) =~= sels@);
    let ghost from_selections = request_views(reqs@);
    let mut extra: Vec<UpgradeStagingRequest> = Vec::new();
    let mut k: usize = 0;
    assert(changes@.take(0) =~= Seq::<InstanceUpgradeDependencyChange>::empty());
    assert(request_views(extra@) =~= Seq::<RequestView>::empty());
    while k < changes.len()
        invariant
            k <= changes.len(),
            changes == &execution.solution.dependency_changes,
            selection_requests(execution.solution.selections@) == Ok::<Seq<RequestView>, Seq<char>>(from_selections),
            change_requests(changes@.take(k as int)) == Ok::<Seq<RequestView>, Seq<char>>(request_views(extra@)),
        decreases changes.len() - k,
    {
        assert(changes@.take(k + 1).drop_last() =~= changes@.take(k as int));
        match request_of_change(&changes[k]) {
            None => {},
            Some(Err(e)) => {
                proof {
                    lemma_change_error_sticks(changes@, k as int + 1);
                }
                return Err(ErrorKind::InputError(e));
            },
            Some(Ok(q)) => {
                let ghost before = extra@;
                extra.push(q);
                assert(request_views(extra@) =~= request_views(before).push(request_view(extra@.last())));
            },
        }
        k = k + 1;
    }
    assert(changes@.take(changes.len() as int) =~= changes@);
    let ghost before = reqs@;
    let mut t: usize = 0;
    while t < extra.len()
        invariant
            t <= extra.len(),
            reqs@ == before + extra@.take(t as int),
        decreases extra.len() - t,
    {
        reqs.push(copy_request(&extra[t]));
        assert(reqs@ =~= before + extra@.take(t + 1));
        t = t + 1;
    }
    assert(extra@.take(extra.len() as int) =~= extra@);
    assert(request_views(reqs@) =~= from_selections + request_views(extra@));
    Ok(first_requests(&reqs))
}

proof fn lemma_selection_error_sticks(sels: Seq<InstanceUpgradeSelection>, n: int)
    requires
        0 <= n <= sels.len(),
        selection_requests(sels.take(n)) is Err,
    ensures
        selection_requests(sels) == selection_requests(sels.take(n)),
    decreases sels.len() - n,
{
    if n < sels.len() {
        assert(sels.take(n + 1).drop_last() =~= sels.take(n));
        lemma_selection_error_sticks(sels, n + 1);
    } else {
        assert(sels.take(n) =~= sels);
    }
}

proof fn lemma_change_error_sticks(changes: Seq<InstanceUpgradeDependencyChange>, n: int)
    requires
        0 <= n <= changes.len(),
        change_requests(changes.take(n)) is Err,
    ensures
        change_requests(changes) == change_requests(changes.take(n)),
    decreases changes.len() - n,
{
    if n < changes.len() {
        assert(changes.take(n + 1).drop_last() =~= changes.take(n));
        lemma_change_error_sticks(changes, n + 1);
    } else {
        assert(changes.take(n) =~= changes);
    }
}

/// Each download is staged once: no two kept requests share a key, every request's
/// key is among the kept ones, and each kept request is one of the requests.
pub proof fn law_each_download_once(reqs: Seq<RequestView>)
    ensures
        forall|i: int, j: int|
            0 <= i < j < first_of_each_key(reqs).len() ==> request_key(#[trigger] first_of_each_key(reqs)[i])
                != request_key(#[trigger] first_of_each_key(reqs)[j]),
        forall|k: int| 0 <= k < reqs.len() ==> key_taken(first_of_each_key(reqs), #[trigger] reqs[k]),
        forall|i: int|
            0 <= i < first_of_each_key(reqs).len() ==> reqs.contains(#[trigger] first_of_each_key(reqs)[i]),
    decreases reqs.len(),
{
    if reqs.len() > 0 {
        let init = reqs.drop_last();
        let prev = first_of_each_key(init);
        law_each_download_once(init);
        let out = first_of_each_key(reqs);
        assert forall|k: int| 0 <= k < reqs.len() implies key_taken(out, #[trigger] reqs[k]) by {
            if k < reqs.len() - 1 {
                assert(init[k] == reqs[k]);
                assert(key_taken(prev, init[k]));
                let a = choose|a: int| 0 <= a < prev.len() && request_key(#[trigger] prev[a]) == request_key(init[k]);
                assert(out[a] == prev[a]);
            } else if !key_taken(prev, reqs.last()) {
                assert(out[prev.len() as int] == reqs.last());
            } else {
                let a = choose|a: int| 0 <= a < prev.len() && request_key(#[trigger] prev[a]) == request_key(reqs.last());
                assert(out[a] == prev[a]);
            }
        }
        assert forall|i: int| 0 <= i < out.len() implies reqs.contains(#[trigger] out[i]) by {
            if i < prev.len() {
                assert(out[i] == prev[i]);
                assert(init.contains(prev[i]));
                let k = choose|k: int| 0 <= k < init.len() && init[k] == prev[i];
                assert(reqs[k] == init[k]);
            } else {
                assert(out[i] == reqs[reqs.len() - 1]);
            }
        }
    }
}

} // verus!
