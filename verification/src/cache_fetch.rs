//! Matching values fetched from the API back to the keys that were asked for: each key
//! takes the first remaining value that answers it by id or alias, and a key that
//! nothing answered is cached as empty, once.
use vstd::prelude::*;

use crate::cache::{alias_case_sensitive, str_views, to_lowercase_string, unicode_lowercase, CacheValueType};
use crate::text::{str_eq, to_owned_string};

verus! {

/// The id and alias of a value fetched from the API.
#[derive(Clone, Debug)]
pub struct FetchedRow {
    pub key: String,
    pub alias: Option<String>,
}

/// What the fetch writes for a key: the fetched value at an index, or an empty entry
/// for a key that nothing answered.
#[derive(Clone, Debug)]
pub enum CacheRowUpdate {
    Fetched(usize),
    Empty(String),
}

/// A row update as plain values.
pub enum RowUpdateView {
    Fetched(int),
    Empty(Seq<char>),
}

/// The view of a row update.
pub open spec fn update_view(u: CacheRowUpdate) -> RowUpdateView {
    match u {
        CacheRowUpdate::Fetched(i) => RowUpdateView::Fetched(i as int),
        CacheRowUpdate::Empty(k) => RowUpdateView::Empty(k@),
    }
}

/// The views of row updates.
pub open spec fn update_views(v: Seq<CacheRowUpdate>) -> Seq<RowUpdateView> {
    v.map_values(|u: CacheRowUpdate| update_view(u))
}

/// A fetched value answers a key by its id, or by its alias: equal to the key where
/// aliases are case-sensitive, else equal to the key's lower-case form.
pub open spec fn row_answers(row: FetchedRow, key: Seq<char>, lower: Seq<char>, case_sensitive: bool) -> bool {
    row.key@ == key || match row.alias {
        Some(a) => if case_sensitive {
            a@ == key
        } else {
            a@ == lower
        },
        None => false,
    }
}

/// Index of the first value not yet taken that answers the key, or `-1`.
pub open spec fn first_match(
    rows: Seq<FetchedRow>,
    taken: Seq<bool>,
    key: Seq<char>,
    lower: Seq<char>,
    case_sensitive: bool,
) -> int
    decreases rows.len(),
{
    if rows.len() == 0 {
        -1
    } else {
        let earlier = first_match(rows.drop_last(), taken.drop_last(), key, lower, case_sensitive);
        if earlier >= 0 {
            earlier
        } else if !taken.last() && row_answers(rows.last(), key, lower, case_sensitive) {
            rows.len() - 1
        } else {
            -1
        }
    }
}

/// Where the matching stands: which values are taken, which keys were answered (with
/// their lower-case forms where aliases ignore case), and the updates so far.
pub struct MatchState {
    pub taken: Seq<bool>,
    pub visited: Seq<Seq<char>>,
    pub out: Seq<RowUpdateView>,
}

/// Matching one more key.
pub open spec fn match_key(ty: CacheValueType, rows: Seq<FetchedRow>, st: MatchState, key: Seq<char>) -> MatchState {
    let cs = alias_case_sensitive(ty);
    let lower = unicode_lowercase(key);
    let p = first_match(rows, st.taken, key, lower, cs);
    if p >= 0 {
        MatchState {
            taken: st.taken.update(p, true),
            visited: if cs {
                st.visited.push(key)
            } else {
                st.visited.push(key).push(lower)
            },
            out: st.out.push(RowUpdateView::Fetched(p)),
        }
    } else if !st.visited.contains(key) && (cs || !st.visited.contains(lower)) {
        MatchState { out: st.out.push(RowUpdateView::Empty(key)), ..st }
    } else {
        st
    }
}

/// Matching the keys in order, starting with nothing taken or answered.
pub open spec fn match_keys(ty: CacheValueType, rows: Seq<FetchedRow>, keys: Seq<Seq<char>>) -> MatchState
    decreases keys.len(),
{
    if keys.len() == 0 {
        MatchState { taken: Seq::new(rows.len(), |i: int| false), visited: Seq::empty(), out: Seq::empty() }
    } else {
        match_key(ty, rows, match_keys(ty, rows, keys.drop_last()), keys.last())
    }
}

/// The updates a fetch writes for `keys` from the values `rows` that came back.
pub open spec fn matched_rows_spec(ty: CacheValueType, keys: Seq<Seq<char>>, rows: Seq<FetchedRow>) -> Seq<RowUpdateView> {
    match_keys(ty, rows, keys).out
}

proof fn lemma_first_match_prefix(
    rows: Seq<FetchedRow>,
    taken: Seq<bool>,
    key: Seq<char>,
    lower: Seq<char>,
    cs: bool,
    n: int,
)
    requires
        0 <= n <= rows.len(),
        taken.len() == rows.len(),
    ensures
        first_match(rows.take(n), taken.take(n), key, lower, cs) >= 0 ==> first_match(rows, taken, key, lower, cs)
            == first_match(rows.take(n), taken.take(n), key, lower, cs),
    decreases rows.len() - n,
{
    if n < rows.len() {
        assert(rows.take(n + 1).drop_last() =~= rows.take(n));
        assert(taken.take(n + 1).drop_last() =~= taken.take(n));
        lemma_first_match_prefix(rows, taken, key, lower, cs, n + 1);
    } else {
        assert(rows.take(n) =~= rows);
        assert(taken.take(n) =~= taken);
    }
}

proof fn lemma_first_match_props(rows: Seq<FetchedRow>, taken: Seq<bool>, key: Seq<char>, lower: Seq<char>, cs: bool)
    requires
        taken.len() == rows.len(),
    ensures
        -1 <= first_match(rows, taken, key, lower, cs) < rows.len(),
        first_match(rows, taken, key, lower, cs) >= 0 ==> !taken[first_match(rows, taken, key, lower, cs)],
    decreases rows.len(),
{
    if rows.len() > 0 {
        lemma_first_match_props(rows.drop_last(), taken.drop_last(), key, lower, cs);
        let e = first_match(rows.drop_last(), taken.drop_last(), key, lower, cs);
        if e >= 0 {
            assert(taken.drop_last()[e] == taken[e]);
        }
    }
}

/// The matching state is sound: values taken are marked, each update belongs to a key.
spec fn match_state_ok(st: MatchState, rows_len: int, keys_len: int) -> bool {
    &&& st.taken.len() == rows_len
    &&& st.out.len() <= keys_len
    &&& forall|k: int| 0 <= k < st.out.len() ==> (#[trigger] st.out[k] matches RowUpdateView::Fetched(i) ==> 0 <= i
        < rows_len && st.taken[i])
    &&& forall|a: int, b: int|
        0 <= a < b < st.out.len() ==> (#[trigger] st.out[a] matches RowUpdateView::Fetched(i) ==> (#[trigger] st.out[b] matches RowUpdateView::Fetched(j) ==> i
            != j))
}

proof fn lemma_match_keys_ok(ty: CacheValueType, rows: Seq<FetchedRow>, keys: Seq<Seq<char>>)
    ensures
        match_state_ok(match_keys(ty, rows, keys), rows.len() as int, keys.len() as int),
    decreases keys.len(),
{
    if keys.len() == 0 {
    } else {
        let prev = match_keys(ty, rows, keys.drop_last());
        lemma_match_keys_ok(ty, rows, keys.drop_last());
        let key = keys.last();
        let cs = alias_case_sensitive(ty);
        let lower = unicode_lowercase(key);
        lemma_first_match_props(rows, prev.taken, key, lower, cs);
        let p = first_match(rows, prev.taken, key, lower, cs);
        let st = match_keys(ty, rows, keys);
        if p >= 0 {
            assert forall|k: int| 0 <= k < st.out.len() implies (#[trigger] st.out[k] matches RowUpdateView::Fetched(i) ==> 0
                <= i < rows.len() && st.taken[i]) by {
                if k < prev.out.len() {
                    assert(st.out[k] == prev.out[k]);
                }
            }
            assert forall|a: int, b: int| 0 <= a < b < st.out.len() implies (#[trigger] st.out[a] matches RowUpdateView::Fetched(
                i,
            ) ==> (#[trigger] st.out[b] matches RowUpdateView::Fetched(j) ==> i != j)) by {
                assert(st.out[a] == prev.out[a]);
                if b < prev.out.len() {
                    assert(st.out[b] == prev.out[b]);
                }
            }
        } else {
            assert forall|k: int| 0 <= k < st.out.len() implies (#[trigger] st.out[k] matches RowUpdateView::Fetched(i) ==> 0
                <= i < rows.len() && st.taken[i]) by {
                if k < prev.out.len() {
                    assert(st.out[k] == prev.out[k]);
                }
            }
            assert forall|a: int, b: int| 0 <= a < b < st.out.len() implies (#[trigger] st.out[a] matches RowUpdateView::Fetched(
                i,
            ) ==> (#[trigger] st.out[b] matches RowUpdateView::Fetched(j) ==> i != j)) by {
                assert(st.out[a] == prev.out[a]);
                if b < prev.out.len() {
                    assert(st.out[b] == prev.out[b]);
                }
            }
        }
    }
}

/// Matching writes at most one update per key, and uses each fetched value at most once:
/// no two updates name the same fetched value.
pub proof fn law_fetched_values_used_once(ty: CacheValueType, keys: Seq<Seq<char>>, rows: Seq<FetchedRow>)
    ensures
        matched_rows_spec(ty, keys, rows).len() <= keys.len(),
        forall|k: int|
            0 <= k < matched_rows_spec(ty, keys, rows).len() ==> (#[trigger] matched_rows_spec(ty, keys, rows)[k] matches RowUpdateView::Fetched(
                i,
            ) ==> 0 <= i < rows.len()),
        forall|a: int, b: int|
            0 <= a < b < matched_rows_spec(ty, keys, rows).len() ==> (#[trigger] matched_rows_spec(ty, keys, rows)[a] matches RowUpdateView::Fetched(
                i,
            ) ==> (#[trigger] matched_rows_spec(ty, keys, rows)[b] matches RowUpdateView::Fetched(j) ==> i != j)),
{
    lemma_match_keys_ok(ty, rows, keys);
}

/// Whether a fetched value answers a key.
fn answers(row: &FetchedRow, key: &str, lower: &str, case_sensitive: bool) -> (r: bool)
    ensures
        r == row_answers(*row, key@, lower@, case_sensitive),
{
    if str_eq(row.key.as_str(), key) {
        return true;
    }
    match &row.alias {
        Some(a) => if case_sensitive {
            str_eq(a.as_str(), key)
        } else {
            str_eq(a.as_str(), lower)
        },
        None => false,
    }
}

/// The first value not yet taken that answers the key.
fn find_match(rows: &Vec<FetchedRow>, taken: &Vec<bool>, key: &str, lower: &str, case_sensitive: bool) -> (r: Option<usize>)
    requires
        taken.len() == rows.len(),
    ensures
        match r {
            Some(p) => p as int == first_match(rows@, taken@, key@, lower@, case_sensitive) && p < rows.len(),
            None => first_match(rows@, taken@, key@, lower@, case_sensitive) == -1,
        },
{
    let mut i: usize = 0;
    while i < rows.len()
        invariant
            i <= rows.len() == taken.len(),
            first_match(rows@.take(i as int), taken@.take(i as int), key@, lower@, case_sensitive) == -1,
        decreases rows.len() - i,
    {
        assert(rows@.take(i + 1).drop_last() =~= rows@.take(i as int));
        assert(taken@.take(i + 1).drop_last() =~= taken@.take(i as int));
        if !taken[i] && answers(&rows[i], key, lower, case_sensitive) {
            proof {
                lemma_first_match_prefix(rows@, taken@, key@, lower@, case_sensitive, i + 1);
            }
            return Some(i);
        }
        i = i + 1;
    }
    assert(rows@.take(i as int) =~= rows@);
    assert(taken@.take(i as int) =~= taken@);
    None
}

/// Whether `s` is among `v`.
fn listed(v: &Vec<String>, s: &str) -> (r: bool)
    ensures
        r == str_views(v@).contains(s@),
{
    let mut i: usize = 0;
    while i < v.len()
        invariant
            i <= v.len(),
            forall|j: int| 0 <= j < i ==> v@[j]@ != s@,
        decreases v.len() - i,
    {
        if str_eq(v[i].as_str(), s) {
            assert(str_views(v@)[i as int] == s@);
            return true;
        }
        i = i + 1;
    }
    assert forall|j: int| 0 <= j < str_views(v@).len() implies str_views(v@)[j] != s@ by {}
    false
}

/// Matches the values a fetch returned to the keys it asked for, in the keys' order
/// (see `match_keys`): a key takes the first value not yet taken whose id is the key or
/// whose alias is the key (its lower-case form, for kinds whose aliases ignore case);
/// a key that nothing answers gets an empty entry, unless an answered key already
/// covered it.
pub fn match_fetched(ty: CacheValueType, keys: &Vec<String>, fetched: &Vec<FetchedRow>) -> (r: Vec<CacheRowUpdate>)
    ensures
        update_views(r@) == matched_rows_spec(ty, str_views(keys@), fetched@),
{
    let case_sensitive = match ty.case_sensitive_alias() {
        Some(b) => b,
        None => true,
    };
    let mut taken: Vec<bool> = Vec::new();
    let mut n: usize = 0;
    while n < fetched.len()
        invariant
            n <= fetched.len(),
            taken@ == Seq::new(n as nat, |i: int| false),
        decreases fetched.len() - n,
    {
        taken.push(false);
        n = n + 1;
    }
    let mut visited: Vec<String> = Vec::new();
    let mut out: Vec<CacheRowUpdate> = Vec::new();
    let mut k: usize = 0;
    assert(str_views(keys@).take(0) =~= Seq::<Seq<char>>::empty());
    while k < keys.len()
        invariant
            k <= keys.len(),
            case_sensitive == alias_case_sensitive(ty),
            taken.len() == fetched.len(),
            ({
                let st = match_keys(ty, fetched@, str_views(keys@).take(k as int));
                &&& taken@ == st.taken
                &&& str_views(visited@) == st.visited
                &&& update_views(out@) == st.out
            }),
        decreases keys.len() - k,
    {
        let ghost views = str_views(keys@);
        assert(views.take(k + 1).drop_last() =~= views.take(k as int));
        assert(views.take(k + 1).last() == keys@[k as int]@);
        let key = keys[k].as_str();
        let lower = to_lowercase_string(key);
        let ghost before_visited = visited@;
        let ghost before_out = out@;
        match find_match(fetched, &taken, key, lower.as_str(), case_sensitive) {
            Some(p) => {
                taken.set(p, true);
                visited.push(to_owned_string(key));
                if !case_sensitive {
                    visited.push(lower);
                }
                out.push(CacheRowUpdate::Fetched(p));
                proof {
                    assert(str_views(visited@) =~= if case_sensitive {
                        str_views(before_visited).push(keys@[k as int]@)
                    } else {
                        str_views(before_visited).push(keys@[k as int]@).push(
                            unicode_lowercase(keys@[k as int]@),
                        )
                    });
                    assert(update_views(out@) =~= update_views(before_out).push(
                        RowUpdateView::Fetched(p as int),
                    ));
                }
            },
            None => {
                if !listed(&visited, key) && (case_sensitive || !listed(&visited, lower.as_str())) {
                    out.push(CacheRowUpdate::Empty(to_owned_string(key)));
                    proof {
                        assert(update_views(out@) =~= update_views(before_out).push(
                            RowUpdateView::Empty(keys@[k as int]@),
                        ));
                    }
                }
            },
        }
        k = k + 1;
    }
    assert(str_views(keys@).take(keys.len() as int) =~= str_views(keys@));
    out
}

} // verus!
