//! JSON values held by the library, with their views, and the merge that PCL applies
//! to version documents: object members merge recursively, arrays are concatenated,
//! and any other value of the source replaces the target.
use vstd::prelude::*;

use crate::text::{str_eq, to_owned_string};

verus! {

/// A JSON value. A number keeps its text and, where it is an integer that fits, its
/// value as an `i64`; an object keeps its members in order.
#[derive(Debug)]
pub enum JsonTree {
    Null,
    Bool(bool),
    Number(String, Option<i64>),
    Str(String),
    Array(Vec<JsonTree>),
    Object(Vec<(String, JsonTree)>),
}

/// A JSON value as plain values.
pub enum JsonView {
    Null,
    Bool(bool),
    Number(Seq<char>, Option<i64>),
    Str(Seq<char>),
    Array(Seq<JsonView>),
    Object(Seq<(Seq<char>, JsonView)>),
}

/// The view of a JSON value.
pub open spec fn json_view(t: JsonTree) -> JsonView
    decreases t,
{
    match t {
        JsonTree::Null => JsonView::Null,
        JsonTree::Bool(b) => JsonView::Bool(b),
        JsonTree::Number(n, i) => JsonView::Number(n@, i),
        JsonTree::Str(s) => JsonView::Str(s@),
        JsonTree::Array(v) => JsonView::Array(
            Seq::new(
                v.len() as nat,
                |i: int|
                    {
                        if 0 <= i < v.len() {
                            proof {
                                broadcast use vstd::std_specs::vec::axiom_vec_index_decreases;

                            }
                            json_view(v[i])
                        } else {
                            JsonView::Null
                        }
                    },
            ),
        ),
        JsonTree::Object(v) => JsonView::Object(
            Seq::new(
                v.len() as nat,
                |i: int|
                    {
                        if 0 <= i < v.len() {
                            proof {
                                broadcast use vstd::std_specs::vec::axiom_vec_index_decreases;

                            }
                            (v[i].0@, json_view(v[i].1))
                        } else {
                            (Seq::empty(), JsonView::Null)
                        }
                    },
            ),
        ),
    }
}

/// The view of an optional JSON value.
pub open spec fn opt_json_view(t: Option<JsonTree>) -> Option<JsonView> {
    match t {
        Some(v) => Some(json_view(v)),
        None => None,
    }
}

/// The views of object members.
pub open spec fn member_views(m: Seq<(String, JsonTree)>) -> Seq<(Seq<char>, JsonView)> {
    m.map_values(|p: (String, JsonTree)| (p.0@, json_view(p.1)))
}

/// The views of array elements.
pub open spec fn tree_views(v: Seq<JsonTree>) -> Seq<JsonView> {
    v.map_values(|t: JsonTree| json_view(t))
}

/// The view of an object is the views of its members.
pub proof fn lemma_object_view(v: Vec<(String, JsonTree)>)
    ensures
        json_view(JsonTree::Object(v)) == JsonView::Object(member_views(v@)),
{
    let s = match json_view(JsonTree::Object(v)) {
        JsonView::Object(s) => s,
        _ => Seq::empty(),
    };
    assert(s.len() == v.len());
    assert forall|i: int| 0 <= i < s.len() implies s[i] == member_views(v@)[i] by {}
    assert(s =~= member_views(v@));
}

/// The view of an array is the views of its elements.
pub proof fn lemma_array_view(v: Vec<JsonTree>)
    ensures
        json_view(JsonTree::Array(v)) == JsonView::Array(tree_views(v@)),
{
    let s = match json_view(JsonTree::Array(v)) {
        JsonView::Array(s) => s,
        _ => Seq::empty(),
    };
    assert(s.len() == v.len());
    assert forall|i: int| 0 <= i < s.len() implies s[i] == tree_views(v@)[i] by {}
    assert(s =~= tree_views(v@));
}

/// Index of the first member named `key`, or `-1`.
pub open spec fn member_pos(m: Seq<(Seq<char>, JsonView)>, key: Seq<char>) -> int
    decreases m.len(),
{
    if m.len() == 0 {
        -1
    } else if member_pos(m.drop_last(), key) >= 0 {
        member_pos(m.drop_last(), key)
    } else if m.last().0 == key {
        m.len() - 1
    } else {
        -1
    }
}

/// The member `key` of an object, if it has one.
pub open spec fn get_member(v: JsonView, key: Seq<char>) -> Option<JsonView> {
    match v {
        JsonView::Object(m) => if member_pos(m, key) >= 0 {
            Some(m[member_pos(m, key)].1)
        } else {
            None
        },
        _ => None,
    }
}

/// The member `key` is there and not `null` (what an optional field reads as set).
pub open spec fn has_value(v: JsonView, key: Seq<char>) -> bool {
    get_member(v, key) matches Some(x) && !(x is Null)
}

/// `m` with member `key` set to `x`: replaced in place, or appended.
pub open spec fn set_in(m: Seq<(Seq<char>, JsonView)>, key: Seq<char>, x: JsonView) -> Seq<(Seq<char>, JsonView)> {
    let p = member_pos(m, key);
    if p >= 0 {
        m.update(p, (key, x))
    } else {
        m.push((key, x))
    }
}

/// The members of an object (none for another value).
pub open spec fn members(v: JsonView) -> Seq<(Seq<char>, JsonView)> {
    match v {
        JsonView::Object(m) => m,
        _ => Seq::empty(),
    }
}

/// PCL's merge of `source` into `target` (Newtonsoft `JObject.Merge`): members of two
/// objects merge by name, recursively, new members coming last; two arrays are
/// concatenated; anything else is replaced by the source.
pub open spec fn pcl_merge_spec(target: JsonView, source: JsonView) -> JsonView
    decreases source,
{
    match source {
        JsonView::Object(sm) => match target {
            JsonView::Object(tm) => JsonView::Object(merge_members_spec(tm, sm)),
            _ => source,
        },
        JsonView::Array(sa) => match target {
            JsonView::Array(ta) => JsonView::Array(ta + sa),
            _ => source,
        },
        _ => source,
    }
}

/// The members `tm` with the members `sm` merged in, in order.
pub open spec fn merge_members_spec(
    tm: Seq<(Seq<char>, JsonView)>,
    sm: Seq<(Seq<char>, JsonView)>,
) -> Seq<(Seq<char>, JsonView)>
    decreases sm,
{
    if sm.len() == 0 {
        tm
    } else {
        proof {
            assert(decreases_to!(sm => sm[sm.len() - 1]));
        }
        let m = merge_members_spec(tm, sm.subrange(0, sm.len() - 1));
        let last = sm[sm.len() - 1];
        let p = member_pos(m, last.0);
        if p >= 0 {
            m.update(p, (last.0, pcl_merge_spec(m[p].1, last.1)))
        } else {
            m.push(last)
        }
    }
}

/// What `member_pos` finds.
pub proof fn lemma_member_pos(m: Seq<(Seq<char>, JsonView)>, key: Seq<char>)
    ensures
        -1 <= member_pos(m, key) < m.len(),
        member_pos(m, key) >= 0 ==> m[member_pos(m, key)].0 == key,
        member_pos(m, key) < 0 ==> forall|i: int| 0 <= i < m.len() ==> m[i].0 != key,
        forall|i: int| 0 <= i < member_pos(m, key) ==> m[i].0 != key,
    decreases m.len(),
{
    if m.len() > 0 {
        lemma_member_pos(m.drop_last(), key);
        assert forall|i: int| 0 <= i < m.len() - 1 implies m.drop_last()[i] == m[i] by {}
    }
}

proof fn lemma_member_pos_prefix(m: Seq<(Seq<char>, JsonView)>, key: Seq<char>, n: int)
    requires
        0 <= n <= m.len(),
        member_pos(m.take(n), key) >= 0,
    ensures
        member_pos(m, key) == member_pos(m.take(n), key),
    decreases m.len() - n,
{
    if n < m.len() {
        assert(m.take(n + 1).drop_last() =~= m.take(n));
        lemma_member_pos_prefix(m, key, n + 1);
    } else {
        assert(m.take(n) =~= m);
    }
}

/// Where member `key` is in `m`.
pub fn find_member(m: &Vec<(String, JsonTree)>, key: &str) -> (r: Option<usize>)
    ensures
        match r {
            Some(p) => p as int == member_pos(member_views(m@), key@) && p < m.len(),
            None => member_pos(member_views(m@), key@) == -1,
        },
{
    let ghost views = member_views(m@);
    let mut i: usize = 0;
    while i < m.len()
        invariant
            i <= m.len(),
            views == member_views(m@),
            member_pos(views.take(i as int), key@) == -1,
        decreases m.len() - i,
    {
        assert(views.take(i + 1).drop_last() =~= views.take(i as int));
        assert(views.take(i + 1).last() == views[i as int]);
        if str_eq(m[i].0.as_str(), key) {
            proof {
                lemma_member_pos_prefix(views, key@, i + 1);
            }
            return Some(i);
        }
        i = i + 1;
    }
    assert(views.take(i as int) =~= views);
    None
}

/// A copy of a JSON value.
pub fn copy_tree(t: &JsonTree) -> (r: JsonTree)
    ensures
        json_view(r) == json_view(*t),
    decreases t,
{
    match t {
        JsonTree::Null => JsonTree::Null,
        JsonTree::Bool(b) => JsonTree::Bool(*b),
        JsonTree::Number(n, i) => JsonTree::Number(to_owned_string(n.as_str()), *i),
        JsonTree::Str(s) => JsonTree::Str(to_owned_string(s.as_str())),
        JsonTree::Array(v) => {
            let out = copy_trees(v);
            proof {
                lemma_array_view(out);
                lemma_array_view(*v);
            }
            JsonTree::Array(out)
        },
        JsonTree::Object(v) => {
            let out = copy_members(v);
            proof {
                lemma_object_view(out);
                lemma_object_view(*v);
            }
            JsonTree::Object(out)
        },
    }
}

/// A copy of array elements.
pub fn copy_trees(v: &Vec<JsonTree>) -> (r: Vec<JsonTree>)
    ensures
        tree_views(r@) == tree_views(v@),
    decreases v,
{
    let mut out: Vec<JsonTree> = Vec::new();
    let mut i: usize = 0;
    while i < v.len()
        invariant
            i <= v.len(),
            tree_views(out@) == tree_views(v@).take(i as int),
        decreases v.len() - i,
    {
        proof {
            broadcast use vstd::std_specs::vec::axiom_vec_index_decreases;

        }
        let e = copy_tree(&v[i]);
        let ghost before = out@;
        out.push(e);
        assert(tree_views(out@) =~= tree_views(before).push(json_view(e)));
        assert(tree_views(v@).take(i + 1) =~= tree_views(v@).take(i as int).push(tree_views(v@)[i as int]));
        i = i + 1;
    }
    assert(tree_views(v@).take(v.len() as int) =~= tree_views(v@));
    out
}

/// A copy of object members.
pub fn copy_members(v: &Vec<(String, JsonTree)>) -> (r: Vec<(String, JsonTree)>)
    ensures
        member_views(r@) == member_views(v@),
    decreases v,
{
    let mut out: Vec<(String, JsonTree)> = Vec::new();
    let mut i: usize = 0;
    while i < v.len()
        invariant
            i <= v.len(),
            member_views(out@) == member_views(v@).take(i as int),
        decreases v.len() - i,
    {
        proof {
            broadcast use vstd::std_specs::vec::axiom_vec_index_decreases;

        }
        let e = copy_tree(&v[i].1);
        let ghost before = out@;
        out.push((to_owned_string(v[i].0.as_str()), e));
        assert(member_views(out@) =~= member_views(before).push((v@[i as int].0@, json_view(e))));
        assert(member_views(v@).take(i + 1) =~= member_views(v@).take(i as int).push(
            member_views(v@)[i as int],
        ));
        i = i + 1;
    }
    assert(member_views(v@).take(v.len() as int) =~= member_views(v@));
    out
}

/// PCL's merge of `source` into `target` (see `pcl_merge_spec`).
pub fn pcl_merge(target: &JsonTree, source: &JsonTree) -> (r: JsonTree)
    ensures
        json_view(r) == pcl_merge_spec(json_view(*target), json_view(*source)),
    decreases source,
{
    match source {
        JsonTree::Object(sm) => match target {
            JsonTree::Object(tm) => {
                let out = merge_members(tm, sm);
                proof {
                    lemma_object_view(out);
                    lemma_object_view(*tm);
                    lemma_object_view(*sm);
                }
                JsonTree::Object(out)
            },
            _ => copy_tree(source),
        },
        JsonTree::Array(sa) => match target {
            JsonTree::Array(ta) => {
                let mut out = copy_trees(ta);
                let mut tail = copy_trees(sa);
                let ghost a = out@;
                let ghost b = tail@;
                out.append(&mut tail);
                proof {
                    assert(tree_views(out@) =~= tree_views(a) + tree_views(b));
                    lemma_array_view(out);
                    lemma_array_view(*ta);
                    lemma_array_view(*sa);
                }
                JsonTree::Array(out)
            },
            _ => copy_tree(source),
        },
        _ => copy_tree(source),
    }
}

/// The members `tm` with the members `sm` merged in (see `merge_members_spec`).
pub fn merge_members(tm: &Vec<(String, JsonTree)>, sm: &Vec<(String, JsonTree)>) -> (r: Vec<(String, JsonTree)>)
    ensures
        member_views(r@) == merge_members_spec(member_views(tm@), member_views(sm@)),
    decreases sm,
{
    let ghost tv = member_views(tm@);
    let ghost sv = member_views(sm@);
    let mut out = copy_members(tm);
    let mut i: usize = 0;
    assert(sv.subrange(0, 0) =~= Seq::<(Seq<char>, JsonView)>::empty());
    while i < sm.len()
        invariant
            i <= sm.len(),
            tv == member_views(tm@),
            sv == member_views(sm@),
            member_views(out@) == merge_members_spec(tv, sv.subrange(0, i as int)),
        decreases sm.len() - i,
    {
        proof {
            broadcast use vstd::std_specs::vec::axiom_vec_index_decreases;

            let next = sv.subrange(0, i + 1);
            assert(next.subrange(0, next.len() - 1) =~= sv.subrange(0, i as int));
            assert(next[next.len() - 1] == sv[i as int]);
            lemma_member_pos(member_views(out@), sv[i as int].0);
        }
        let ghost m = member_views(out@);
        match find_member(&out, sm[i].0.as_str()) {
            Some(p) => {
                let (k, old) = out.remove(p);
                let merged = pcl_merge(&old, &sm[i].1);
                out.insert(p, (k, merged));
                proof {
                    assert(member_views(out@) =~= m.update(p as int, (sv[i as int].0, json_view(merged))));
                }
            },
            None => {
                let e = copy_tree(&sm[i].1);
                out.push((to_owned_string(sm[i].0.as_str()), e));
                proof {
                    assert(member_views(out@) =~= m.push(sv[i as int]));
                }
            },
        }
        i = i + 1;
    }
    assert(sv.subrange(0, sm.len() as int) =~= sv);
    out
}

/// What `serde_json::from_str::<Value>` makes of a text: the value, or the message of
/// its error.
pub uninterp spec fn json_parse_result(text: Seq<char>) -> Result<JsonView, Seq<char>>;

/// Parses JSON text with `serde_json::from_str::<Value>` and carries the value over
/// into the library's JSON type (numbers keep `Number::to_string` and `Number::as_i64`);
/// on failure, the error's message (`Display`). The result is `json_parse_result`.
#[verifier::external_body]
pub fn parse_json_text(text: &str) -> (r: Result<JsonTree, String>)
    ensures
        match r {
            Ok(t) => json_parse_result(text@) == Ok::<JsonView, Seq<char>>(json_view(t)),
            Err(m) => json_parse_result(text@) == Err::<JsonView, Seq<char>>(m@),
        },
{
    match serde_json::from_str::<serde_json::Value>(text) {
        Ok(value) => Ok(json_tree_of(&value)),
        Err(error) => Err(error.to_string()),
    }
}

/// Carries a `serde_json::Value` over into the library's JSON type, variant by variant
/// (used by `parse_json_text`, whose contract covers it).
#[verifier::external_body]
fn json_tree_of(value: &serde_json::Value) -> JsonTree {
    match value {
        serde_json::Value::Null => JsonTree::Null,
        serde_json::Value::Bool(b) => JsonTree::Bool(*b),
        serde_json::Value::Number(n) => JsonTree::Number(n.to_string(), n.as_i64()),
        serde_json::Value::String(s) => JsonTree::Str(s.clone()),
        serde_json::Value::Array(a) => JsonTree::Array(a.iter().map(json_tree_of).collect()),
        serde_json::Value::Object(m) => JsonTree::Object(m.iter().map(|(k, v)| (k.clone(), json_tree_of(v))).collect()),
    }
}

/// The member `key` of a JSON value that is an object.
pub fn member_of<'a>(t: &'a JsonTree, key: &str) -> (r: Option<&'a JsonTree>)
    ensures
        match r {
            Some(x) => get_member(json_view(*t), key@) == Some(json_view(*x)),
            None => get_member(json_view(*t), key@) is None,
        },
{
    match t {
        JsonTree::Object(m) => {
            proof {
                lemma_object_view(*m);
            }
            match find_member(m, key) {
                Some(p) => {
                    assert(member_views(m@)[p as int].1 == json_view(m@[p as int].1));
                    Some(&m[p].1)
                },
                None => None,
            }
        },
        _ => None,
    }
}

/// The string member `key` of a JSON value, if it is one.
pub open spec fn str_member(v: JsonView, key: Seq<char>) -> Option<Seq<char>> {
    match get_member(v, key) {
        Some(JsonView::Str(s)) => Some(s),
        _ => None,
    }
}

/// The string member `key` of a JSON value, if it is one.
pub fn str_member_of(t: &JsonTree, key: &str) -> (r: Option<String>)
    ensures
        match str_member(json_view(*t), key@) {
            Some(s) => r matches Some(x) && x@ == s,
            None => r is None,
        },
{
    match member_of(t, key) {
        Some(JsonTree::Str(s)) => Some(to_owned_string(s.as_str())),
        _ => None,
    }
}

/// The members without those named `key`.
pub open spec fn without_key(m: Seq<(Seq<char>, JsonView)>, key: Seq<char>) -> Seq<(Seq<char>, JsonView)> {
    m.filter(|p: (Seq<char>, JsonView)| p.0 != key)
}

/// The members set: `key` replaced in place or appended (see `set_in`).
pub fn set_member(m: &mut Vec<(String, JsonTree)>, key: &str, x: JsonTree)
    ensures
        member_views(final(m)@) == set_in(member_views(old(m)@), key@, json_view(x)),
{
    let ghost before = member_views(m@);
    match find_member(m, key) {
        Some(p) => {
            m.set(p, (to_owned_string(key), x));
            assert(member_views(m@) =~= before.update(p as int, (key@, json_view(x))));
        },
        None => {
            m.push((to_owned_string(key), x));
            assert(member_views(m@) =~= before.push((key@, json_view(x))));
        },
    }
}

/// The members without those named `key`.
pub fn remove_member(m: Vec<(String, JsonTree)>, key: &str) -> (r: Vec<(String, JsonTree)>)
    ensures
        member_views(r@) == without_key(member_views(m@), key@),
{
    reveal(Seq::filter);
    let ghost views = member_views(m@);
    let mut out: Vec<(String, JsonTree)> = Vec::new();
    let mut rest = m;
    let mut i: usize = 0;
    while rest.len() > 0
        invariant
            views == member_views(m@),
            i + rest.len() == m.len(),
            rest@ == m@.subrange(i as int, m.len() as int),
            member_views(out@) == without_key(views.take(i as int), key@),
        decreases rest.len(),
    {
        proof {
            reveal(Seq::filter);
        }
        let e = rest.remove(0);
        assert(e == m@[i as int]);
        assert(views[i as int].0 == e.0@);
        assert(views.take(i + 1).drop_last() =~= views.take(i as int));
        assert(views.take(i + 1).last() == views[i as int]);
        let ghost before = out@;
        if !str_eq(e.0.as_str(), key) {
            out.push(e);
            assert(member_views(out@) =~= member_views(before).push(views[i as int]));
        }
        i = i + 1;
    }
    assert(views.take(i as int) =~= views);
    out
}

} // verus!
